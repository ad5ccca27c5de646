# minisqlite

A control-plane kernel: events, versioned projections and durable background
jobs, committed together in one atomic transaction.

`src/` is the verified library. It works on tables in memory
(`ControlPlaneStore`, whose view is `Tables`) and records each change as a
`Write`; what an operation does is stated as a function of the tables before
it. Operations work on any tables that are `sound`, which the keys, the order
and the ranges of the stored columns give; tables that only this store has
changed are `consistent` besides, and every operation keeps both. `app/` keeps
those tables in a SQLite file and offers them to Node: it reads the rows, runs
one operation of the library inside a `BEGIN IMMEDIATE` transaction, executes
the recorded writes, and hands the result of the COMMIT step back to the
library, which answers the caller.

| Modules | Contents |
|---|---|
| `id`, `text`, `values`, `digest`, `seqs` | identifiers, texts, digests, sequences |
| `state`, `error`, `jobs`, `batch` | job states, errors, jobs and claims, commit batches |
| `row`, `rows`, `tables`, `steps`, `store`, `load` | the tables, their invariant, and the store |
| `transitions` | enqueue, acknowledge, fail, cancel, resolve |
| `plan`, `plan_laws`, `claim_steps`, `claim` | claims: repair of expired leases, round-robin leasing |
| `lease`, `recovery`, `listing` | lease extension, recovery of claims, listings |
| `encoding`, `encoding_laws`, `commit_steps`, `commit`, `job_laws` | commits of whole batches |
| `node`, `node_error`, `node_input`, `node_output` | the Node binding |

The properties that span operations are the proof functions whose names begin
with `law_`.

Randomness stays outside: an operation that needs fresh identifiers takes a
list of them.
