//! What the values of the library are: the states of a job, the order of
//! texts, numbers and identifiers as text, and checksums.
use vstd::prelude::*;
use vstd::utf8::encode_utf8;

use crate::batch::{
    expected_views, mutation_views, operation_views, persisted_views, ExpectedStreamVersion,
    Operation, PersistedEvent, ProjectionMutation,
};
use crate::digest::{checksum_of, digest_of, fnv1a};
use crate::id::{
    big_endian, hex_digit_value, hex_digits, hex_of, hex_value, id_of_hex, law_hex_round_trip,
    lemma_pow_16_32, pow_nat, Id,
};
use crate::jobs::{claimed_views, info_views, ClaimedJob, JobInfo};
use crate::rows::{write_views, Write};
use crate::state::{can_step, effect_code, state_code, terminal, EffectMode, JobState};
use crate::text::{decimal, signed_decimal, text_lt};
use crate::transitions::opt_str;
use crate::values::{opt_bytes, opt_text};

verus! {

/// The steps that a job may take, and no others: a pending job is leased or
/// cancelled; a leased one succeeds, waits for its retry, dies, is cancelled,
/// becomes uncertain or is pending again; one that waits for its retry is
/// leased; an uncertain one is pending again, succeeds or dies.
pub proof fn law_steps_of_a_job(from: JobState, to: JobState)
    ensures
        can_step(from, to) <==> ({
            ||| from is Pending && (to is Leased || to is Cancelled)
            ||| from is Leased && to != JobState::Leased
            ||| from is RetryWait && to is Leased
            ||| from is Uncertain && (to is Pending || to is Succeeded || to is Dead)
        }),
        terminal(from) <==> from is Succeeded || from is Dead || from is Cancelled,
        terminal(from) <==> forall|s: JobState| !#[trigger] can_step(from, s),
{
    if !terminal(from) {
        if from is Uncertain {
            assert(can_step(from, JobState::Dead));
        } else {
            assert(can_step(from, JobState::Leased) || can_step(from, JobState::Dead));
        }
    }
}

/// Under which numbers the states and the effect modes are stored: in the order
/// pending, leased, waiting for a retry, uncertain, succeeded, dead, cancelled,
/// and reconciled before idempotent.
pub proof fn law_stored_numbers(s: JobState, m: EffectMode)
    ensures
        0 <= state_code(s) <= 6,
        state_code(s) == 0 <==> s is Pending,
        state_code(s) == 1 <==> s is Leased,
        state_code(s) == 2 <==> s is RetryWait,
        state_code(s) == 3 <==> s is Uncertain,
        state_code(s) == 4 <==> s is Succeeded,
        state_code(s) == 5 <==> s is Dead,
        state_code(s) == 6 <==> s is Cancelled,
        effect_code(m) == 0 <==> m is RequiresReconciliation,
        effect_code(m) == 1 <==> m is ExplicitlyIdempotent,
{
}

/// The first `i` characters of both texts are there and are the same.
pub open spec fn alike(a: Seq<char>, b: Seq<char>, i: int) -> bool {
    &&& 0 <= i <= a.len()
    &&& i <= b.len()
    &&& forall|j: int| 0 <= j < i ==> #[trigger] a[j] == b[j]
}

/// One text is before another exactly where the two begin alike and the first
/// then ends, or goes on with a character of lower code point.
pub proof fn law_order_of_texts(a: Seq<char>, b: Seq<char>)
    ensures
        text_lt(a, b) <==> exists|i: int| #[trigger]
            alike(a, b, i) && i < b.len() && (i == a.len() || (a[i] as int) < (b[i] as int)),
    decreases a.len(),
{
    if b.len() > 0 && a.len() > 0 && a[0] == b[0] {
        let c = a.drop_first();
        let d = b.drop_first();
        law_order_of_texts(c, d);
        if text_lt(c, d) {
            let i = choose|i: int| #[trigger]
                alike(c, d, i) && i < d.len() && (i == c.len() || (c[i] as int) < (d[i] as int));
            assert forall|j: int| 0 <= j < i + 1 implies #[trigger] a[j] == b[j] by {
                if j > 0 {
                    assert(c[j - 1] == d[j - 1]);
                }
            }
            assert(alike(a, b, i + 1));
        }
        if exists|i: int| #[trigger]
            alike(a, b, i) && i < b.len() && (i == a.len() || (a[i] as int) < (b[i] as int)) {
            let i = choose|i: int| #[trigger]
                alike(a, b, i) && i < b.len() && (i == a.len() || (a[i] as int) < (b[i] as int));
            assert(i > 0);
            assert forall|j: int| 0 <= j < i - 1 implies #[trigger] c[j] == d[j] by {
                assert(a[j + 1] == b[j + 1]);
            }
            assert(alike(c, d, i - 1));
        }
    } else if b.len() > 0 {
        assert(alike(a, b, 0));
        if exists|i: int| #[trigger]
            alike(a, b, i) && i < b.len() && (i == a.len() || (a[i] as int) < (b[i] as int)) {
            let i = choose|i: int| #[trigger]
                alike(a, b, i) && i < b.len() && (i == a.len() || (a[i] as int) < (b[i] as int));
            if i > 0 {
                assert(a[0] == b[0]);
            }
        }
    }
}

/// The number that a text of decimal digits denotes.
pub open spec fn denoted(digits: Seq<char>) -> int
    decreases digits.len(),
{
    if digits.len() == 0 {
        0
    } else {
        10 * denoted(digits.drop_last()) + (digits.last() as int - '0' as int)
    }
}

/// A number is written in decimal digits that denote it, without a leading zero.
pub proof fn law_decimal(n: nat)
    ensures
        denoted(decimal(n)) == n,
        forall|i: int| 0 <= i < decimal(n).len() ==> '0' <= #[trigger] decimal(n)[i] <= '9',
        decimal(n).len() >= 1,
        decimal(n).len() > 1 ==> decimal(n)[0] != '0',
    decreases n,
{
    reveal_with_fuel(denoted, 2);
    let s = decimal(n);
    if n < 10 {
        assert(s.drop_last() =~= Seq::empty());
    } else {
        law_decimal(n / 10);
        let high = decimal(n / 10);
        assert(s.drop_last() =~= high);
        assert forall|i: int| 0 <= i < s.len() implies '0' <= #[trigger] s[i] <= '9' by {
            if i < high.len() {
                assert(s[i] == high[i]);
            }
        }
        assert(s[0] == high[0]);
        if high.len() == 1 {
            assert(n / 10 >= 1);
            assert(high.drop_last() =~= Seq::empty());
            assert(high[0] == high.last());
        }
    }
}

/// A negative number is written with a minus sign before its absolute value, any
/// other number as it is.
pub proof fn law_signed_decimal(n: int)
    ensures
        n >= 0 ==> denoted(signed_decimal(n)) == n && signed_decimal(n)[0] != '-',
        n < 0 ==> signed_decimal(n)[0] == '-' && denoted(signed_decimal(n).drop_first()) == -n,
{
    if n < 0 {
        law_decimal((-n) as nat);
        assert(signed_decimal(n).drop_first() =~= decimal((-n) as nat));
    } else {
        law_decimal(n as nat);
        assert('0' <= decimal(n as nat)[0]);
    }
}

/// The character is a hexadecimal digit, with a small letter where it is one.
pub open spec fn is_hex_digit(c: char) -> bool {
    '0' as u32 <= c as u32 <= '9' as u32 || 'a' as u32 <= c as u32 <= 'f' as u32
}

/// What a hexadecimal digit stands for.
pub open spec fn hex_worth(c: char) -> int {
    if c as u32 <= '9' as u32 {
        c as u32 - '0' as u32
    } else {
        c as u32 - 'a' as u32 + 10
    }
}

/// The number that a text of hexadecimal digits denotes, the highest first.
pub open spec fn hex_denoted(digits: Seq<char>) -> int
    decreases digits.len(),
{
    if digits.len() == 0 {
        0
    } else {
        16 * hex_denoted(digits.drop_last()) + hex_worth(digits.last())
    }
}

proof fn lemma_hex_digits(x: nat, n: nat)
    ensures
        hex_digits(x, n).len() == n,
        forall|i: int| 0 <= i < n ==> is_hex_digit(#[trigger] hex_digits(x, n)[i]),
    decreases n,
{
    if n > 0 {
        lemma_hex_digits(x / 16, (n - 1) as nat);
    }
}

proof fn lemma_hex_value(s: Seq<char>)
    ensures
        hex_value(s) is Some <==> forall|i: int| 0 <= i < s.len() ==> is_hex_digit(#[trigger] s[i]),
        hex_value(s) is Some ==> hex_value(s)->0 == hex_denoted(s),
    decreases s.len(),
{
    if s.len() > 0 {
        let front = s.drop_last();
        lemma_hex_value(front);
        assert(hex_value(s) is Some <==> hex_value(front) is Some && hex_digit_value(s.last())
            is Some);
        assert(hex_digit_value(s.last()) is Some <==> is_hex_digit(s.last()));
        if hex_value(front) is Some && is_hex_digit(s.last()) {
            assert forall|i: int| 0 <= i < s.len() implies is_hex_digit(#[trigger] s[i]) by {
                if i < front.len() {
                    assert(front[i] == s[i]);
                }
            }
        }
        if forall|i: int| 0 <= i < s.len() ==> is_hex_digit(#[trigger] s[i]) {
            assert forall|i: int| 0 <= i < front.len() implies is_hex_digit(
                #[trigger] front[i],
            ) by {
                assert(front[i] == s[i]);
            }
            assert(is_hex_digit(s[s.len() - 1]));
        }
    }
}

/// A text names an identifier exactly when it is thirty-two hexadecimal digits
/// with small letters, and names the one whose value they denote; an identifier
/// is written as the text that names it.
pub proof fn law_identifiers_as_text(text: Seq<char>, id: Id)
    ensures
        id_of_hex(text) is Some <==> text.len() == 32 && forall|i: int|
            0 <= i < text.len() ==> is_hex_digit(#[trigger] text[i]),
        id_of_hex(text) is Some ==> (id_of_hex(text)->0).value == hex_denoted(text),
        hex_of(id).len() == 32,
        forall|i: int| 0 <= i < 32 ==> is_hex_digit(#[trigger] hex_of(id)[i]),
        hex_denoted(hex_of(id)) == id.value,
{
    lemma_hex_value(text);
    lemma_hex_digits(id.value as nat, 32);
    lemma_hex_value(hex_of(id));
    law_hex_round_trip(id);
    lemma_hex_bound(hex_of(id));
    if id_of_hex(text) is Some {
        lemma_hex_bound(text);
    }
}

/// What the digits of an identifier denote fits into it.
proof fn lemma_hex_bound(s: Seq<char>)
    requires
        s.len() == 32,
        forall|i: int| 0 <= i < s.len() ==> is_hex_digit(#[trigger] s[i]),
    ensures
        0 <= hex_denoted(s) <= u128::MAX,
{
    lemma_hex_limit(s);
    lemma_pow_16_32();
}

proof fn lemma_hex_limit(s: Seq<char>)
    requires
        forall|i: int| 0 <= i < s.len() ==> is_hex_digit(#[trigger] s[i]),
    ensures
        0 <= hex_denoted(s) < pow_nat(16, s.len()),
    decreases s.len(),
{
    if s.len() > 0 {
        let front = s.drop_last();
        assert forall|i: int| 0 <= i < front.len() implies is_hex_digit(#[trigger] front[i]) by {
            assert(front[i] == s[i]);
        }
        lemma_hex_limit(front);
        assert(is_hex_digit(s[s.len() - 1]));
    }
}

/// How bytes are hashed: no byte at all gives the offset basis, and one more
/// byte is mixed in by exclusive or before the hash is multiplied by the prime,
/// modulo the 128 bits of the hash. The digest is the hash in sixteen bytes, the
/// highest first.
pub proof fn law_digest(bytes: Seq<u8>, b: u8)
    ensures
        fnv1a(Seq::empty()) == 0x6c62272e07bb014262b821756295c58du128,
        fnv1a(bytes.push(b)) == ((fnv1a(bytes) ^ (b as u128)) as int
            * 0x0000000001000000000000000000013bint) % 0x1_0000_0000_0000_0000_0000_0000_0000_0000int,
        digest_of(bytes).len() == 16,
        forall|k: int|
            0 <= k < 16 ==> #[trigger] digest_of(bytes)[k] == byte_at(fnv1a(bytes) as nat, 15 - k),
{
    assert(bytes.push(b).drop_last() =~= bytes);
    lemma_big_endian_bytes(fnv1a(bytes) as nat, 16);
}

/// The checksum of a text is the digest of its UTF-8 bytes.
pub proof fn law_checksum(text: Seq<char>)
    ensures
        checksum_of(text) == digest_of(encode_utf8(text)),
{
}

/// The byte of a number with this weight, the lowest having weight zero.
pub open spec fn byte_at(x: nat, weight: int) -> int
    decreases weight,
{
    if weight <= 0 {
        x as int % 256
    } else {
        byte_at(x / 256, weight - 1)
    }
}

/// The bytes of a number, the highest first.
pub proof fn lemma_big_endian_bytes(x: nat, n: nat)
    ensures
        big_endian(x, n).len() == n,
        forall|k: int| 0 <= k < n ==> #[trigger] big_endian(x, n)[k] == byte_at(x, n - 1 - k),
    decreases n,
{
    if n > 0 {
        lemma_big_endian_bytes(x / 256, (n - 1) as nat);
        let high = big_endian(x / 256, (n - 1) as nat);
        assert forall|k: int| 0 <= k < n implies #[trigger] big_endian(x, n)[k] == byte_at(
            x,
            n - 1 - k,
        ) by {
            if k < n - 1 {
                assert(big_endian(x, n)[k] == high[k]);
            }
        }
    }
}

/// An optional value is there in a view exactly where it is there, and is the
/// same.
pub proof fn law_optional_values(text: Option<String>, bytes: Option<Vec<u8>>, s: Option<&str>)
    ensures
        opt_text(text) is Some <==> text is Some,
        text matches Some(x) ==> opt_text(text) == Some(x@),
        opt_bytes(bytes) is Some <==> bytes is Some,
        bytes matches Some(x) ==> opt_bytes(bytes) == Some(x@),
        opt_str(s) is Some <==> s is Some,
        s matches Some(x) ==> opt_str(s) == Some(x@),
{
}

/// The views of what is handed in or out are one for one, in the same order.
pub proof fn law_lists_of_views(
    jobs: Seq<ClaimedJob>,
    infos: Seq<JobInfo>,
    events: Seq<PersistedEvent>,
    operations: Seq<Operation>,
    expected: Seq<ExpectedStreamVersion>,
    mutations: Seq<ProjectionMutation>,
    writes: Seq<Write>,
)
    ensures
        claimed_views(jobs).len() == jobs.len(),
        forall|i: int| 0 <= i < jobs.len() ==> claimed_views(jobs)[i] == (#[trigger] jobs[i])@,
        info_views(infos).len() == infos.len(),
        forall|i: int| 0 <= i < infos.len() ==> info_views(infos)[i] == (#[trigger] infos[i])@,
        persisted_views(events).len() == events.len(),
        forall|i: int|
            0 <= i < events.len() ==> persisted_views(events)[i] == (#[trigger] events[i])@,
        operation_views(operations).len() == operations.len(),
        forall|i: int|
            0 <= i < operations.len() ==> operation_views(operations)[i] == (
            #[trigger] operations[i])@,
        expected_views(expected).len() == expected.len(),
        forall|i: int|
            0 <= i < expected.len() ==> expected_views(expected)[i] == (#[trigger] expected[i])@,
        mutation_views(mutations).len() == mutations.len(),
        forall|i: int|
            0 <= i < mutations.len() ==> mutation_views(mutations)[i] == (
            #[trigger] mutations[i])@,
        write_views(writes).len() == writes.len(),
        forall|i: int| 0 <= i < writes.len() ==> write_views(writes)[i] == (#[trigger] writes[i])@,
{
}

} // verus!
