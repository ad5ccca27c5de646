//! Identifiers, stored columns, codes, texts and digests.

use minisqlite::digest::{checksum, digest};
use minisqlite::error::{
    claim_storage, error_to_claim, ClaimError, Conflict, Error, LeaseConflict, StorageError,
    ValidationError,
};
use minisqlite::id::Id;
use minisqlite::jobs::JobSpec;
use minisqlite::row::{id_from_blob, job_to_row, opt_id_from_blob, row_to_job, JobColumns};
use minisqlite::rows::{receipt_to_row, row_to_receipt, ReceiptColumns};
use minisqlite::state::{EffectMode, JobState};
use minisqlite::text::{decimal_text, is_blank, same_text, signed_decimal_text, text_before};
use minisqlite::transitions::{ensure_lease_token, ensure_transition};

fn hex(bytes: &[u8]) -> String {
    bytes.iter().map(|b| format!("{b:02x}")).collect()
}

fn columns() -> JobColumns {
    JobColumns {
        job_id: Id::from(5u128).as_bytes(),
        enqueue_sequence: 3,
        queue: "q".into(),
        partition_key: "p".into(),
        payload: vec![1, 2],
        not_before_ms: 7,
        max_attempts: 4,
        effect_mode: 1,
        idempotency_key: Some("k".into()),
        state: 1,
        attempt: 2,
        lease_token: Some(Id::from(6u128).as_bytes()),
        worker_id: Some("w".into()),
        lease_expires_at_ms: Some(99),
        retry_after_ms: None,
        terminal_at_ms: None,
        result_digest: None,
        error_summary: Some("e".into()),
        enqueue_transaction_id: Id::from(1u128).as_bytes(),
        updated_transaction_id: Id::from(2u128).as_bytes(),
    }
}

#[test]
fn identifiers_read_back_from_hex_and_bytes() {
    for value in [0u128, 1, 0xdead_beef, u128::MAX, 1 << 127] {
        let id = Id::from(value);
        assert_eq!(id.value, value);
        assert_eq!(id.to_hex(), format!("{value:032x}"));
        assert_eq!(Id::from_hex(&id.to_hex()), Some(id));
        assert_eq!(id.as_bytes(), value.to_be_bytes().to_vec());
        assert_eq!(Id::from_bytes(value.to_be_bytes()), id);
    }
    for bad in ["", "0", "00000000000000000000000000000000 ", "0000000000000000000000000000000G",
        "0000000000000000000000000000000A"] {
        assert_eq!(Id::from_hex(bad), None, "{bad:?}");
    }
}

#[test]
fn identifier_columns_hold_sixteen_bytes() {
    let corrupt = StorageError::Sqlite("corrupt 16-byte id column".into());
    assert_eq!(id_from_blob(vec![0; 16]), Ok(Id::from(0u128)));
    assert_eq!(id_from_blob(vec![0; 15]), Err(corrupt.clone()));
    assert_eq!(id_from_blob(vec![0; 17]), Err(corrupt.clone()));
    assert_eq!(opt_id_from_blob(None), Ok(None));
    assert_eq!(
        opt_id_from_blob(Some(Id::from(9u128).as_bytes())),
        Ok(Some(Id::from(9u128)))
    );
    assert_eq!(opt_id_from_blob(Some(vec![])), Err(corrupt));
}

#[test]
fn job_columns_decode() {
    let row = row_to_job(columns()).unwrap();
    assert_eq!(row.job_id, Id::from(5u128));
    assert_eq!(row.state, JobState::Leased);
    assert_eq!(row.effect_mode, EffectMode::ExplicitlyIdempotent);
    assert_eq!(row.lease_token, Some(Id::from(6u128)));
    assert_eq!((row.attempt, row.max_attempts), (2, 4));
    let info = row.into_info();
    assert_eq!(info.job_id, Id::from(5u128));
    assert_eq!(
        info.spec,
        JobSpec::idempotent(Id::from(5u128), "q", "p", vec![1, 2], "k")
            .with_not_before_ms(7)
            .with_max_attempts(4)
    );
    assert_eq!(info.worker_id, Some("w".into()));
    assert_eq!(info.lease_expires_at_ms, Some(99));
    assert_eq!(info.error_summary, Some("e".into()));
}

#[test]
fn corrupt_job_columns_are_storage_errors() {
    let cases: Vec<(fn(&mut JobColumns), &str)> = vec![
        (|c| c.job_id = vec![], "corrupt 16-byte id column"),
        (|c| c.effect_mode = 2, "corrupt effect mode 2"),
        (|c| c.effect_mode = -1, "corrupt effect mode -1"),
        (|c| c.state = 7, "corrupt job state 7"),
        (|c| c.lease_token = Some(vec![1]), "corrupt 16-byte id column"),
    ];
    for (change, text) in cases {
        let mut c = columns();
        change(&mut c);
        assert_eq!(row_to_job(c), Err(StorageError::Sqlite(text.into())));
    }
    // The bookkeeping columns decide nothing, and are kept as stored.
    let mut c = columns();
    c.enqueue_transaction_id = vec![];
    c.updated_transaction_id = vec![1; 8];
    let row = row_to_job(c).unwrap();
    assert_eq!(row.job_id, Id::from(5u128));
    assert_eq!(row.updated_transaction_id, vec![1; 8]);
    assert_eq!(job_to_row(&row).updated_transaction_id, vec![1; 8]);
    // The first column that does not decode is the error.
    let mut c = columns();
    c.effect_mode = 9;
    c.state = 9;
    assert_eq!(
        row_to_job(c),
        Err(StorageError::Sqlite("corrupt effect mode 9".into()))
    );
}

fn receipt_columns() -> ReceiptColumns {
    ReceiptColumns {
        transaction_id: Id::from(1u128).as_bytes(),
        job_id: Id::from(2u128).as_bytes(),
        lease_token: Id::from(3u128).as_bytes(),
        attempt: 4,
        worker_id: "w".into(),
        lease_expires_at_ms: 5,
    }
}

#[test]
fn receipt_columns_decode() {
    let row = row_to_receipt(receipt_columns()).unwrap().unwrap();
    assert_eq!(row.lease_token, Id::from(3u128));
    assert_eq!(row.attempt, 4);
    // Nothing finds a receipt without a transaction or a job.
    let mut c = receipt_columns();
    c.transaction_id = vec![0; 3];
    assert_eq!(row_to_receipt(c), Ok(None));
    let mut c = receipt_columns();
    c.job_id = vec![];
    assert_eq!(row_to_receipt(c), Ok(None));
    let mut c = receipt_columns();
    c.lease_token = vec![1];
    assert_eq!(
        row_to_receipt(c),
        Err(StorageError::Sqlite("corrupt 16-byte id column".into()))
    );
}

#[test]
fn stored_rows_read_back() {
    let row = row_to_job(columns()).unwrap();
    assert_eq!(job_to_row(&row), columns());
    assert_eq!(row_to_job(job_to_row(&row)), Ok(row));
    let receipt = row_to_receipt(receipt_columns()).unwrap().unwrap();
    let stored = receipt_to_row(&receipt);
    assert_eq!((stored.attempt, stored.lease_token.len()), (4, 16));
    assert_eq!(row_to_receipt(stored), Ok(Some(receipt)));
}

#[test]
fn codes_read_back() {
    let states = [
        JobState::Pending,
        JobState::Leased,
        JobState::RetryWait,
        JobState::Uncertain,
        JobState::Succeeded,
        JobState::Dead,
        JobState::Cancelled,
    ];
    for (code, state) in states.into_iter().enumerate() {
        assert_eq!(state.encode(), code as i64);
        assert_eq!(JobState::decode(code as i64), Some(state));
        assert_eq!(state.is_terminal(), code >= 4);
        for to in states {
            if state.is_terminal() {
                assert!(!state.can_transition_to(to));
            }
        }
    }
    assert_eq!(JobState::decode(-1), None);
    assert_eq!(EffectMode::decode(0), Some(EffectMode::RequiresReconciliation));
    assert_eq!(EffectMode::ExplicitlyIdempotent.encode(), 1);
    assert_eq!(EffectMode::decode(2), None);
}

#[test]
fn steps_and_tokens_are_checked() {
    let job = row_to_job(columns()).unwrap();
    assert_eq!(ensure_transition(&job, JobState::Uncertain), Ok(()));
    assert_eq!(
        ensure_transition(&job, JobState::Leased),
        Err(Error::Conflict(Conflict::JobTransition {
            job_id: Id::from(5u128),
            from: JobState::Leased,
            to: JobState::Leased,
        }))
    );
    assert_eq!(ensure_lease_token(&job, Id::from(6u128)), Ok(()));
    assert_eq!(
        ensure_lease_token(&job, Id::from(7u128)),
        Err(Error::Validation(ValidationError(format!(
            "stale lease token for job {:032x}",
            5
        ))))
    );
}

#[test]
fn claim_errors_keep_their_kind() {
    let s = StorageError::Identifier("x".into());
    assert_eq!(claim_storage(s.clone()), ClaimError::Storage(s.clone()));
    assert_eq!(error_to_claim(Error::Storage(s.clone())), ClaimError::Storage(s));
    let v = ValidationError("v".into());
    assert_eq!(error_to_claim(Error::Validation(v.clone())), ClaimError::Validation(v));
    let c = Conflict::Lease(LeaseConflict::JobNotFound(Id::from(1u128)));
    assert_eq!(error_to_claim(Error::Conflict(c.clone())), ClaimError::Conflict(c));
}

#[test]
fn checksums_are_fnv1a_with_128_bits() {
    assert_eq!(hex(&checksum("")), "6c62272e07bb014262b821756295c58d");
    assert_eq!(hex(&checksum("a")), "d228cb696f1a8caf78912b704e4a8964");
    assert_eq!(hex(&checksum("foobar")), "343e1662793c64bf6f0d3597ba446f18");
    assert_eq!(checksum("é"), digest(&[0xc3, 0xa9]));
}

#[test]
fn texts_and_numbers() {
    assert_eq!(decimal_text(0), "0");
    assert_eq!(decimal_text(u64::MAX), "18446744073709551615");
    assert_eq!(signed_decimal_text(i64::MIN), "-9223372036854775808");
    assert_eq!(signed_decimal_text(42), "42");
    assert!(is_blank(""));
    assert!(!is_blank(" "));
    assert!(same_text("ä", "ä"));
    assert!(!same_text("a", "ab"));
    let mut words = vec!["b", "", "ab", "a", "é", "z", "aa", "\u{10000}", "\u{ffff}"];
    words.sort();
    for pair in words.windows(2) {
        assert!(text_before(pair[0], pair[1]));
        assert!(!text_before(pair[1], pair[0]));
    }
    assert!(!text_before("a", "a"));
}
