use transfer_notifs::address::{note_address, note_file_name, to_hex};
use transfer_notifs::event::{decode, DecodeError, NotificationEvent, RawTransfer};
use transfer_notifs::ledger::{LedgerError, WalletLedger};
use transfer_notifs::note::{bytes_eq, copy_bytes, CashNote};
use transfer_notifs::reconcile::{
    needs_verification, on_payload, unpack_transfer, ReconcileError, Session, Step, VerifyOutcome,
};
use transfer_notifs::store::{note_file, NoteDir};

const EMPTY_SHA3: &str = "a7ffc6f8bf1ed76651c14756a061d662f580ff4de43b49fa82d80a4b80f8434a";

fn frame(kind: u8, blob: &[u8]) -> Vec<u8> {
    let mut f = vec![kind];
    f.extend_from_slice(&(blob.len() as u32).to_be_bytes());
    f.extend_from_slice(blob);
    f
}

fn notification(key_byte: u8, frames: &[Vec<u8>]) -> Vec<u8> {
    let mut p = vec![0u8];
    p.extend_from_slice(&[key_byte; 48]);
    for f in frames {
        p.extend_from_slice(f);
    }
    p
}

fn note(id: u8, value: u64) -> CashNote {
    CashNote::new(vec![id; 48], value, vec![id, 0xab])
}

#[test]
fn decode_empty_payload() {
    assert!(matches!(decode(&[]), Err(DecodeError::Empty)));
}

#[test]
fn decode_short_header() {
    let p = vec![0u8; 20];
    assert!(matches!(decode(&p), Err(DecodeError::ShortHeader)));
}

#[test]
fn decode_other_event() {
    match decode(&[7, 1, 2, 3]) {
        Ok(NotificationEvent::Other { kind, body }) => {
            assert_eq!(kind, 7);
            assert_eq!(body, vec![1, 2, 3]);
        }
        other => panic!("unexpected {:?}", other),
    }
}

#[test]
fn decode_notification_with_two_transfers() {
    let p = notification(9, &[frame(0, &[1, 2, 3]), frame(1, &[])]);
    match decode(&p) {
        Ok(NotificationEvent::TransferNotification { key, transfers }) => {
            assert_eq!(key, vec![9u8; 48]);
            assert_eq!(transfers.len(), 2);
            assert!(matches!(&transfers[0], RawTransfer::Encrypted(b) if b == &vec![1, 2, 3]));
            assert!(matches!(&transfers[1], RawTransfer::NetworkRoyalty(b) if b.is_empty()));
        }
        other => panic!("unexpected {:?}", other),
    }
}

#[test]
fn decode_notification_without_transfers() {
    let p = notification(1, &[]);
    match decode(&p) {
        Ok(NotificationEvent::TransferNotification { transfers, .. }) => assert!(transfers.is_empty()),
        other => panic!("unexpected {:?}", other),
    }
}

#[test]
fn decode_unknown_frame_kind() {
    let p = notification(1, &[frame(2, &[1])]);
    assert!(matches!(decode(&p), Err(DecodeError::BadFrame)));
}

#[test]
fn decode_truncated_payload_is_rejected() {
    let p = notification(1, &[frame(0, &[1, 2, 3, 4])]);
    for cut in 1..p.len() {
        let r = decode(&p[..cut]);
        if cut < 49 {
            assert!(matches!(r, Err(DecodeError::ShortHeader)), "cut {}", cut);
        } else if cut > 49 {
            assert!(matches!(r, Err(DecodeError::BadFrame)), "cut {}", cut);
        }
    }
}

#[test]
fn corrupt_payload_leaves_ledger_unchanged() {
    let mut session = Session::new(false);
    let t = vec![RawTransfer::Encrypted(vec![1])];
    session.apply_batch(&t, vec![VerifyOutcome::Unpacked(vec![note(1, 5)])]).unwrap();
    let p = notification(1, &[frame(0, &[1, 2, 3, 4])]);
    assert!(matches!(on_payload(&p[..52]), Step::Skip(DecodeError::BadFrame)));
    assert_eq!(session.ledger.balance(), 5);
}

#[test]
fn on_payload_branches() {
    assert!(matches!(on_payload(&[3, 3]), Step::Ignore));
    assert!(matches!(on_payload(&[]), Step::Skip(DecodeError::Empty)));
    let p = notification(4, &[frame(0, &[5])]);
    match on_payload(&p) {
        Step::Verify { key, transfers } => {
            assert_eq!(key, vec![4u8; 48]);
            assert_eq!(transfers.len(), 1);
        }
        other => panic!("unexpected {:?}", other),
    }
}

#[test]
fn hex_encodes_lowercase_pairs() {
    assert_eq!(to_hex(&vec![0x0f, 0xa0, 0x00, 0xff]), "0fa000ff");
    assert_eq!(to_hex(&vec![]), "");
}

#[test]
fn note_file_name_of_empty_key() {
    let n = CashNote::new(vec![], 1, vec![]);
    assert_eq!(note_file_name(&n), format!("{}.cash_note", EMPTY_SHA3));
    assert_eq!(hex::encode(note_address(&n)), EMPTY_SHA3);
}

#[test]
fn note_file_name_matches_xor_name() {
    let n = note(3, 1);
    let expected = format!("{}.cash_note", hex::encode(xor_name::XorName::from_content(&[3u8; 48]).0));
    assert_eq!(note_file_name(&n), expected);
    let f = note_file(&n);
    assert_eq!(f.name, expected);
    assert_eq!(f.contents, "03ab");
}

#[test]
fn bytes_helpers() {
    assert!(bytes_eq(&vec![1, 2], &vec![1, 2]));
    assert!(!bytes_eq(&vec![1, 2], &vec![1, 3]));
    assert!(!bytes_eq(&vec![1], &vec![1, 2]));
    assert_eq!(copy_bytes(&vec![4, 5]), vec![4, 5]);
}

#[test]
fn persisting_twice_keeps_one_identical_file() {
    let mut dir = NoteDir::new();
    let n = note(7, 3);
    dir.persist(&n);
    let first = dir.get(&note_file_name(&n)).unwrap();
    dir.persist(&n);
    assert_eq!(dir.len(), 1);
    assert_eq!(dir.get(&note_file_name(&n)).unwrap(), first);
    assert_eq!(first, "07ab");
}

#[test]
fn persisting_distinct_notes_keeps_both() {
    let mut dir = NoteDir::new();
    dir.persist(&note(1, 1));
    dir.persist(&note(2, 1));
    assert_eq!(dir.len(), 2);
    assert!(dir.get(&"missing".to_string()).is_none());
}

#[test]
fn deposit_adds_exact_sum_once() {
    let mut ledger = WalletLedger::new();
    let batch = vec![note(1, 5), note(2, 7), note(3, 11)];
    ledger.deposit(&batch).unwrap();
    assert_eq!(ledger.balance(), 23);
    ledger.deposit(&batch).unwrap();
    assert_eq!(ledger.balance(), 23);
    assert!(ledger.is_deposited(&vec![2u8; 48]));
    assert!(!ledger.is_deposited(&vec![4u8; 48]));
}

#[test]
fn deposit_counts_repeated_note_in_batch_once() {
    let mut ledger = WalletLedger::new();
    ledger.deposit(&vec![note(1, 5), note(1, 5)]).unwrap();
    assert_eq!(ledger.balance(), 5);
}

#[test]
fn deposit_overflow_leaves_ledger_unchanged() {
    let mut ledger = WalletLedger::new();
    ledger.deposit(&vec![note(1, u64::MAX - 1)]).unwrap();
    let r = ledger.deposit(&vec![note(2, 1), note(3, 1)]);
    assert_eq!(r, Err(LedgerError::Overflow));
    assert_eq!(ledger.balance(), u64::MAX - 1);
    assert!(!ledger.is_deposited(&vec![2u8; 48]));
    ledger.deposit(&vec![note(2, 1)]).unwrap();
    assert_eq!(ledger.balance(), u64::MAX);
}

#[test]
fn rejected_transfer_yields_nothing() {
    let t = RawTransfer::Encrypted(vec![1, 2]);
    assert!(needs_verification(&t));
    assert!(unpack_transfer(&t, VerifyOutcome::Rejected).is_empty());
    let mut session = Session::new(true);
    let report = session.apply_batch(&vec![t], vec![VerifyOutcome::Rejected]).unwrap();
    assert!(report.notes.is_empty());
    assert!(report.files.is_empty());
    assert_eq!(session.ledger.balance(), 0);
    assert_eq!(session.notes.as_ref().unwrap().len(), 0);
}

#[test]
fn royalty_transfer_never_yields_notes() {
    let t = RawTransfer::NetworkRoyalty(vec![9]);
    assert!(!needs_verification(&t));
    let r = unpack_transfer(&t, VerifyOutcome::Unpacked(vec![note(1, 5)]));
    assert!(r.is_empty());
    let mut session = Session::new(true);
    let report = session
        .apply_batch(&vec![t], vec![VerifyOutcome::Unpacked(vec![note(1, 5)])])
        .unwrap();
    assert!(report.notes.is_empty());
    assert_eq!(report.balance, 0);
}

#[test]
fn batch_with_one_note_for_holder() {
    let mut session = Session::new(true);
    let p = notification(1, &[frame(0, &[1]), frame(0, &[2])]);
    let transfers = match on_payload(&p) {
        Step::Verify { transfers, .. } => transfers,
        other => panic!("unexpected {:?}", other),
    };
    let outcomes = vec![VerifyOutcome::Unpacked(vec![note(1, 5)]), VerifyOutcome::Rejected];
    let report = session.apply_batch(&transfers, outcomes).unwrap();
    assert_eq!(report.notes.len(), 1);
    assert_eq!(report.balance, 5);
    assert_eq!(report.files.len(), 1);
    assert_eq!(report.files[0].name, note_file_name(&note(1, 5)));
    assert_eq!(session.notes.as_ref().unwrap().len(), 1);
}

#[test]
fn redelivered_batch_changes_nothing() {
    let mut session = Session::new(true);
    let transfers = vec![RawTransfer::Encrypted(vec![1]), RawTransfer::Encrypted(vec![2])];
    let outcomes = || vec![VerifyOutcome::Unpacked(vec![note(1, 5)]), VerifyOutcome::Rejected];
    session.apply_batch(&transfers, outcomes()).unwrap();
    let name = note_file_name(&note(1, 5));
    let before = session.notes.as_ref().unwrap().get(&name).unwrap();
    let report = session.apply_batch(&transfers, outcomes()).unwrap();
    assert_eq!(report.balance, 5);
    assert_eq!(session.ledger.balance(), 5);
    let dir = session.notes.as_ref().unwrap();
    assert_eq!(dir.len(), 1);
    assert_eq!(dir.get(&name).unwrap(), before);
}

#[test]
fn batch_overflow_is_reported() {
    let mut session = Session::new(false);
    let t = vec![RawTransfer::Encrypted(vec![1]), RawTransfer::Encrypted(vec![2])];
    let r = session.apply_batch(
        &t,
        vec![
            VerifyOutcome::Unpacked(vec![note(1, u64::MAX)]),
            VerifyOutcome::Unpacked(vec![note(2, 1)]),
        ],
    );
    assert!(matches!(r, Err(ReconcileError::Overflow)));
    assert_eq!(session.ledger.balance(), 0);
}

#[test]
fn batch_without_persistence_writes_no_files() {
    let mut session = Session::new(false);
    assert!(session.notes.is_none());
    let t = vec![RawTransfer::Encrypted(vec![1])];
    let report = session.apply_batch(&t, vec![VerifyOutcome::Unpacked(vec![note(1, 4), note(2, 6)])]).unwrap();
    assert_eq!(report.notes.len(), 2);
    assert!(report.files.is_empty());
    assert_eq!(report.balance, 10);
    assert!(session.notes.is_none());
}
