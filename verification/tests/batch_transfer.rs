use soroscope::batch_transfer::{BatchTransfer, Error, ExecutionMode, TransferFailure, TransferResult};
use soroscope::ledger::{Account, Transfer};

fn account(n: u128) -> Account {
    Account { contract: false, key_hi: 0, key_lo: n }
}

const ZERO_G: Account = Account { contract: false, key_hi: 0, key_lo: 0 };
const ZERO_C: Account = Account { contract: true, key_hi: 0, key_lo: 0 };

#[test]
fn test_batch_all_or_nothing_pays_everyone() {
    let token = Account { contract: true, key_hi: 0, key_lo: 9 };
    let sender = account(1);
    let mut ts: Vec<Transfer> = Vec::new();
    let r = BatchTransfer::execute(token, sender, 300, &vec![account(2), account(3)], &vec![100, 200], ExecutionMode::AllOrNothing, &mut ts).unwrap();
    assert!(r.iter().all(|x| x.success && x.failure == TransferFailure::NoFailure));
    assert_eq!(ts, vec![
        Transfer { token, from: sender, to: account(2), amount: 100 },
        Transfer { token, from: sender, to: account(3), amount: 200 },
    ]);
}

#[test]
fn test_batch_errors() {
    let token = account(9);
    let s = account(1);
    let mut ts: Vec<Transfer> = Vec::new();
    assert_eq!(BatchTransfer::execute(token, s, 10, &vec![], &vec![], ExecutionMode::Partial, &mut ts), Err(Error::EmptyBatch));
    assert_eq!(BatchTransfer::execute(token, s, 10, &vec![account(2)], &vec![], ExecutionMode::Partial, &mut ts), Err(Error::LengthMismatch));
    let many: Vec<Account> = (0..101).map(|i| account(10 + i)).collect();
    let amounts = vec![1i128; 101];
    assert_eq!(BatchTransfer::execute(token, s, 1_000, &many, &amounts, ExecutionMode::Partial, &mut ts), Err(Error::TooManyRecipients));
    assert_eq!(BatchTransfer::execute(token, s, 10, &vec![ZERO_G], &vec![5], ExecutionMode::AllOrNothing, &mut ts), Err(Error::InvalidAmount));
    assert_eq!(BatchTransfer::execute(token, s, 10, &vec![account(2)], &vec![11], ExecutionMode::AllOrNothing, &mut ts), Err(Error::InsufficientBalance));
    assert!(ts.is_empty());
    assert_eq!(Error::TooManyRecipients.code(), 5);
}

#[test]
fn test_batch_partial_reports_failures() {
    let token = account(9);
    let s = account(1);
    let recipients = vec![account(2), ZERO_C, account(3), account(4)];
    let amounts = vec![60, 10, 50, 0];
    let r = BatchTransfer::quote(token, s, 100, &recipients, &amounts, ExecutionMode::Partial).unwrap();
    assert_eq!(r, vec![
        TransferResult { recipient: account(2), amount: 60, success: true, failure: TransferFailure::NoFailure },
        TransferResult { recipient: ZERO_C, amount: 10, success: false, failure: TransferFailure::InvalidAmount },
        TransferResult { recipient: account(3), amount: 50, success: false, failure: TransferFailure::InsufficientBalance },
        TransferResult { recipient: account(4), amount: 0, success: false, failure: TransferFailure::InvalidAmount },
    ]);
}
