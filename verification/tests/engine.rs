use payments::accounts::Accounts;
use payments::amount::Amount;
use payments::engine::{PaymentEngine, Record};
use payments::errors::TxError;
use payments::ledger::{Ledger, TxState, TxType};

fn amt(mantissa: u128, scale: u32) -> Option<Amount> {
    Some(Amount::new(mantissa, scale).unwrap())
}

fn record(tx_type: TxType, client_id: u16, id: u32, amount: Option<Amount>) -> Record {
    Record { tx_type, client_id, id, amount }
}

struct Run {
    engine: PaymentEngine,
    ledger: Ledger,
    accounts: Accounts,
}

impl Run {
    fn new() -> Run {
        Run { engine: PaymentEngine::new(), ledger: Ledger::new(), accounts: Accounts::new() }
    }

    fn process(&mut self, rec: Record) -> Result<(), TxError> {
        self.engine.process_transaction(rec, &mut self.ledger, &mut self.accounts)
    }

    fn balances(&self, client: u16) -> (String, String, String, bool) {
        let rows = self.accounts.report_accounts_balances();
        let row = rows.iter().find(|r| r.client == client).unwrap();
        (row.available.clone(), row.held.clone(), row.total.clone(), row.locked)
    }
}

#[test]
fn dispute_chargeback_freezes_account() {
    let mut run = Run::new();
    run.process(record(TxType::Deposit, 1, 1, amt(100, 1))).unwrap();
    assert_eq!(run.balances(1), ("10.0".to_string(), "0.0".to_string(), "10.0".to_string(), false));
    run.process(record(TxType::Deposit, 1, 2, amt(50, 1))).unwrap();
    assert_eq!(run.balances(1).0, "15.0");
    run.process(record(TxType::Dispute, 1, 1, None)).unwrap();
    assert_eq!(run.balances(1), ("5.0".to_string(), "10.0".to_string(), "15.0".to_string(), false));
    run.process(record(TxType::Chargeback, 1, 1, None)).unwrap();
    assert_eq!(run.balances(1), ("5.0".to_string(), "0.0".to_string(), "5.0".to_string(), true));
    let r = run.process(record(TxType::Deposit, 1, 3, amt(10, 1)));
    assert_eq!(r, Err(TxError::AccountLocked));
    assert_eq!(run.balances(1), ("5.0".to_string(), "0.0".to_string(), "5.0".to_string(), true));
}

#[test]
fn dispute_without_funds_is_surfaced_and_rolled_back() {
    let mut run = Run::new();
    run.process(record(TxType::Deposit, 2, 10, amt(100, 1))).unwrap();
    run.process(record(TxType::Withdrawal, 2, 11, amt(80, 1))).unwrap();
    assert_eq!(run.balances(2).0, "2.0");
    let r = run.process(record(TxType::Dispute, 2, 10, None));
    assert_eq!(r, Err(TxError::InsufficientFunds));
    // The failed hold leaves the balances untouched, and — by the
    // atomic-dispute policy — the transaction stays in Normal.
    assert_eq!(run.balances(2), ("2.0".to_string(), "0.0".to_string(), "2.0".to_string(), false));
    assert!(run.ledger.get_transaction_by_id(10).unwrap().state == TxState::Normal);
}

#[test]
fn duplicate_deposit_id_is_rejected() {
    let mut run = Run::new();
    run.process(record(TxType::Deposit, 3, 1, amt(50, 1))).unwrap();
    let r = run.process(record(TxType::Deposit, 3, 1, amt(30, 1)));
    assert_eq!(r, Err(TxError::DuplicateTransactionId));
    assert_eq!(run.balances(3).0, "5.0");
}

#[test]
fn duplicate_withdrawal_id_is_rejected() {
    let mut run = Run::new();
    run.process(record(TxType::Deposit, 3, 1, amt(50, 1))).unwrap();
    let r = run.process(record(TxType::Withdrawal, 3, 1, amt(10, 1)));
    assert_eq!(r, Err(TxError::DuplicateTransactionId));
    assert_eq!(run.balances(3).0, "5.0");
}

#[test]
fn control_record_for_unseen_id_is_unknown() {
    let mut run = Run::new();
    assert_eq!(
        run.process(record(TxType::Dispute, 1, 99, None)),
        Err(TxError::UnknownTransactionReference)
    );
    assert_eq!(
        run.process(record(TxType::Resolve, 1, 99, None)),
        Err(TxError::UnknownTransactionReference)
    );
    assert_eq!(
        run.process(record(TxType::Chargeback, 1, 99, None)),
        Err(TxError::UnknownTransactionReference)
    );
    assert!(run.accounts.report_accounts_balances().is_empty());
}

#[test]
fn client_mismatch_on_control_record_is_unknown() {
    let mut run = Run::new();
    run.process(record(TxType::Deposit, 1, 1, amt(100, 1))).unwrap();
    let r = run.process(record(TxType::Dispute, 2, 1, None));
    assert_eq!(r, Err(TxError::UnknownTransactionReference));
    assert!(run.ledger.get_transaction_by_id(1).unwrap().state == TxState::Normal);
    assert_eq!(run.balances(1).0, "10.0");
    // No account springs into being for the mismatched claimant.
    assert!(run.accounts.report_accounts_balances().iter().all(|row| row.client != 2));
}

#[test]
fn disputing_a_withdrawal_record_fails() {
    let mut run = Run::new();
    run.process(record(TxType::Deposit, 4, 1, amt(100, 1))).unwrap();
    run.process(record(TxType::Withdrawal, 4, 2, amt(30, 1))).unwrap();
    let r = run.process(record(TxType::Dispute, 4, 2, None));
    assert_eq!(r, Err(TxError::UndisputableTransaction));
    assert_eq!(run.balances(4), ("7.0".to_string(), "0.0".to_string(), "7.0".to_string(), false));
}

#[test]
fn resolve_of_undisputed_transaction_changes_nothing() {
    let mut run = Run::new();
    run.process(record(TxType::Deposit, 5, 1, amt(100, 1))).unwrap();
    let r = run.process(record(TxType::Resolve, 5, 1, None));
    assert_eq!(r, Err(TxError::UnresolvableTransaction));
    assert_eq!(run.balances(5), ("10.0".to_string(), "0.0".to_string(), "10.0".to_string(), false));
}

#[test]
fn chargeback_of_undisputed_transaction_changes_nothing() {
    let mut run = Run::new();
    run.process(record(TxType::Deposit, 5, 1, amt(100, 1))).unwrap();
    let r = run.process(record(TxType::Chargeback, 5, 1, None));
    assert_eq!(r, Err(TxError::IrreversibleTransaction));
    assert_eq!(run.balances(5), ("10.0".to_string(), "0.0".to_string(), "10.0".to_string(), false));
}

#[test]
fn charged_back_id_accepts_nothing_further() {
    let mut run = Run::new();
    run.process(record(TxType::Deposit, 6, 1, amt(100, 1))).unwrap();
    run.process(record(TxType::Dispute, 6, 1, None)).unwrap();
    run.process(record(TxType::Chargeback, 6, 1, None)).unwrap();
    assert_eq!(
        run.process(record(TxType::Dispute, 6, 1, None)),
        Err(TxError::ChargedBackTransaction)
    );
    assert_eq!(
        run.process(record(TxType::Resolve, 6, 1, None)),
        Err(TxError::ChargedBackTransaction)
    );
}

#[test]
fn resolve_releases_held_funds() {
    let mut run = Run::new();
    run.process(record(TxType::Deposit, 7, 1, amt(100, 1))).unwrap();
    run.process(record(TxType::Dispute, 7, 1, None)).unwrap();
    assert_eq!(run.balances(7), ("0.0".to_string(), "10.0".to_string(), "10.0".to_string(), false));
    run.process(record(TxType::Resolve, 7, 1, None)).unwrap();
    assert_eq!(run.balances(7), ("10.0".to_string(), "0.0".to_string(), "10.0".to_string(), false));
}

#[test]
fn withdrawal_beyond_available_is_declined() {
    let mut run = Run::new();
    run.process(record(TxType::Deposit, 8, 1, amt(100, 1))).unwrap();
    let r = run.process(record(TxType::Withdrawal, 8, 2, amt(101, 1)));
    assert_eq!(r, Err(TxError::InsufficientFunds));
    assert_eq!(run.balances(8).0, "10.0");
    // The failed withdrawal is not stored: its id stays free.
    assert!(run.ledger.get_transaction_by_id(2).is_none());
    run.process(record(TxType::Deposit, 8, 2, amt(5, 1))).unwrap();
    assert_eq!(run.balances(8).0, "10.5");
}

#[test]
fn movable_record_without_amount_is_malformed() {
    let mut run = Run::new();
    assert_eq!(run.process(record(TxType::Deposit, 9, 1, None)), Err(TxError::MalformedRecord));
    assert_eq!(run.process(record(TxType::Withdrawal, 9, 2, None)), Err(TxError::MalformedRecord));
    assert!(run.ledger.get_transaction_by_id(1).is_none());
}

#[test]
fn report_rows_are_sorted_by_client_id() {
    let mut run = Run::new();
    run.process(record(TxType::Deposit, 500, 1, amt(10, 1))).unwrap();
    run.process(record(TxType::Deposit, 2, 2, amt(20, 1))).unwrap();
    run.process(record(TxType::Deposit, 77, 3, amt(30, 1))).unwrap();
    let rows = run.accounts.report_accounts_balances();
    let ids: Vec<u16> = rows.iter().map(|r| r.client).collect();
    assert_eq!(ids, vec![2, 77, 500]);
}

#[test]
fn report_is_identical_across_runs_with_reordered_internal_inserts() {
    // Same records, different arrival order of clients: the final
    // balances agree, and so must every printed row.
    let mut run1 = Run::new();
    run1.process(record(TxType::Deposit, 1, 1, amt(25, 1))).unwrap();
    run1.process(record(TxType::Deposit, 2, 2, amt(50, 1))).unwrap();
    let mut run2 = Run::new();
    run2.process(record(TxType::Deposit, 2, 2, amt(50, 1))).unwrap();
    run2.process(record(TxType::Deposit, 1, 1, amt(25, 1))).unwrap();
    let rows1 = run1.accounts.report_accounts_balances();
    let rows2 = run2.accounts.report_accounts_balances();
    assert_eq!(rows1.len(), rows2.len());
    for (a, b) in rows1.iter().zip(rows2.iter()) {
        assert_eq!(a.client, b.client);
        assert_eq!(a.available, b.available);
        assert_eq!(a.held, b.held);
        assert_eq!(a.total, b.total);
        assert_eq!(a.locked, b.locked);
    }
}

#[test]
fn chargeback_still_reduces_held_funds_on_locked_account() {
    let mut run = Run::new();
    run.process(record(TxType::Deposit, 1, 1, amt(100, 1))).unwrap();
    run.process(record(TxType::Deposit, 1, 2, amt(40, 1))).unwrap();
    run.process(record(TxType::Dispute, 1, 1, None)).unwrap();
    run.process(record(TxType::Dispute, 1, 2, None)).unwrap();
    assert_eq!(run.balances(1), ("0.0".to_string(), "14.0".to_string(), "14.0".to_string(), false));
    run.process(record(TxType::Chargeback, 1, 1, None)).unwrap();
    assert_eq!(run.balances(1), ("0.0".to_string(), "4.0".to_string(), "4.0".to_string(), true));
    // The frozen account refuses a resolve...
    assert_eq!(run.process(record(TxType::Resolve, 1, 2, None)), Err(TxError::AccountLocked));
    // ...but the second chargeback still goes through.
    run.process(record(TxType::Chargeback, 1, 2, None)).unwrap();
    assert_eq!(run.balances(1), ("0.0".to_string(), "0.0".to_string(), "0.0".to_string(), true));
}

#[test]
fn totals_balance_after_every_operation() {
    let mut run = Run::new();
    run.process(record(TxType::Deposit, 11, 1, amt(123456, 4))).unwrap();
    run.process(record(TxType::Withdrawal, 11, 2, amt(23456, 4))).unwrap();
    run.process(record(TxType::Deposit, 11, 3, amt(1, 2))).unwrap();
    run.process(record(TxType::Dispute, 11, 3, None)).unwrap();
    let (available, held, total, locked) = run.balances(11);
    assert_eq!(available, "10.0");
    assert_eq!(held, "0.01");
    assert_eq!(total, "10.01");
    assert!(!locked);
}
