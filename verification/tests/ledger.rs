use payments::amount::Amount;
use payments::errors::TxError;
use payments::ledger::{Ledger, Tx, TxState, TxType};

fn one() -> Amount {
    Amount::new(1, 0).unwrap()
}

#[test]
fn successful_tx_ledger_crud() {
    let mut l = Ledger::new();
    let t = Tx::create(TxType::Deposit, 8, 9, one());
    let t = t.dispute().unwrap();
    l.insert_transaction(t).unwrap();
    assert!(l.table.contains_key(&t.id));
    let crud_tx = l.get_transaction_by_id(t.id).unwrap();
    assert!(crud_tx == t);
    assert!(crud_tx.state == TxState::Disputed);
}

#[test]
fn insert_to_ledger_transactions_with_different_types() {
    let mut l = Ledger::new();
    let mut t = Tx::create(TxType::Deposit, 8, 9, one());
    t.id = 11; // avoid key collision
    let t = t.dispute().unwrap();
    l.insert_transaction(t).unwrap();
    let t = Tx::create(TxType::Deposit, 8, 9, one());
    let t = t.dispute().unwrap();
    let t = t.chargeback().unwrap();
    l.insert_transaction(t).unwrap();
    assert_eq!(l.table.values().len(), 2);
}

#[test]
fn successful_resolve_after_dispute() {
    let tx = Tx::create(TxType::Deposit, 8, 9, one());
    assert!(tx.state == TxState::Normal);
    let tx = tx.dispute().unwrap();
    assert!(tx.state == TxState::Disputed);
    let tx = tx.resolve().unwrap();
    assert!(tx.state == TxState::Normal);
}

#[test]
fn successful_chargeback_after_dispute() {
    let tx = Tx::create(TxType::Deposit, 8, 9, one());
    assert!(tx.state == TxState::Normal);
    let tx = tx.dispute().unwrap();
    assert!(tx.state == TxState::Disputed);
    let tx = tx.chargeback().unwrap();
    assert!(tx.state == TxState::ChargedBack);
}

#[should_panic]
#[test]
fn failed_tx_ledger_crud() {
    let l = Ledger::new();
    l.get_transaction_by_id(888).unwrap();
}

#[test]
fn withdrawal_is_never_disputable() {
    let tx = Tx::create(TxType::Withdrawal, 8, 9, one());
    assert_eq!(tx.dispute(), Err(TxError::UndisputableTransaction));
}

#[test]
fn second_dispute_while_disputed_fails() {
    let tx = Tx::create(TxType::Deposit, 8, 9, one());
    let tx = tx.dispute().unwrap();
    assert_eq!(tx.dispute(), Err(TxError::UndisputableTransaction));
}

#[test]
fn resolve_requires_a_dispute() {
    let tx = Tx::create(TxType::Deposit, 8, 9, one());
    assert_eq!(tx.resolve(), Err(TxError::UnresolvableTransaction));
}

#[test]
fn chargeback_requires_a_dispute() {
    let tx = Tx::create(TxType::Deposit, 8, 9, one());
    assert_eq!(tx.chargeback(), Err(TxError::IrreversibleTransaction));
}

#[test]
fn charged_back_is_terminal() {
    let tx = Tx::create(TxType::Deposit, 8, 9, one());
    let tx = tx.dispute().unwrap();
    let tx = tx.chargeback().unwrap();
    assert_eq!(tx.dispute(), Err(TxError::ChargedBackTransaction));
    assert_eq!(tx.resolve(), Err(TxError::ChargedBackTransaction));
    assert_eq!(tx.chargeback(), Err(TxError::ChargedBackTransaction));
}

#[test]
fn redispute_after_resolve_is_allowed() {
    let tx = Tx::create(TxType::Deposit, 8, 9, one());
    let tx = tx.dispute().unwrap();
    let tx = tx.resolve().unwrap();
    let tx = tx.dispute().unwrap();
    assert!(tx.state == TxState::Disputed);
}

#[test]
fn duplicate_insert_is_rejected() {
    let mut l = Ledger::new();
    let t = Tx::create(TxType::Deposit, 8, 9, one());
    l.insert_transaction(t).unwrap();
    let t2 = Tx::create(TxType::Deposit, 1, 9, one());
    assert_eq!(l.insert_transaction(t2), Err(TxError::DuplicateTransactionId));
    assert!(l.get_transaction_by_id(9).unwrap() == t);
}
