use payments::accounts::Client;
use payments::amount::Amount;

#[test]
fn decline_overdraft_attempt() {
    let mut c = Client::new(123);
    c.available = Amount::new(1, 0).unwrap();
    let op = c.withdrawal(Amount::new(100, 0).unwrap());
    assert!(op.is_err());
}

#[test]
fn decline_withdrawal_from_frozen_account() {
    let mut c = Client::new(123);
    c.available = Amount::new(1, 0).unwrap();
    c.locked = true;
    let op = c.withdrawal(Amount::new(1, 1).unwrap());
    assert!(op.is_err());
}

#[test]
fn correct_decimal_formatting() {
    let mut c = Client::new(123);
    c.available = Amount::new(12322344, 5).unwrap();
    assert_eq!(c.available.to_report_text(), "123.2234");
    c.available = Amount::new(12322344, 0).unwrap();
    assert_eq!(c.available.to_report_text(), "12322344.0");
    c.available = Amount::new(1440000000, 7).unwrap();
    assert_eq!(c.available.to_report_text(), "144.0");
    c.available = Amount::new(1440200000, 7).unwrap();
    assert_eq!(c.available.to_report_text(), "144.02");
    c.available = Amount::new(1440020000, 7).unwrap();
    assert_eq!(c.available.to_report_text(), "144.002");
    c.available = Amount::new(1440002001, 7).unwrap();
    assert_eq!(c.available.to_report_text(), "144.0002");
}

#[test]
fn correct_floating_point_operations() {
    let mut c = Client::new(123);
    c.deposit(Amount::new(123223412341243344, 14).unwrap()).ok();
    c.deposit(Amount::new(123223777700000007, 16).unwrap()).ok();
    assert_eq!(c.available.to_report_text(), "1244.5565");
}

#[test]
fn freeze_account() {
    let mut c = Client::new(123);
    c.freeze();
    assert!(c.locked);
}

#[test]
fn zero_balance_prints_one_fraction_digit() {
    let c = Client::new(7);
    assert_eq!(c.available.to_report_text(), "0.0");
    assert_eq!(c.held.to_report_text(), "0.0");
}

#[test]
fn bankers_rounding_ties_go_to_even() {
    assert_eq!(Amount::new(5, 5).unwrap().to_report_text(), "0.0000");
    assert_eq!(Amount::new(15, 5).unwrap().to_report_text(), "0.0002");
    assert_eq!(Amount::new(100005, 5).unwrap().to_report_text(), "1.0000");
    assert_eq!(Amount::new(100015, 5).unwrap().to_report_text(), "1.0002");
    assert_eq!(Amount::new(123456, 5).unwrap().to_report_text(), "1.2346");
}

#[test]
fn small_fraction_is_zero_padded() {
    assert_eq!(Amount::new(5, 3).unwrap().to_report_text(), "0.005");
    assert_eq!(Amount::new(5, 28).unwrap().to_report_text(), "0.0000");
}

#[test]
fn hold_moves_funds_and_keeps_total() {
    let mut c = Client::new(9);
    c.deposit(Amount::new(100, 1).unwrap()).unwrap();
    c.hold(Amount::new(45, 1).unwrap()).unwrap();
    assert_eq!(c.available.to_report_text(), "5.5");
    assert_eq!(c.held.to_report_text(), "4.5");
    assert_eq!(c.calculate_total().to_report_text(), "10.0");
}

#[test]
fn resolve_returns_held_funds() {
    let mut c = Client::new(9);
    c.deposit(Amount::new(100, 1).unwrap()).unwrap();
    c.hold(Amount::new(45, 1).unwrap()).unwrap();
    c.resolve(Amount::new(45, 1).unwrap()).unwrap();
    assert_eq!(c.available.to_report_text(), "10.0");
    assert_eq!(c.held.to_report_text(), "0.0");
}

#[test]
fn chargeback_removes_held_funds_and_freezes() {
    let mut c = Client::new(9);
    c.deposit(Amount::new(100, 1).unwrap()).unwrap();
    c.hold(Amount::new(45, 1).unwrap()).unwrap();
    c.chargeback(Amount::new(45, 1).unwrap()).unwrap();
    assert_eq!(c.available.to_report_text(), "5.5");
    assert_eq!(c.held.to_report_text(), "0.0");
    assert!(c.locked);
}

#[test]
fn exact_addition_across_scales() {
    let a = Amount::new(1, 0).unwrap();
    let b = Amount::new(1, 28).unwrap();
    let sum = a.checked_add(b).unwrap();
    assert_eq!(sum.mantissa, 10000000000000000000000000001u128);
    assert_eq!(sum.scale, 28);
}

#[test]
fn unrepresentable_sum_is_refused_not_rounded() {
    // Both operands are near the mantissa bound and their exact sum
    // ends in a non-zero digit, so no admitted representation exists.
    let a = Amount::new(79228162514264337593543950333, 0).unwrap();
    let sum = a.checked_add(a);
    assert!(sum.is_none());
    let mut c = Client::new(1);
    c.deposit(a).unwrap();
    let r = c.deposit(a);
    assert_eq!(r, Err(payments::errors::TxError::AmountOutOfRange));
    assert_eq!(c.available, a);
}
