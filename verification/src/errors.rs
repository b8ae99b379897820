//! The failure modes a single record can run into.

use vstd::prelude::*;

verus! {

/// Why processing one record failed. Every error is local to the record
/// that raised it; the stream as a whole is never halted by one of these.
#[derive(Clone, Copy, Debug, PartialEq, Eq, Structural)]
pub enum TxError {
    /// The account is frozen and refuses the operation.
    AccountLocked,
    /// The available funds do not cover the requested movement.
    InsufficientFunds,
    /// A deposit or withdrawal reused the id of a stored transaction.
    DuplicateTransactionId,
    /// A dispute, resolve or chargeback referenced an id that is not
    /// stored, or a transaction owned by a different client.
    UnknownTransactionReference,
    /// The referenced transaction cannot be disputed (it is a
    /// withdrawal, or it is already under dispute).
    UndisputableTransaction,
    /// The referenced transaction is not under dispute, so it cannot be
    /// resolved.
    UnresolvableTransaction,
    /// The referenced transaction is not under dispute, so it cannot be
    /// charged back.
    IrreversibleTransaction,
    /// The referenced transaction was charged back; no further action
    /// on it is accepted.
    ChargedBackTransaction,
    /// The record is malformed: a deposit or withdrawal without a
    /// usable amount.
    MalformedRecord,
    /// The exact result of the operation does not fit the fixed-point
    /// range (96-bit mantissa, at most 28 fractional digits).
    AmountOutOfRange,
}

} // verus!
