//! The dispatcher: validates each incoming record against the ledger
//! and routes it to the account store.
//!
//! Policy choices, made explicit:
//! - a dispute is atomic: the account hold comes first, and the
//!   lifecycle transition is committed only when the hold succeeded —
//!   a failed hold leaves the transaction in `Normal`;
//! - likewise a resolve or chargeback is committed to the ledger only
//!   when the account movement succeeded;
//! - a control record whose client id differs from the referenced
//!   transaction's owner fails with `UnknownTransactionReference` and
//!   changes nothing.

use vstd::prelude::*;

verus! {

use crate::accounts::{
    Accounts,
    Client,
    client_or_new,
    deposit_post,
    withdraw_post,
    hold_post,
    resolve_post,
    chargeback_post,
};
use crate::amount::Amount;
use crate::errors::TxError;
use crate::ledger::{
    Ledger,
    Tx,
    TxState,
    TxType,
    dispute_step,
    resolve_step,
    chargeback_step,
};

/// One incoming record, as the decoder hands it over. Control records
/// carry no amount of their own; one supplied anyway is ignored.
#[derive(Clone, Copy, Debug)]
pub struct Record {
    pub tx_type: TxType,
    pub client_id: u16,
    pub id: u32,
    pub amount: Option<Amount>,
}

impl Record {
    /// An amount, where present, is admissible.
    pub open spec fn wf(self) -> bool {
        match self.amount {
            Some(a) => a.wf(),
            None => true,
        }
    }
}

/// Neither store changed.
pub open spec fn stores_unchanged(
    l0: Map<u32, Tx>,
    a0: Map<u16, Client>,
    l1: Map<u32, Tx>,
    a1: Map<u16, Client>,
) -> bool {
    l1 == l0 && a1 == a0
}

/// Outcome of a deposit or withdrawal record whose id is unseen: the
/// account moves first, and only a successful movement is recorded in
/// the ledger, as a fresh transaction in state `Normal`.
pub open spec fn movable_record_post(
    rec: Record,
    l0: Map<u32, Tx>,
    a0: Map<u16, Client>,
    l1: Map<u32, Tx>,
    a1: Map<u16, Client>,
    r: Result<(), TxError>,
) -> bool {
    match rec.amount {
        None => r == Err::<(), TxError>(TxError::MalformedRecord) && stores_unchanged(
            l0,
            a0,
            l1,
            a1,
        ),
        Some(x) => {
            let c0 = client_or_new(a0, rec.client_id);
            let c1 = a1[rec.client_id];
            &&& a1 == a0.insert(rec.client_id, c1)
            &&& if rec.tx_type == TxType::Deposit {
                deposit_post(c0, x, c1, r)
            } else {
                withdraw_post(c0, x, c1, r)
            }
            &&& (r matches Ok(_) ==> l1 == l0.insert(
                rec.id,
                Tx {
                    tx_type: rec.tx_type,
                    client_id: rec.client_id,
                    id: rec.id,
                    amount: x,
                    state: TxState::Normal,
                },
            ))
            &&& (r matches Err(_) ==> l1 == l0)
        },
    }
}

/// Outcome of a dispute record referencing the stored transaction `t`.
pub open spec fn dispute_record_post(
    rec: Record,
    t: Tx,
    l0: Map<u32, Tx>,
    a0: Map<u16, Client>,
    l1: Map<u32, Tx>,
    a1: Map<u16, Client>,
    r: Result<(), TxError>,
) -> bool {
    if rec.client_id != t.client_id {
        r == Err::<(), TxError>(TxError::UnknownTransactionReference) && stores_unchanged(
            l0,
            a0,
            l1,
            a1,
        )
    } else {
        match dispute_step(t) {
            Err(e) => r == Err::<(), TxError>(e) && stores_unchanged(l0, a0, l1, a1),
            Ok(t2) => {
                let c0 = client_or_new(a0, t.client_id);
                let c1 = a1[t.client_id];
                &&& a1 == a0.insert(t.client_id, c1)
                &&& hold_post(c0, t.amount, c1, r)
                &&& (r matches Ok(_) ==> l1 == l0.insert(rec.id, t2))
                &&& (r matches Err(_) ==> l1 == l0)
            },
        }
    }
}

/// Outcome of a resolve record referencing the stored transaction `t`.
pub open spec fn resolve_record_post(
    rec: Record,
    t: Tx,
    l0: Map<u32, Tx>,
    a0: Map<u16, Client>,
    l1: Map<u32, Tx>,
    a1: Map<u16, Client>,
    r: Result<(), TxError>,
) -> bool {
    if rec.client_id != t.client_id {
        r == Err::<(), TxError>(TxError::UnknownTransactionReference) && stores_unchanged(
            l0,
            a0,
            l1,
            a1,
        )
    } else {
        match resolve_step(t) {
            Err(e) => r == Err::<(), TxError>(e) && stores_unchanged(l0, a0, l1, a1),
            Ok(t2) => {
                let c0 = client_or_new(a0, t.client_id);
                let c1 = a1[t.client_id];
                &&& a1 == a0.insert(t.client_id, c1)
                &&& resolve_post(c0, t.amount, c1, r)
                &&& (r matches Ok(_) ==> l1 == l0.insert(rec.id, t2))
                &&& (r matches Err(_) ==> l1 == l0)
            },
        }
    }
}

/// Outcome of a chargeback record referencing the stored transaction
/// `t`.
pub open spec fn chargeback_record_post(
    rec: Record,
    t: Tx,
    l0: Map<u32, Tx>,
    a0: Map<u16, Client>,
    l1: Map<u32, Tx>,
    a1: Map<u16, Client>,
    r: Result<(), TxError>,
) -> bool {
    if rec.client_id != t.client_id {
        r == Err::<(), TxError>(TxError::UnknownTransactionReference) && stores_unchanged(
            l0,
            a0,
            l1,
            a1,
        )
    } else {
        match chargeback_step(t) {
            Err(e) => r == Err::<(), TxError>(e) && stores_unchanged(l0, a0, l1, a1),
            Ok(t2) => {
                let c0 = client_or_new(a0, t.client_id);
                let c1 = a1[t.client_id];
                &&& a1 == a0.insert(t.client_id, c1)
                &&& chargeback_post(c0, t.amount, c1, r)
                &&& (r matches Ok(_) ==> l1 == l0.insert(rec.id, t2))
                &&& (r matches Err(_) ==> l1 == l0)
            },
        }
    }
}

/// What processing one record does: the full dispatch table. A stored
/// id makes any further deposit or withdrawal under it a duplicate; a
/// control record referencing an unseen id is an unknown reference;
/// everything else routes to the lifecycle and the account store.
pub open spec fn process_post(
    rec: Record,
    l0: Map<u32, Tx>,
    a0: Map<u16, Client>,
    l1: Map<u32, Tx>,
    a1: Map<u16, Client>,
    r: Result<(), TxError>,
) -> bool {
    if l0.contains_key(rec.id) {
        let t = l0[rec.id];
        match rec.tx_type {
            TxType::Deposit | TxType::Withdrawal => r == Err::<(), TxError>(
                TxError::DuplicateTransactionId,
            ) && stores_unchanged(l0, a0, l1, a1),
            TxType::Dispute => dispute_record_post(rec, t, l0, a0, l1, a1, r),
            TxType::Resolve => resolve_record_post(rec, t, l0, a0, l1, a1, r),
            TxType::Chargeback => chargeback_record_post(rec, t, l0, a0, l1, a1, r),
        }
    } else {
        match rec.tx_type {
            TxType::Deposit | TxType::Withdrawal => movable_record_post(rec, l0, a0, l1, a1, r),
            TxType::Dispute | TxType::Resolve | TxType::Chargeback => r == Err::<(), TxError>(
                TxError::UnknownTransactionReference,
            ) && stores_unchanged(l0, a0, l1, a1),
        }
    }
}

/// Once an account is frozen it stays frozen and its available funds
/// never move again; no deposit, withdrawal, hold or resolve on it
/// succeeds. Only a chargeback record can still touch it, reducing
/// its held funds as part of the freeze semantics.
pub proof fn lemma_locked_account_protected(
    rec: Record,
    l0: Map<u32, Tx>,
    a0: Map<u16, Client>,
    l1: Map<u32, Tx>,
    a1: Map<u16, Client>,
    r: Result<(), TxError>,
    c: u16,
)
    requires
        process_post(rec, l0, a0, l1, a1, r),
        a0.contains_key(c),
        a0[c].locked,
    ensures
        a1.contains_key(c),
        a1[c].locked,
        a1[c].available == a0[c].available,
        rec.tx_type != TxType::Chargeback ==> a1[c] == a0[c],
{
}

/// A resolve or chargeback that references a transaction not under
/// dispute — or no stored transaction at all — fails and leaves both
/// the ledger and every balance exactly as they were.
pub proof fn lemma_undisputed_reference_rejected(
    rec: Record,
    l0: Map<u32, Tx>,
    a0: Map<u16, Client>,
    l1: Map<u32, Tx>,
    a1: Map<u16, Client>,
    r: Result<(), TxError>,
)
    requires
        process_post(rec, l0, a0, l1, a1, r),
        rec.tx_type == TxType::Resolve || rec.tx_type == TxType::Chargeback,
        l0.contains_key(rec.id) ==> l0[rec.id].state != TxState::Disputed,
    ensures
        r matches Err(_),
        stores_unchanged(l0, a0, l1, a1),
{
}

/// A deposit or withdrawal that reuses a stored transaction id fails
/// with `DuplicateTransactionId` and affects no account and no stored
/// transaction.
pub proof fn lemma_duplicate_id_rejected(
    rec: Record,
    l0: Map<u32, Tx>,
    a0: Map<u16, Client>,
    l1: Map<u32, Tx>,
    a1: Map<u16, Client>,
    r: Result<(), TxError>,
)
    requires
        process_post(rec, l0, a0, l1, a1, r),
        rec.tx_type == TxType::Deposit || rec.tx_type == TxType::Withdrawal,
        l0.contains_key(rec.id),
    ensures
        r == Err::<(), TxError>(TxError::DuplicateTransactionId),
        stores_unchanged(l0, a0, l1, a1),
{
}

/// The dispatcher. It owns neither store; it borrows both while it
/// processes one record.
pub struct PaymentEngine {}

impl PaymentEngine {
    /// A dispatcher.
    pub fn new() -> (e: PaymentEngine) {
        PaymentEngine {  }
    }

    /// Validates one record against the ledger and applies it to the
    /// stores. A failure is local to the record: the caller reports it
    /// and goes on with the stream.
    pub fn process_transaction(
        &mut self,
        rec: Record,
        ledger: &mut Ledger,
        clients: &mut Accounts,
    ) -> (r: Result<(), TxError>)
        requires
            rec.wf(),
            old(ledger).wf(),
            old(clients).wf(),
        ensures
            final(ledger).wf(),
            final(clients).wf(),
            process_post(
                rec,
                old(ledger).txs(),
                old(clients).accounts(),
                final(ledger).txs(),
                final(clients).accounts(),
                r,
            ),
    {
        match ledger.get_transaction_by_id(rec.id) {
            Some(t) => {
                proof {
                    assert(old(ledger).txs().contains_key(rec.id));
                    assert(t.wf() && t.id == rec.id);
                }
                match rec.tx_type {
                    TxType::Deposit | TxType::Withdrawal => Err(TxError::DuplicateTransactionId),
                    TxType::Dispute => {
                        if rec.client_id != t.client_id {
                            return Err(TxError::UnknownTransactionReference);
                        }
                        match t.dispute() {
                            Err(e) => Err(e),
                            Ok(t2) => {
                                let r = clients.hold(t.client_id, t.amount);
                                if r.is_ok() {
                                    ledger.update_transaction(t2);
                                }
                                r
                            },
                        }
                    },
                    TxType::Resolve => {
                        if rec.client_id != t.client_id {
                            return Err(TxError::UnknownTransactionReference);
                        }
                        match t.resolve() {
                            Err(e) => Err(e),
                            Ok(t2) => {
                                let r = clients.resolve(t.client_id, t.amount);
                                if r.is_ok() {
                                    ledger.update_transaction(t2);
                                }
                                r
                            },
                        }
                    },
                    TxType::Chargeback => {
                        if rec.client_id != t.client_id {
                            return Err(TxError::UnknownTransactionReference);
                        }
                        match t.chargeback() {
                            Err(e) => Err(e),
                            Ok(t2) => {
                                let r = clients.chargeback(t.client_id, t.amount);
                                if r.is_ok() {
                                    ledger.update_transaction(t2);
                                }
                                r
                            },
                        }
                    },
                }
            },
            None => {
                match rec.tx_type {
                    TxType::Deposit | TxType::Withdrawal => {
                        match rec.amount {
                            None => Err(TxError::MalformedRecord),
                            Some(x) => {
                                let r = if rec.tx_type == TxType::Deposit {
                                    clients.deposit(rec.client_id, x)
                                } else {
                                    clients.withdraw(rec.client_id, x)
                                };
                                if r.is_ok() {
                                    let t = Tx::create(rec.tx_type, rec.client_id, rec.id, x);
                                    ledger.update_transaction(t);
                                }
                                r
                            },
                        }
                    },
                    TxType::Dispute | TxType::Resolve | TxType::Chargeback => Err(
                        TxError::UnknownTransactionReference,
                    ),
                }
            },
        }
    }
}

impl Default for PaymentEngine {
    /// A dispatcher.
    fn default() -> PaymentEngine {
        PaymentEngine::new()
    }
}

} // verus!
