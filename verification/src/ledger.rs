//! Transactions, their lifecycle, and their storage.
//!
//! Only deposits and withdrawals are stored and referenceable; the
//! control records (dispute, resolve, chargeback) transition a stored
//! transaction through `Normal -> Disputed -> Normal | ChargedBack`.
//! Policy choices, made explicit: a resolved transaction returns to
//! `Normal` and may be disputed again; a withdrawal can never be
//! disputed; `ChargedBack` is terminal.

use vstd::prelude::*;

verus! {

use std::collections::HashMap;
use crate::amount::Amount;
use crate::errors::TxError;

broadcast use vstd::std_specs::hash::group_hash_axioms;

/// The kind of a record.
#[derive(Clone, Copy, Debug, PartialEq, Eq, Structural)]
pub enum TxType {
    Chargeback,
    Resolve,
    Dispute,
    Withdrawal,
    Deposit,
}

/// The lifecycle state of a stored transaction.
#[derive(Clone, Copy, Debug, PartialEq, Eq, Structural)]
pub enum TxState {
    Normal,
    Disputed,
    ChargedBack,
}

/// A stored, referenceable transaction: a deposit or a withdrawal,
/// with its lifecycle state.
#[derive(Clone, Copy, Debug, PartialEq, Eq, Structural)]
pub struct Tx {
    pub tx_type: TxType,
    pub client_id: u16,
    pub id: u32,
    pub amount: Amount,
    pub state: TxState,
}

/// The lifecycle step for a dispute: only a deposit at rest may be
/// disputed; a disputed transaction cannot be disputed again.
pub open spec fn dispute_step(t: Tx) -> Result<Tx, TxError> {
    match t.state {
        TxState::Normal => if t.tx_type == TxType::Deposit {
            Ok(Tx { state: TxState::Disputed, ..t })
        } else {
            Err(TxError::UndisputableTransaction)
        },
        TxState::Disputed => Err(TxError::UndisputableTransaction),
        TxState::ChargedBack => Err(TxError::ChargedBackTransaction),
    }
}

/// The lifecycle step for a resolve: only a disputed transaction can
/// be resolved, and it returns to `Normal`.
pub open spec fn resolve_step(t: Tx) -> Result<Tx, TxError> {
    match t.state {
        TxState::Normal => Err(TxError::UnresolvableTransaction),
        TxState::Disputed => Ok(Tx { state: TxState::Normal, ..t }),
        TxState::ChargedBack => Err(TxError::ChargedBackTransaction),
    }
}

/// The lifecycle step for a chargeback: only a disputed transaction
/// can be charged back, and the state is terminal.
pub open spec fn chargeback_step(t: Tx) -> Result<Tx, TxError> {
    match t.state {
        TxState::Normal => Err(TxError::IrreversibleTransaction),
        TxState::Disputed => Ok(Tx { state: TxState::ChargedBack, ..t }),
        TxState::ChargedBack => Err(TxError::ChargedBackTransaction),
    }
}

/// A withdrawal can never be disputed, and a transaction already
/// under dispute cannot be disputed a second time.
pub proof fn lemma_dispute_restrictions(t: Tx)
    requires
        t.wf(),
    ensures
        t.tx_type == TxType::Withdrawal ==> dispute_step(t) == Err::<Tx, TxError>(
            TxError::UndisputableTransaction,
        ),
        t.state == TxState::Disputed ==> dispute_step(t) == Err::<Tx, TxError>(
            TxError::UndisputableTransaction,
        ),
{
}

impl Tx {
    /// The amount is admissible, the kind is a storable one, and a
    /// transaction that ever left `Normal` is a deposit.
    pub open spec fn wf(self) -> bool {
        &&& self.amount.wf()
        &&& (self.tx_type == TxType::Deposit || self.tx_type == TxType::Withdrawal)
        &&& (self.state != TxState::Normal ==> self.tx_type == TxType::Deposit)
    }

    /// A freshly created transaction, in state `Normal`.
    pub fn create(tx_type: TxType, client_id: u16, id: u32, amount: Amount) -> (t: Tx)
        requires
            tx_type == TxType::Deposit || tx_type == TxType::Withdrawal,
            amount.wf(),
        ensures
            t == (Tx { tx_type, client_id, id, amount, state: TxState::Normal }),
            t.wf(),
    {
        Tx { tx_type, client_id, id, amount, state: TxState::Normal }
    }

    /// Disputes this transaction.
    pub fn dispute(self) -> (r: Result<Tx, TxError>)
        requires
            self.wf(),
        ensures
            r == dispute_step(self),
            r matches Ok(t) ==> t.wf(),
    {
        match self.state {
            TxState::Normal => {
                if self.tx_type == TxType::Deposit {
                    Ok(Tx { state: TxState::Disputed, ..self })
                } else {
                    Err(TxError::UndisputableTransaction)
                }
            },
            TxState::Disputed => Err(TxError::UndisputableTransaction),
            TxState::ChargedBack => Err(TxError::ChargedBackTransaction),
        }
    }

    /// Resolves the dispute on this transaction.
    pub fn resolve(self) -> (r: Result<Tx, TxError>)
        requires
            self.wf(),
        ensures
            r == resolve_step(self),
            r matches Ok(t) ==> t.wf(),
    {
        match self.state {
            TxState::Normal => Err(TxError::UnresolvableTransaction),
            TxState::Disputed => Ok(Tx { state: TxState::Normal, ..self }),
            TxState::ChargedBack => Err(TxError::ChargedBackTransaction),
        }
    }

    /// Charges back this transaction.
    pub fn chargeback(self) -> (r: Result<Tx, TxError>)
        requires
            self.wf(),
        ensures
            r == chargeback_step(self),
            r matches Ok(t) ==> t.wf(),
    {
        match self.state {
            TxState::Normal => Err(TxError::IrreversibleTransaction),
            TxState::Disputed => Ok(Tx { state: TxState::ChargedBack, ..self }),
            TxState::ChargedBack => Err(TxError::ChargedBackTransaction),
        }
    }
}

/// Storage for transactions: maps a transaction id to the stored
/// transaction. Nothing is ever removed.
pub struct Ledger {
    pub table: HashMap<u32, Tx>,
}

impl Ledger {
    /// The stored transactions, as a map.
    pub open spec fn txs(self) -> Map<u32, Tx> {
        self.table@
    }

    /// Every stored transaction is well formed and filed under its
    /// own id.
    pub open spec fn wf(self) -> bool {
        forall|id: u32| #[trigger]
            self.txs().contains_key(id) ==> self.txs()[id].wf() && self.txs()[id].id == id
    }

    /// An empty ledger.
    pub fn new() -> (l: Ledger)
        ensures
            l.wf(),
            l.txs() == Map::<u32, Tx>::empty(),
    {
        Ledger { table: HashMap::new() }
    }

    /// Looks a transaction up by id.
    pub fn get_transaction_by_id(&self, tx_id: u32) -> (r: Option<Tx>)
        ensures
            r == if self.txs().contains_key(tx_id) {
                Some(self.txs()[tx_id])
            } else {
                None::<Tx>
            },
    {
        match self.table.get(&tx_id) {
            Some(t) => Some(*t),
            None => None,
        }
    }

    /// Stores a new transaction; an id collision is an error, never an
    /// overwrite.
    pub fn insert_transaction(&mut self, t: Tx) -> (r: Result<(), TxError>)
        requires
            old(self).wf(),
            t.wf(),
        ensures
            final(self).wf(),
            match r {
                Ok(()) => !old(self).txs().contains_key(t.id) && final(self).txs() == old(
                    self,
                ).txs().insert(t.id, t),
                Err(e) => e == TxError::DuplicateTransactionId && old(self).txs().contains_key(
                    t.id,
                ) && *final(self) == *old(self),
            },
    {
        if self.table.contains_key(&t.id) {
            Err(TxError::DuplicateTransactionId)
        } else {
            self.table.insert(t.id, t);
            Ok(())
        }
    }

    /// Files the transaction under its id, inserting or replacing; used by
    /// the dispatcher to commit a lifecycle transition.
    pub(crate) fn update_transaction(&mut self, t: Tx)
        requires
            old(self).wf(),
            t.wf(),
        ensures
            final(self).wf(),
            final(self).txs() == old(self).txs().insert(t.id, t),
    {
        self.table.insert(t.id, t);
    }
}

impl Default for Ledger {
    /// An empty ledger.
    fn default() -> (l: Ledger)
        ensures
            l.wf(),
            l.txs() == Map::<u32, Tx>::empty(),
    {
        Ledger::new()
    }
}

} // verus!
