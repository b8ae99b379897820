//! Client accounts and their storage.
//!
//! A client's balance is split into available and held funds, both
//! non-negative exact decimals. Every operation fails fast and leaves
//! the balances untouched on error. A locked account refuses deposits,
//! withdrawals, holds and resolves; the chargeback that causes the
//! freeze is the one exception.

use vstd::prelude::*;

verus! {

use std::collections::HashMap;
use crate::amount::{Amount, representable};
use crate::errors::TxError;
use crate::render::report_chars;

broadcast use vstd::std_specs::hash::group_hash_axioms;

/// A single client's account.
#[derive(Clone, Copy, Debug)]
pub struct Client {
    pub id: u16,
    pub locked: bool,
    pub available: Amount,
    pub held: Amount,
}

/// The account a fresh client starts with: zero balances, unlocked.
pub open spec fn client_new_spec(id: u16) -> Client {
    Client { id, locked: false, available: Amount { mantissa: 0, scale: 0 }, held: Amount {
        mantissa: 0,
        scale: 0,
    } }
}

/// What a deposit does: on success the amount joins the available
/// funds; a locked account refuses, and a result beyond the
/// fixed-point range is refused rather than rounded.
pub open spec fn deposit_post(c0: Client, x: Amount, c1: Client, r: Result<(), TxError>) -> bool {
    &&& c1.id == c0.id
    &&& c1.locked == c0.locked
    &&& c1.held == c0.held
    &&& match r {
        Ok(()) => {
            &&& !c0.locked
            &&& representable(c0.available.val() + x.val())
            &&& representable(c0.available.val() + x.val() + c0.held.val())
            &&& c1.available.wf()
            &&& c1.available.val() == c0.available.val() + x.val()
        },
        Err(e) => {
            &&& c1 == c0
            &&& if c0.locked {
                e == TxError::AccountLocked
            } else {
                &&& e == TxError::AmountOutOfRange
                &&& !(representable(c0.available.val() + x.val()) && representable(
                    c0.available.val() + x.val() + c0.held.val(),
                ))
            }
        },
    }
}

/// What a withdrawal does: on success the amount leaves the available
/// funds, which must cover it.
pub open spec fn withdraw_post(c0: Client, x: Amount, c1: Client, r: Result<(), TxError>) -> bool {
    &&& c1.id == c0.id
    &&& c1.locked == c0.locked
    &&& c1.held == c0.held
    &&& match r {
        Ok(()) => {
            &&& !c0.locked
            &&& c0.available.val() >= x.val()
            &&& representable((c0.available.val() - x.val()) as nat)
            &&& representable(((c0.available.val() - x.val()) as nat + c0.held.val()) as nat)
            &&& c1.available.wf()
            &&& c1.available.val() == c0.available.val() - x.val()
        },
        Err(e) => {
            &&& c1 == c0
            &&& if c0.locked {
                e == TxError::AccountLocked
            } else if c0.available.val() < x.val() {
                e == TxError::InsufficientFunds
            } else {
                &&& e == TxError::AmountOutOfRange
                &&& !(representable((c0.available.val() - x.val()) as nat) && representable(
                    ((c0.available.val() - x.val()) as nat + c0.held.val()) as nat,
                ))
            }
        },
    }
}

/// What accepting a dispute does to the account: the amount moves from
/// available to held, leaving the total untouched.
pub open spec fn hold_post(c0: Client, x: Amount, c1: Client, r: Result<(), TxError>) -> bool {
    &&& c1.id == c0.id
    &&& c1.locked == c0.locked
    &&& match r {
        Ok(()) => {
            &&& !c0.locked
            &&& c0.available.val() >= x.val()
            &&& representable((c0.available.val() - x.val()) as nat)
            &&& representable(c0.held.val() + x.val())
            &&& c1.available.wf()
            &&& c1.held.wf()
            &&& c1.available.val() == c0.available.val() - x.val()
            &&& c1.held.val() == c0.held.val() + x.val()
        },
        Err(e) => {
            &&& c1 == c0
            &&& if c0.locked {
                e == TxError::AccountLocked
            } else if c0.available.val() < x.val() {
                e == TxError::InsufficientFunds
            } else {
                &&& e == TxError::AmountOutOfRange
                &&& !(representable((c0.available.val() - x.val()) as nat) && representable(
                    c0.held.val() + x.val(),
                ))
            }
        },
    }
}

/// What resolving a dispute does to the account: the amount moves back
/// from held to available, leaving the total untouched.
pub open spec fn resolve_post(c0: Client, x: Amount, c1: Client, r: Result<(), TxError>) -> bool {
    &&& c1.id == c0.id
    &&& c1.locked == c0.locked
    &&& match r {
        Ok(()) => {
            &&& !c0.locked
            &&& c0.held.val() >= x.val()
            &&& representable((c0.held.val() - x.val()) as nat)
            &&& representable(c0.available.val() + x.val())
            &&& c1.available.wf()
            &&& c1.held.wf()
            &&& c1.available.val() == c0.available.val() + x.val()
            &&& c1.held.val() == c0.held.val() - x.val()
        },
        Err(e) => {
            &&& c1 == c0
            &&& if c0.locked {
                e == TxError::AccountLocked
            } else if c0.held.val() < x.val() {
                e == TxError::InsufficientFunds
            } else {
                &&& e == TxError::AmountOutOfRange
                &&& !(representable((c0.held.val() - x.val()) as nat) && representable(
                    c0.available.val() + x.val(),
                ))
            }
        },
    }
}

/// What a chargeback does to the account: the held amount is removed
/// for good and the account freezes in the same step. The lock is not
/// consulted — the chargeback is what causes it.
pub open spec fn chargeback_post(c0: Client, x: Amount, c1: Client, r: Result<(), TxError>) -> bool {
    &&& c1.id == c0.id
    &&& match r {
        Ok(()) => {
            &&& c0.held.val() >= x.val()
            &&& representable((c0.held.val() - x.val()) as nat)
            &&& representable((c0.available.val() + (c0.held.val() - x.val())) as nat)
            &&& c1.held.wf()
            &&& c1.held.val() == c0.held.val() - x.val()
            &&& c1.available == c0.available
            &&& c1.locked == true
        },
        Err(e) => {
            &&& c1 == c0
            &&& if c0.held.val() < x.val() {
                e == TxError::InsufficientFunds
            } else {
                &&& e == TxError::AmountOutOfRange
                &&& !(representable((c0.held.val() - x.val()) as nat) && representable(
                    (c0.available.val() + (c0.held.val() - x.val())) as nat,
                ))
            }
        },
    }
}

impl Client {
    /// Balances are admissible and their total fits the fixed-point
    /// range, so that it can always be reported exactly.
    pub open spec fn wf(self) -> bool {
        &&& self.available.wf()
        &&& self.held.wf()
        &&& representable(self.available.val() + self.held.val())
    }

    /// A fresh account: zero balances, unlocked.
    pub fn new(id: u16) -> (c: Client)
        ensures
            c == client_new_spec(id),
            c.wf(),
    {
        proof {
            crate::amount::lemma_pow10_pos(28);
            assert(crate::amount::is_rep(0, 0, 0));
        }
        Client { id, locked: false, available: Amount::zero(), held: Amount::zero() }
    }

    /// Freezes the account; never reversed.
    pub fn freeze(&mut self)
        ensures
            *final(self) == (Client { locked: true, ..*old(self) }),
    {
        self.locked = true;
    }

    /// Adds the amount to the available funds.
    pub fn deposit(&mut self, amount: Amount) -> (r: Result<(), TxError>)
        requires
            old(self).wf(),
            amount.wf(),
        ensures
            final(self).wf(),
            deposit_post(*old(self), amount, *final(self), r),
    {
        if self.locked {
            return Err(TxError::AccountLocked);
        }
        match self.available.checked_add(amount) {
            None => Err(TxError::AmountOutOfRange),
            Some(na) => {
                match na.checked_add(self.held) {
                    None => Err(TxError::AmountOutOfRange),
                    Some(total) => {
                        proof {
                            na.lemma_val_representable();
                            total.lemma_val_representable();
                        }
                        self.available = na;
                        Ok(())
                    },
                }
            },
        }
    }

    /// Removes the amount from the available funds, which must cover
    /// it.
    pub fn withdrawal(&mut self, amount: Amount) -> (r: Result<(), TxError>)
        requires
            old(self).wf(),
            amount.wf(),
        ensures
            final(self).wf(),
            withdraw_post(*old(self), amount, *final(self), r),
    {
        if self.locked {
            return Err(TxError::AccountLocked);
        }
        if !self.available.ge(amount) {
            return Err(TxError::InsufficientFunds);
        }
        match self.available.checked_sub(amount) {
            None => Err(TxError::AmountOutOfRange),
            Some(na) => {
                match na.checked_add(self.held) {
                    None => Err(TxError::AmountOutOfRange),
                    Some(total) => {
                        proof {
                            na.lemma_val_representable();
                            total.lemma_val_representable();
                        }
                        self.available = na;
                        Ok(())
                    },
                }
            },
        }
    }

    /// Moves the amount from available to held, pending the dispute's
    /// outcome.
    pub fn hold(&mut self, amount: Amount) -> (r: Result<(), TxError>)
        requires
            old(self).wf(),
            amount.wf(),
        ensures
            final(self).wf(),
            hold_post(*old(self), amount, *final(self), r),
    {
        if self.locked {
            return Err(TxError::AccountLocked);
        }
        if !self.available.ge(amount) {
            return Err(TxError::InsufficientFunds);
        }
        match self.available.checked_sub(amount) {
            None => Err(TxError::AmountOutOfRange),
            Some(na) => {
                match self.held.checked_add(amount) {
                    None => Err(TxError::AmountOutOfRange),
                    Some(nh) => {
                        proof {
                            na.lemma_val_representable();
                            nh.lemma_val_representable();
                        }
                        self.available = na;
                        self.held = nh;
                        Ok(())
                    },
                }
            },
        }
    }

    /// Moves the amount back from held to available, reversing a hold.
    pub fn resolve(&mut self, amount: Amount) -> (r: Result<(), TxError>)
        requires
            old(self).wf(),
            amount.wf(),
        ensures
            final(self).wf(),
            resolve_post(*old(self), amount, *final(self), r),
    {
        if self.locked {
            return Err(TxError::AccountLocked);
        }
        if !self.held.ge(amount) {
            return Err(TxError::InsufficientFunds);
        }
        match self.held.checked_sub(amount) {
            None => Err(TxError::AmountOutOfRange),
            Some(nh) => {
                match self.available.checked_add(amount) {
                    None => Err(TxError::AmountOutOfRange),
                    Some(na) => {
                        proof {
                            na.lemma_val_representable();
                            nh.lemma_val_representable();
                        }
                        self.available = na;
                        self.held = nh;
                        Ok(())
                    },
                }
            },
        }
    }

    /// Removes the amount from held funds and freezes the account in
    /// the same step.
    pub fn chargeback(&mut self, amount: Amount) -> (r: Result<(), TxError>)
        requires
            old(self).wf(),
            amount.wf(),
        ensures
            final(self).wf(),
            chargeback_post(*old(self), amount, *final(self), r),
    {
        if !self.held.ge(amount) {
            return Err(TxError::InsufficientFunds);
        }
        match self.held.checked_sub(amount) {
            None => Err(TxError::AmountOutOfRange),
            Some(nh) => {
                match self.available.checked_add(nh) {
                    None => Err(TxError::AmountOutOfRange),
                    Some(total) => {
                        proof {
                            nh.lemma_val_representable();
                            total.lemma_val_representable();
                        }
                        self.held = nh;
                        self.locked = true;
                        Ok(())
                    },
                }
            },
        }
    }

    /// The total funds owned: available plus held. Always derivable,
    /// never stored.
    pub fn calculate_total(&self) -> (t: Amount)
        requires
            self.wf(),
        ensures
            t.wf(),
            t.val() == self.available.val() + self.held.val(),
    {
        match self.held.checked_add(self.available) {
            Some(t) => t,
            None => {
                // The account invariant keeps the total representable.
                proof {
                    assert(false);
                }
                Amount::zero()
            },
        }
    }
}

/// The balance invariant: available and held funds are non-negative
/// values of the fixed-point range, and their exact sum — the total —
/// is itself representable, so it can always be reported.
pub proof fn lemma_balances_invariant(c: Client)
    requires
        c.wf(),
    ensures
        c.available.val() >= 0,
        c.held.val() >= 0,
        representable(c.available.val() + c.held.val()),
{
}

/// The account the store holds for `id`, or the fresh one it would
/// lazily create.
pub open spec fn client_or_new(m: Map<u16, Client>, id: u16) -> Client {
    if m.contains_key(id) {
        m[id]
    } else {
        client_new_spec(id)
    }
}

/// Storage for client accounts: maps a client id to the account, and
/// keeps the ids in ascending order for deterministic reporting.
pub struct Accounts {
    pub table: HashMap<u16, Client>,
    pub ids: Vec<u16>,
}

impl Accounts {
    /// The stored accounts, as a map.
    pub open spec fn accounts(self) -> Map<u16, Client> {
        self.table@
    }

    /// The id index is strictly ascending and carries exactly the
    /// stored ids; every account is well formed and filed under its
    /// own id.
    pub open spec fn wf(self) -> bool {
        &&& forall|i: int, j: int|
            0 <= i < j < self.ids@.len() ==> self.ids@[i] < self.ids@[j]
        &&& forall|c: u16|
            #![trigger self.table@.contains_key(c)]
            #![trigger self.ids@.contains(c)]
            self.table@.contains_key(c) <==> self.ids@.contains(c)
        &&& forall|c: u16| #[trigger]
            self.table@.contains_key(c) ==> self.table@[c].wf() && self.table@[c].id == c
    }

    /// An empty store.
    pub fn new() -> (a: Accounts)
        ensures
            a.wf(),
            a.accounts() == Map::<u16, Client>::empty(),
    {
        Accounts { table: HashMap::new(), ids: Vec::new() }
    }

    /// Creates the zero-balance account for an unseen client id; a
    /// known id is left alone.
    fn ensure_client(&mut self, id: u16)
        requires
            old(self).wf(),
        ensures
            final(self).wf(),
            final(self).accounts() == if old(self).accounts().contains_key(id) {
                old(self).accounts()
            } else {
                old(self).accounts().insert(id, client_new_spec(id))
            },
            final(self).accounts().contains_key(id),
    {
        if self.table.contains_key(&id) {
            return ;
        }
        let mut i: usize = 0;
        while i < self.ids.len() && self.ids[i] < id
            invariant
                i <= self.ids@.len(),
                forall|k: int| 0 <= k < i ==> self.ids@[k] < id,
            decreases self.ids@.len() - i,
        {
            i = i + 1;
        }
        proof {
            assert(!self.ids@.contains(id));
            assert(forall|k: int| i <= k < self.ids@.len() ==> id < self.ids@[k]) by {
                assert forall|k: int| i <= k < self.ids@.len() implies id < self.ids@[k] by {
                    if k == i {
                        assert(self.ids@[k] != id);
                    } else {
                        assert(self.ids@[i as int] < self.ids@[k]);
                        assert(self.ids@[i as int] >= id);
                        assert(self.ids@[i as int] != id);
                    }
                }
            }
        }
        self.ids.insert(i, id);
        self.table.insert(id, Client::new(id));
        proof {
            let ids1 = final(self).ids@;
            let ids0 = old(self).ids@;
            assert(forall|k: int| 0 <= k < ids1.len() ==> #[trigger] ids1[k] == if k < i {
                ids0[k]
            } else if k == i {
                id
            } else {
                ids0[k - 1]
            });
            assert forall|c: u16|
                final(self).table@.contains_key(c) <==> #[trigger] ids1.contains(c) by {
                if final(self).table@.contains_key(c) {
                    if c == id {
                        assert(ids1[i as int] == c);
                    } else {
                        let k = choose|k: int| 0 <= k < ids0.len() && ids0[k] == c;
                        if k < i {
                            assert(ids1[k] == c);
                        } else {
                            assert(ids1[k + 1] == c);
                        }
                    }
                }
                if ids1.contains(c) {
                    let k = choose|k: int| 0 <= k < ids1.len() && ids1[k] == c;
                    if k < i {
                        assert(ids0[k] == c);
                    } else if k == i {
                    } else {
                        assert(ids0[k - 1] == c);
                    }
                }
            }
        }
    }

    /// Deposits the amount for the client, creating the account if
    /// unseen.
    pub fn deposit(&mut self, client: u16, amount: Amount) -> (r: Result<(), TxError>)
        requires
            old(self).wf(),
            amount.wf(),
        ensures
            final(self).wf(),
            ({
                let c0 = client_or_new(old(self).accounts(), client);
                let c1 = final(self).accounts()[client];
                &&& deposit_post(c0, amount, c1, r)
                &&& final(self).accounts() == old(self).accounts().insert(client, c1)
            }),
    {
        self.ensure_client(client);
        let mut c = *self.table.get(&client).unwrap();
        let r = c.deposit(amount);
        self.table.insert(client, c);
        proof {
            lemma_insert_twice(old(self).accounts(), client, c);
        }
        r
    }

    /// Withdraws the amount for the client, creating the account if
    /// unseen.
    pub fn withdraw(&mut self, client: u16, amount: Amount) -> (r: Result<(), TxError>)
        requires
            old(self).wf(),
            amount.wf(),
        ensures
            final(self).wf(),
            ({
                let c0 = client_or_new(old(self).accounts(), client);
                let c1 = final(self).accounts()[client];
                &&& withdraw_post(c0, amount, c1, r)
                &&& final(self).accounts() == old(self).accounts().insert(client, c1)
            }),
    {
        self.ensure_client(client);
        let mut c = *self.table.get(&client).unwrap();
        let r = c.withdrawal(amount);
        self.table.insert(client, c);
        proof {
            lemma_insert_twice(old(self).accounts(), client, c);
        }
        r
    }

    /// Holds the amount for the client, creating the account if
    /// unseen.
    pub fn hold(&mut self, client: u16, amount: Amount) -> (r: Result<(), TxError>)
        requires
            old(self).wf(),
            amount.wf(),
        ensures
            final(self).wf(),
            ({
                let c0 = client_or_new(old(self).accounts(), client);
                let c1 = final(self).accounts()[client];
                &&& hold_post(c0, amount, c1, r)
                &&& final(self).accounts() == old(self).accounts().insert(client, c1)
            }),
    {
        self.ensure_client(client);
        let mut c = *self.table.get(&client).unwrap();
        let r = c.hold(amount);
        self.table.insert(client, c);
        proof {
            lemma_insert_twice(old(self).accounts(), client, c);
        }
        r
    }

    /// Releases the held amount for the client, creating the account
    /// if unseen.
    pub fn resolve(&mut self, client: u16, amount: Amount) -> (r: Result<(), TxError>)
        requires
            old(self).wf(),
            amount.wf(),
        ensures
            final(self).wf(),
            ({
                let c0 = client_or_new(old(self).accounts(), client);
                let c1 = final(self).accounts()[client];
                &&& resolve_post(c0, amount, c1, r)
                &&& final(self).accounts() == old(self).accounts().insert(client, c1)
            }),
    {
        self.ensure_client(client);
        let mut c = *self.table.get(&client).unwrap();
        let r = c.resolve(amount);
        self.table.insert(client, c);
        proof {
            lemma_insert_twice(old(self).accounts(), client, c);
        }
        r
    }

    /// Charges the held amount back for the client and freezes the
    /// account, creating it if unseen.
    pub fn chargeback(&mut self, client: u16, amount: Amount) -> (r: Result<(), TxError>)
        requires
            old(self).wf(),
            amount.wf(),
        ensures
            final(self).wf(),
            ({
                let c0 = client_or_new(old(self).accounts(), client);
                let c1 = final(self).accounts()[client];
                &&& chargeback_post(c0, amount, c1, r)
                &&& final(self).accounts() == old(self).accounts().insert(client, c1)
            }),
    {
        self.ensure_client(client);
        let mut c = *self.table.get(&client).unwrap();
        let r = c.chargeback(amount);
        self.table.insert(client, c);
        proof {
            lemma_insert_twice(old(self).accounts(), client, c);
        }
        r
    }
}

/// One reported line of the balance snapshot: the client, its
/// balances and total under the reporting rule, and the lock flag.
pub struct ReportRow {
    pub client: u16,
    pub available: String,
    pub held: String,
    pub total: String,
    pub locked: bool,
}

/// The unique well-formed amount carrying the value `v`.
pub open spec fn canonical_amount(v: nat) -> Amount {
    choose|a: Amount| a.wf() && a.val() == v
}

/// The row is the faithful rendering of the account: same client, the
/// two balances and their exact sum printed under the reporting rule,
/// and the lock flag.
pub open spec fn row_matches(row: ReportRow, id: u16, c: Client) -> bool {
    &&& row.client == id
    &&& row.available@ == report_chars(c.available.mantissa as nat, c.available.scale as nat)
    &&& row.held@ == report_chars(c.held.mantissa as nat, c.held.scale as nat)
    &&& row.total@ == {
        let t = canonical_amount(c.available.val() + c.held.val());
        report_chars(t.mantissa as nat, t.scale as nat)
    }
    &&& row.locked == c.locked
}

/// The snapshot: exactly one row per stored client, rendered from the
/// stored account, in strictly ascending client order. A sequence of
/// rows satisfying this is unique, so the report is deterministic.
pub open spec fn snapshot_spec(m: Map<u16, Client>, rows: Seq<ReportRow>) -> bool {
    &&& forall|i: int, j: int| 0 <= i < j < rows.len() ==> rows[i].client < rows[j].client
    &&& forall|i: int|
        0 <= i < rows.len() ==> m.contains_key(#[trigger] rows[i].client) && row_matches(
            rows[i],
            rows[i].client,
            m[rows[i].client],
        )
    &&& forall|c: u16| #[trigger]
        m.contains_key(c) ==> exists|i: int| 0 <= i < rows.len() && rows[i].client == c
}

/// The two rows print identically.
pub open spec fn row_eq(a: ReportRow, b: ReportRow) -> bool {
    &&& a.client == b.client
    &&& a.available@ == b.available@
    &&& a.held@ == b.held@
    &&& a.total@ == b.total@
    &&& a.locked == b.locked
}

/// The two snapshots print identically, row for row.
pub open spec fn same_rows(a: Seq<ReportRow>, b: Seq<ReportRow>) -> bool {
    &&& a.len() == b.len()
    &&& forall|i: int| 0 <= i < a.len() ==> row_eq(#[trigger] a[i], b[i])
}

/// Any two snapshots of the same accounts print the same rows in the
/// same order: the report is determined by the stored balances alone,
/// independent of the order the storage yields its entries in.
pub proof fn lemma_report_deterministic(
    m: Map<u16, Client>,
    rows1: Seq<ReportRow>,
    rows2: Seq<ReportRow>,
)
    requires
        snapshot_spec(m, rows1),
        snapshot_spec(m, rows2),
    ensures
        same_rows(rows1, rows2),
    decreases rows1.len(),
{
    if rows1.len() == 0 {
        if rows2.len() > 0 {
            let c = rows2[0].client;
            assert(m.contains_key(c));
            assert(false);
        }
    } else {
        if rows2.len() == 0 {
            let c = rows1[0].client;
            assert(m.contains_key(c));
            assert(false);
        }
        let c1 = rows1[0].client;
        let c2 = rows2[0].client;
        assert(c2 <= c1) by {
            assert(m.contains_key(c1));
            let j = choose|j: int| 0 <= j < rows2.len() && rows2[j].client == c1;
            if j > 0 {
                assert(rows2[0].client < rows2[j].client);
            }
        }
        assert(c1 <= c2) by {
            assert(m.contains_key(c2));
            let j = choose|j: int| 0 <= j < rows1.len() && rows1[j].client == c2;
            if j > 0 {
                assert(rows1[0].client < rows1[j].client);
            }
        }
        assert(c1 == c2);
        assert(row_eq(rows1[0], rows2[0]));
        let m1 = m.remove(c1);
        let t1 = rows1.subrange(1, rows1.len() as int);
        let t2 = rows2.subrange(1, rows2.len() as int);
        lemma_snapshot_tail(m, rows1);
        lemma_snapshot_tail(m, rows2);
        lemma_report_deterministic(m1, t1, t2);
        assert forall|i: int| 0 <= i < rows1.len() implies row_eq(#[trigger] rows1[i], rows2[i]) by {
            if i > 0 {
                assert(row_eq(t1[i - 1], t2[i - 1]));
            }
        }
    }
}

/// Dropping the first row of a snapshot yields a snapshot of the
/// accounts without that client.
proof fn lemma_snapshot_tail(m: Map<u16, Client>, rows: Seq<ReportRow>)
    requires
        snapshot_spec(m, rows),
        rows.len() > 0,
    ensures
        snapshot_spec(m.remove(rows[0].client), rows.subrange(1, rows.len() as int)),
{
    let c0 = rows[0].client;
    let m1 = m.remove(c0);
    let t = rows.subrange(1, rows.len() as int);
    assert forall|i: int|
        0 <= i < t.len() implies m1.contains_key(#[trigger] t[i].client) && row_matches(
        t[i],
        t[i].client,
        m1[t[i].client],
    ) by {
        assert(t[i] == rows[i + 1]);
        assert(rows[0].client < rows[i + 1].client);
        assert(m.contains_key(t[i].client));
        assert(t[i].client != c0);
    }
    assert forall|c: u16| #[trigger]
        m1.contains_key(c) implies exists|i: int| 0 <= i < t.len() && t[i].client == c by {
        assert(m.contains_key(c));
        let i = choose|i: int| 0 <= i < rows.len() && rows[i].client == c;
        assert(c != c0);
        assert(i != 0);
        assert(t[i - 1].client == c);
    }
}

impl Accounts {
    /// Renders the balance snapshot: one row per client ever seen, in
    /// ascending client order, balances and totals printed under the
    /// reporting rule.
    pub fn report_accounts_balances(&self) -> (rows: Vec<ReportRow>)
        requires
            self.wf(),
        ensures
            snapshot_spec(self.accounts(), rows@),
    {
        let mut rows: Vec<ReportRow> = Vec::new();
        let mut i: usize = 0;
        while i < self.ids.len()
            invariant
                self.wf(),
                i <= self.ids@.len(),
                rows@.len() == i,
                forall|k: int| 0 <= k < i ==> #[trigger] rows@[k].client == self.ids@[k],
                forall|k: int|
                    0 <= k < i ==> self.accounts().contains_key(#[trigger] rows@[k].client)
                        && row_matches(rows@[k], rows@[k].client, self.accounts()[rows@[k].client]),
            decreases self.ids@.len() - i,
        {
            let id = self.ids[i];
            proof {
                assert(self.ids@.contains(id));
            }
            let c = *self.table.get(&id).unwrap();
            let avail_text = c.available.to_report_text();
            let held_text = c.held.to_report_text();
            let tot = c.calculate_total();
            let total_text = tot.to_report_text();
            proof {
                let v = (c.available.val() + c.held.val()) as nat;
                assert(exists|a: Amount| a.wf() && a.val() == v) by {
                    assert(tot.wf() && tot.val() == v);
                }
                crate::amount::lemma_canonical_unique(tot, canonical_amount(v));
            }
            rows.push(
                ReportRow {
                    client: id,
                    available: avail_text,
                    held: held_text,
                    total: total_text,
                    locked: c.locked,
                },
            );
            i = i + 1;
        }
        proof {
            assert forall|c: u16| #[trigger]
                self.accounts().contains_key(c) implies exists|k: int|
                0 <= k < rows@.len() && rows@[k].client == c by {
                assert(self.ids@.contains(c));
                let k = choose|k: int| 0 <= k < self.ids@.len() && self.ids@[k] == c;
                assert(rows@[k].client == c);
            }
        }
        rows
    }
}

impl Default for Accounts {
    /// An empty store.
    fn default() -> (a: Accounts)
        ensures
            a.wf(),
            a.accounts() == Map::<u16, Client>::empty(),
    {
        Accounts::new()
    }
}

/// Inserting over a key that an earlier insert put there collapses to
/// one insert.
proof fn lemma_insert_twice(m: Map<u16, Client>, k: u16, v: Client)
    ensures
        m.insert(k, client_new_spec(k)).insert(k, v) == m.insert(k, v),
{
    assert(m.insert(k, client_new_spec(k)).insert(k, v) =~= m.insert(k, v));
}

} // verus!
