//! One account's ledger: balances, recorded history, and the
//! transaction-application state machine.
//!
//! The whole behaviour of [`Account::add_transaction`] is pinned down by the
//! specification function [`apply_tx`]: the executable code is proved to
//! compute exactly that transition, and the balance invariants are proved of
//! the transition itself.
//!
//! Two policies are fixed deliberately: a duplicate deposit or withdrawal id
//! is detected *before* any funds move, so a rejected duplicate never changes
//! a balance; and a resolve or chargeback closes its transaction for good, so
//! a later dispute of the same id is rejected as already disputed rather than
//! re-counted.

use vstd::prelude::*;
use crate::amount::{Amount, round_dp4, spec_round4};
use crate::errors::TxEngineErrors;
use crate::transaction::{Transaction, TxId, TxType};

verus! {

/// The dispute-protocol position of one recorded transaction: freshly
/// recorded, under dispute, or closed by a resolve or a chargeback.
#[derive(Debug, PartialEq, Eq, Structural, Clone, Copy)]
pub enum TxStatus {
    Active,
    Disputed,
    Resolved,
    ChargedBack,
}

/// One funds-moving record as the account keeps it. The original kind and
/// amount never change; only the dispute status moves.
#[derive(Debug, PartialEq, Eq, Structural, Clone, Copy)]
pub struct StoredTx {
    pub tx_id: TxId,
    pub kind: TxType,
    pub amount: Amount,
    pub status: TxStatus,
}

/// Read-only snapshot of an account's monetary state, each balance rounded
/// to four decimal places.
#[derive(Debug, PartialEq, Eq, Structural, Clone, Copy)]
pub struct Statement {
    pub total: Amount,
    pub available: Amount,
    pub held: Amount,
    pub locked: bool,
}

impl Statement {
    pub fn new(total: Amount, available: Amount, held: Amount, locked: bool) -> (s: Statement)
        ensures
            s.total == total,
            s.available == available,
            s.held == held,
            s.locked == locked,
    {
        Statement { total, available, held, locked }
    }
}

/// The mathematical state of one account: unbounded balances and the full
/// recorded history in insertion order.
#[verifier::ext_equal]
pub ghost struct AccountView {
    pub total: int,
    pub available: int,
    pub held: int,
    pub locked: bool,
    pub history: Seq<StoredTx>,
}

/// What one entry adds to the held balance: its amount while it is under
/// dispute, nothing otherwise.
pub open spec fn entry_contrib(e: StoredTx) -> int {
    if e.status is Disputed {
        e.amount as int
    } else {
        0
    }
}

/// The sum of the amounts of all entries currently under dispute.
pub open spec fn disputed_total(h: Seq<StoredTx>) -> int
    decreases h.len(),
{
    if h.len() == 0 {
        0
    } else {
        disputed_total(h.drop_last()) + entry_contrib(h.last())
    }
}

/// Some entry carries the given transaction id.
pub open spec fn contains_id(h: Seq<StoredTx>, id: TxId) -> bool {
    exists|i: int| 0 <= i < h.len() && h[i].tx_id == id
}

/// The index of the entry carrying the given id (unique when ids are unique).
pub open spec fn idx_of(h: Seq<StoredTx>, id: TxId) -> int {
    choose|i: int| 0 <= i < h.len() && h[i].tx_id == id
}

/// No two entries share a transaction id.
pub open spec fn unique_ids(h: Seq<StoredTx>) -> bool {
    forall|i: int, j: int| 0 <= i < j < h.len() ==> h[i].tx_id != h[j].tx_id
}

/// What holds of every entry the account ever records: a nonnegative amount,
/// a funds-moving kind, and no dispute status on a withdrawal.
pub open spec fn entry_ok(e: StoredTx) -> bool {
    &&& e.amount >= 0
    &&& (e.kind is Deposit || e.kind is Withdraw)
    &&& (e.kind is Withdraw ==> e.status is Active)
}

pub open spec fn entries_ok(h: Seq<StoredTx>) -> bool {
    forall|i: int| 0 <= i < h.len() ==> entry_ok(#[trigger] h[i])
}

/// A value fits the machine representation of an [`Amount`].
pub open spec fn fits_amount(v: int) -> bool {
    i64::MIN <= v <= i64::MAX
}

impl AccountView {
    /// The state a fresh account starts in: everything zero, unlocked,
    /// no history.
    pub open spec fn initial() -> AccountView {
        AccountView { total: 0, available: 0, held: 0, locked: false, history: Seq::empty() }
    }

    /// The account's structural invariant: the total is the exact sum of
    /// available and held funds, the held balance is exactly the sum of the
    /// amounts under dispute, ids are unique, and every entry is sound.
    pub open spec fn wf(self) -> bool {
        &&& self.total == self.available + self.held
        &&& self.held == disputed_total(self.history)
        &&& unique_ids(self.history)
        &&& entries_ok(self.history)
    }

    /// All three balances fit the machine representation.
    pub open spec fn fits(self) -> bool {
        &&& fits_amount(self.total)
        &&& fits_amount(self.available)
        &&& fits_amount(self.held)
    }

    /// Applying the given record keeps every balance within the machine
    /// range. This is a machine limit, not a business rule: the engine's
    /// verified code never panics, so callers must rule such overflow out
    /// (see [`Account::can_apply`]).
    pub open spec fn apply_fits(self, tx: Transaction) -> bool {
        apply_tx(self, tx).0.fits()
    }

    /// The statement snapshot of this state: balances rounded to four
    /// decimal places, ties to even.
    pub open spec fn spec_statement(self) -> Statement {
        Statement {
            total: spec_round4(self.total) as i64,
            available: spec_round4(self.available) as i64,
            held: spec_round4(self.held) as i64,
            locked: self.locked,
        }
    }
}

/// A deposit: the amount must be present and nonnegative, the id fresh; then
/// both total and available grow by the amount and the record is kept.
pub open spec fn deposit_tx(a: AccountView, tx: Transaction) -> (AccountView, Result<
    (),
    TxEngineErrors,
>) {
    match tx.amount {
        None => (a, Err(TxEngineErrors::InvalidInput)),
        Some(amt) => if amt < 0 {
            (a, Err(TxEngineErrors::InvalidInput))
        } else if contains_id(a.history, tx.tx_id) {
            (a, Err(TxEngineErrors::TxExists(tx.tx_id)))
        } else {
            (
                AccountView {
                    total: a.total + amt,
                    available: a.available + amt,
                    held: a.held,
                    locked: a.locked,
                    history: a.history.push(
                        StoredTx {
                            tx_id: tx.tx_id,
                            kind: TxType::Deposit,
                            amount: amt,
                            status: TxStatus::Active,
                        },
                    ),
                },
                Ok(()),
            )
        },
    }
}

/// A withdrawal: the amount must be present and nonnegative, the id fresh,
/// and the total must cover the amount; then both total and available shrink
/// by the amount and the record is kept.
pub open spec fn withdraw_tx(a: AccountView, tx: Transaction) -> (AccountView, Result<
    (),
    TxEngineErrors,
>) {
    match tx.amount {
        None => (a, Err(TxEngineErrors::InvalidInput)),
        Some(amt) => if amt < 0 {
            (a, Err(TxEngineErrors::InvalidInput))
        } else if contains_id(a.history, tx.tx_id) {
            (a, Err(TxEngineErrors::TxExists(tx.tx_id)))
        } else if a.total < amt {
            (a, Err(TxEngineErrors::InsufficientFunds))
        } else {
            (
                AccountView {
                    total: a.total - amt,
                    available: a.available - amt,
                    held: a.held,
                    locked: a.locked,
                    history: a.history.push(
                        StoredTx {
                            tx_id: tx.tx_id,
                            kind: TxType::Withdraw,
                            amount: amt,
                            status: TxStatus::Active,
                        },
                    ),
                },
                Ok(()),
            )
        },
    }
}

/// A dispute: the id must be recorded and not yet disputed nor closed; a
/// recorded withdrawal cannot be disputed and freezes the account
/// protectively; otherwise the disputed amount moves from available to held
/// funds, provided available covers it.
pub open spec fn dispute_tx(a: AccountView, id: TxId) -> (AccountView, Result<
    (),
    TxEngineErrors,
>) {
    if !contains_id(a.history, id) {
        (a, Err(TxEngineErrors::TxDoesNotExist(id)))
    } else {
        let i = idx_of(a.history, id);
        let e = a.history[i];
        if !(e.status is Active) {
            (a, Err(TxEngineErrors::TxAlreadyDisputed(id)))
        } else if e.kind is Withdraw {
            (
                AccountView {
                    total: a.total,
                    available: a.available,
                    held: a.held,
                    locked: true,
                    history: a.history,
                },
                Err(TxEngineErrors::WithdrawDisputeError),
            )
        } else if a.available < e.amount {
            (a, Err(TxEngineErrors::InsufficientFunds))
        } else {
            (
                AccountView {
                    total: a.total,
                    available: a.available - e.amount,
                    held: a.held + e.amount,
                    locked: a.locked,
                    history: a.history.update(
                        i,
                        StoredTx {
                            tx_id: e.tx_id,
                            kind: e.kind,
                            amount: e.amount,
                            status: TxStatus::Disputed,
                        },
                    ),
                },
                Ok(()),
            )
        }
    }
}

/// A resolve: the id must be recorded and currently under dispute; the
/// disputed amount moves back from held to available funds and the dispute
/// is closed.
pub open spec fn resolve_tx(a: AccountView, id: TxId) -> (AccountView, Result<
    (),
    TxEngineErrors,
>) {
    if !contains_id(a.history, id) {
        (a, Err(TxEngineErrors::TxDoesNotExist(id)))
    } else {
        let i = idx_of(a.history, id);
        let e = a.history[i];
        if !(e.status is Disputed) {
            (a, Err(TxEngineErrors::TxNotDisputed(id)))
        } else {
            (
                AccountView {
                    total: a.total,
                    available: a.available + e.amount,
                    held: a.held - e.amount,
                    locked: a.locked,
                    history: a.history.update(
                        i,
                        StoredTx {
                            tx_id: e.tx_id,
                            kind: e.kind,
                            amount: e.amount,
                            status: TxStatus::Resolved,
                        },
                    ),
                },
                Ok(()),
            )
        }
    }
}

/// A chargeback: the id must be recorded and currently under dispute; the
/// disputed amount leaves the account for good and the account is frozen.
pub open spec fn chargeback_tx(a: AccountView, id: TxId) -> (AccountView, Result<
    (),
    TxEngineErrors,
>) {
    if !contains_id(a.history, id) {
        (a, Err(TxEngineErrors::TxDoesNotExist(id)))
    } else {
        let i = idx_of(a.history, id);
        let e = a.history[i];
        if !(e.status is Disputed) {
            (a, Err(TxEngineErrors::TxNotDisputed(id)))
        } else {
            (
                AccountView {
                    total: a.total - e.amount,
                    available: a.available,
                    held: a.held - e.amount,
                    locked: true,
                    history: a.history.update(
                        i,
                        StoredTx {
                            tx_id: e.tx_id,
                            kind: e.kind,
                            amount: e.amount,
                            status: TxStatus::ChargedBack,
                        },
                    ),
                },
                Ok(()),
            )
        }
    }
}

/// The whole transition one record makes: a frozen account rejects
/// everything; otherwise the record's kind selects the rule.
pub open spec fn apply_tx(a: AccountView, tx: Transaction) -> (AccountView, Result<
    (),
    TxEngineErrors,
>) {
    if a.locked {
        (a, Err(TxEngineErrors::ClientAccountLocked))
    } else {
        match tx.tx_type {
            TxType::Deposit => deposit_tx(a, tx),
            TxType::Withdraw => withdraw_tx(a, tx),
            TxType::Dispute => dispute_tx(a, tx.tx_id),
            TxType::Resolve => resolve_tx(a, tx.tx_id),
            TxType::Chargeback => chargeback_tx(a, tx.tx_id),
        }
    }
}

/// Appending an entry adds exactly its contribution to the disputed sum.
pub proof fn lemma_disputed_total_push(h: Seq<StoredTx>, e: StoredTx)
    ensures
        disputed_total(h.push(e)) == disputed_total(h) + entry_contrib(e),
{
    assert(h.push(e).drop_last() =~= h);
    assert(h.push(e).last() == e);
}

/// Replacing one entry shifts the disputed sum by the difference of the two
/// contributions.
pub proof fn lemma_disputed_total_update(h: Seq<StoredTx>, i: int, e: StoredTx)
    requires
        0 <= i < h.len(),
    ensures
        disputed_total(h.update(i, e)) == disputed_total(h) - entry_contrib(h[i])
            + entry_contrib(e),
    decreases h.len(),
{
    let hu = h.update(i, e);
    if i == h.len() - 1 {
        assert(hu.drop_last() =~= h.drop_last());
        assert(hu.last() == e);
    } else {
        assert(hu.drop_last() =~= h.drop_last().update(i, e));
        assert(hu.last() == h.last());
        assert(h.drop_last()[i] == h[i]);
        lemma_disputed_total_update(h.drop_last(), i, e);
    }
}

/// With nonnegative amounts the disputed sum is nonnegative.
pub proof fn lemma_disputed_total_nonneg(h: Seq<StoredTx>)
    requires
        entries_ok(h),
    ensures
        disputed_total(h) >= 0,
    decreases h.len(),
{
    if h.len() > 0 {
        assert(forall|i: int| 0 <= i < h.len() - 1 ==> h.drop_last()[i] == h[i]);
        lemma_disputed_total_nonneg(h.drop_last());
    }
}

/// The disputed sum covers each single disputed entry.
pub proof fn lemma_disputed_total_ge_entry(h: Seq<StoredTx>, i: int)
    requires
        entries_ok(h),
        0 <= i < h.len(),
        h[i].status is Disputed,
    ensures
        disputed_total(h) >= h[i].amount,
    decreases h.len(),
{
    assert(forall|j: int| 0 <= j < h.len() - 1 ==> h.drop_last()[j] == h[j]);
    if i == h.len() - 1 {
        lemma_disputed_total_nonneg(h.drop_last());
    } else {
        lemma_disputed_total_ge_entry(h.drop_last(), i);
    }
}

/// With unique ids, the entry found at any index is the one `idx_of` names.
pub proof fn lemma_idx_of_unique(h: Seq<StoredTx>, id: TxId, i: int)
    requires
        unique_ids(h),
        0 <= i < h.len(),
        h[i].tx_id == id,
    ensures
        contains_id(h, id),
        idx_of(h, id) == i,
{
    assert(contains_id(h, id));
    let j = idx_of(h, id);
    assert(0 <= j < h.len() && h[j].tx_id == id);
    if i < j {
        assert(h[i].tx_id != h[j].tx_id);
    } else if j < i {
        assert(h[j].tx_id != h[i].tx_id);
    }
}

/// Applying any record to a well-formed account leaves a well-formed
/// account: the balance equation, the held-funds accounting, id uniqueness
/// and entry soundness all survive every rule, accepted or rejected.
pub proof fn lemma_apply_preserves_wf(a: AccountView, tx: Transaction)
    requires
        a.wf(),
    ensures
        apply_tx(a, tx).0.wf(),
{
    if a.locked {
        return ;
    }
    match tx.tx_type {
        TxType::Deposit => {
            if let Some(amt) = tx.amount {
                if amt >= 0 && !contains_id(a.history, tx.tx_id) {
                let e = StoredTx {
                    tx_id: tx.tx_id,
                    kind: TxType::Deposit,
                    amount: amt,
                    status: TxStatus::Active,
                };
                lemma_disputed_total_push(a.history, e);
                let h = a.history.push(e);
                assert(unique_ids(h)) by {
                    assert(forall|i: int| 0 <= i < a.history.len() ==> h[i] == a.history[i]);
                }
                assert(entries_ok(h)) by {
                    assert(forall|i: int| 0 <= i < a.history.len() ==> h[i] == a.history[i]);
                }
                }
            }
        },
        TxType::Withdraw => {
            if let Some(amt) = tx.amount {
                if amt >= 0 && !contains_id(a.history, tx.tx_id) && a.total >= amt {
                let e = StoredTx {
                    tx_id: tx.tx_id,
                    kind: TxType::Withdraw,
                    amount: amt,
                    status: TxStatus::Active,
                };
                lemma_disputed_total_push(a.history, e);
                let h = a.history.push(e);
                assert(unique_ids(h)) by {
                    assert(forall|i: int| 0 <= i < a.history.len() ==> h[i] == a.history[i]);
                }
                assert(entries_ok(h)) by {
                    assert(forall|i: int| 0 <= i < a.history.len() ==> h[i] == a.history[i]);
                }
                }
            }
        },
        TxType::Dispute => {
            lemma_status_change_wf(a, tx.tx_id);
        },
        TxType::Resolve => {
            lemma_status_change_wf(a, tx.tx_id);
        },
        TxType::Chargeback => {
            lemma_status_change_wf(a, tx.tx_id);
        },
    }
}

/// The dispute, resolve and chargeback rules preserve the invariant: each
/// replaces one entry's status and moves exactly that entry's amount.
proof fn lemma_status_change_wf(a: AccountView, id: TxId)
    requires
        a.wf(),
    ensures
        dispute_tx(a, id).0.wf(),
        resolve_tx(a, id).0.wf(),
        chargeback_tx(a, id).0.wf(),
{
    if contains_id(a.history, id) {
        let i = idx_of(a.history, id);
        assert(0 <= i < a.history.len() && a.history[i].tx_id == id);
        let e = a.history[i];
        assert(entry_ok(e));
        if e.status is Active && !(e.kind is Withdraw) && a.available >= e.amount {
            let e2 = StoredTx { tx_id: e.tx_id, kind: e.kind, amount: e.amount, status: TxStatus::Disputed };
            lemma_disputed_total_update(a.history, i, e2);
            let h = a.history.update(i, e2);
            assert(unique_ids(h)) by {
                assert(forall|k: int| 0 <= k < h.len() ==> h[k].tx_id == a.history[k].tx_id);
            }
            assert(entries_ok(h)) by {
                assert(forall|k: int| 0 <= k < h.len() && k != i ==> h[k] == a.history[k]);
                assert(entry_ok(e2));
            }
        }
        if e.status is Disputed {
            let e3 = StoredTx { tx_id: e.tx_id, kind: e.kind, amount: e.amount, status: TxStatus::Resolved };
            lemma_disputed_total_update(a.history, i, e3);
            let h3 = a.history.update(i, e3);
            assert(unique_ids(h3)) by {
                assert(forall|k: int| 0 <= k < h3.len() ==> h3[k].tx_id == a.history[k].tx_id);
            }
            assert(entries_ok(h3)) by {
                assert(forall|k: int| 0 <= k < h3.len() && k != i ==> h3[k] == a.history[k]);
                assert(entry_ok(e3));
            }
            let e4 = StoredTx { tx_id: e.tx_id, kind: e.kind, amount: e.amount, status: TxStatus::ChargedBack };
            lemma_disputed_total_update(a.history, i, e4);
            let h4 = a.history.update(i, e4);
            assert(unique_ids(h4)) by {
                assert(forall|k: int| 0 <= k < h4.len() ==> h4[k].tx_id == a.history[k].tx_id);
            }
            assert(entries_ok(h4)) by {
                assert(forall|k: int| 0 <= k < h4.len() && k != i ==> h4[k] == a.history[k]);
                assert(entry_ok(e4));
            }
        }
    }
}

/// One account's mutable ledger: exact balances in millionths of a unit,
/// the frozen flag, and every recorded funds-moving transaction.
#[derive(Debug)]
pub struct Account {
    total: Amount,
    available: Amount,
    held: Amount,
    locked: bool,
    history: Vec<StoredTx>,
}

impl View for Account {
    type V = AccountView;

    closed spec fn view(&self) -> AccountView {
        AccountView {
            total: self.total as int,
            available: self.available as int,
            held: self.held as int,
            locked: self.locked,
            history: self.history@,
        }
    }
}

/// Only a deposit can push a balance out of the machine range: every other
/// rule moves an amount that the fitting old balances already cover.
pub proof fn lemma_only_deposit_overflows(a: AccountView, tx: Transaction)
    requires
        a.wf(),
        a.fits(),
        !(tx.tx_type is Deposit),
    ensures
        a.apply_fits(tx),
{
    if a.locked {
        return ;
    }
    match tx.tx_type {
        TxType::Deposit => {},
        TxType::Withdraw => {
            lemma_disputed_total_nonneg(a.history);
        },
        TxType::Dispute => {
            if contains_id(a.history, tx.tx_id) {
                let i = idx_of(a.history, tx.tx_id);
                assert(0 <= i < a.history.len() && a.history[i].tx_id == tx.tx_id);
                assert(entry_ok(a.history[i]));
                lemma_disputed_total_nonneg(a.history);
            }
        },
        TxType::Resolve => {
            if contains_id(a.history, tx.tx_id) {
                let i = idx_of(a.history, tx.tx_id);
                assert(0 <= i < a.history.len() && a.history[i].tx_id == tx.tx_id);
                assert(entry_ok(a.history[i]));
                if a.history[i].status is Disputed {
                    lemma_disputed_total_ge_entry(a.history, i);
                }
            }
        },
        TxType::Chargeback => {
            if contains_id(a.history, tx.tx_id) {
                let i = idx_of(a.history, tx.tx_id);
                assert(0 <= i < a.history.len() && a.history[i].tx_id == tx.tx_id);
                assert(entry_ok(a.history[i]));
                if a.history[i].status is Disputed {
                    lemma_disputed_total_ge_entry(a.history, i);
                }
            }
        },
    }
}

/// A record applied to a fresh account never overflows: at most the record's
/// own amount, itself machine-sized, enters the balances.
pub proof fn lemma_initial_fits(tx: Transaction)
    ensures
        AccountView::initial().apply_fits(tx),
{
    let a = AccountView::initial();
    assert(a.wf());
    if !(tx.tx_type is Deposit) {
        lemma_only_deposit_overflows(a, tx);
    }
}

impl Account {
    /// A fresh account: all balances exactly zero, unlocked, empty history.
    pub fn new() -> (a: Account)
        ensures
            a@ == AccountView::initial(),
            a@.wf(),
    {
        let a = Account { total: 0, available: 0, held: 0, locked: false, history: Vec::new() };
        proof {
            assert(a@ =~= AccountView::initial());
        }
        a
    }

    /// Whether a chargeback or a withdrawal dispute has frozen the account.
    pub fn is_locked(&self) -> (r: bool)
        ensures
            r == self@.locked,
    {
        self.locked
    }

    /// The statement snapshot: every balance rounded to four decimal places,
    /// ties to the even step.
    pub fn get_statement(&self) -> (r: Result<Statement, TxEngineErrors>)
        ensures
            r == Ok::<Statement, TxEngineErrors>(self@.spec_statement()),
    {
        Ok(
            Statement {
                total: round_dp4(self.total),
                available: round_dp4(self.available),
                locked: self.locked,
                held: round_dp4(self.held),
            },
        )
    }

    /// The position of the entry recording the given id, if any.
    fn find(&self, id: TxId) -> (r: Option<usize>)
        ensures
            match r {
                Some(i) => i < self.history@.len() && self.history@[i as int].tx_id == id,
                None => !contains_id(self.history@, id),
            },
    {
        let mut i: usize = 0;
        while i < self.history.len()
            invariant
                0 <= i <= self.history@.len(),
                forall|k: int| 0 <= k < i ==> self.history@[k].tx_id != id,
            decreases self.history@.len() - i,
        {
            if self.history[i].tx_id == id {
                return Some(i);
            }
            i = i + 1;
        }
        None
    }

    /// Whether applying the record keeps every balance within the machine
    /// range of an [`Amount`]; a record the rules reject always does.
    pub fn can_apply(&self, tx: Transaction) -> (r: bool)
        requires
            self@.wf(),
        ensures
            r == self@.apply_fits(tx),
    {
        if self.locked {
            return true;
        }
        match tx.tx_type {
            TxType::Deposit => {
                match tx.amount {
                    None => true,
                    Some(amt) => {
                        if amt < 0 {
                            true
                        } else {
                            match self.find(tx.tx_id) {
                                Some(i) => {
                                    proof {
                                        assert(contains_id(self@.history, tx.tx_id)) by {
                                            assert(self.history@[i as int].tx_id == tx.tx_id);
                                        }
                                    }
                                    true
                                },
                                None => self.total.checked_add(amt).is_some()
                                    && self.available.checked_add(amt).is_some(),
                            }
                        }
                    },
                }
            },
            _ => {
                proof {
                    lemma_only_deposit_overflows(self@, tx);
                }
                true
            },
        }
    }

    /// Applies one record: the guard for a frozen account, then the rule its
    /// kind selects. The new state and the outcome are exactly what
    /// [`apply_tx`] says, and the account invariant is preserved.
    pub fn add_transaction(&mut self, tx: Transaction) -> (r: Result<(), TxEngineErrors>)
        requires
            old(self)@.wf(),
            old(self)@.apply_fits(tx),
        ensures
            final(self)@ == apply_tx(old(self)@, tx).0,
            r == apply_tx(old(self)@, tx).1,
            final(self)@.wf(),
    {
        proof {
            lemma_apply_preserves_wf(old(self)@, tx);
        }
        if self.locked {
            return Err(TxEngineErrors::ClientAccountLocked);
        }
        match tx.tx_type {
            TxType::Deposit => {
                let amt = match tx.amount {
                    None => {
                        return Err(TxEngineErrors::InvalidInput);
                    },
                    Some(amt) => amt,
                };
                if amt < 0 {
                    return Err(TxEngineErrors::InvalidInput);
                }
                match self.find(tx.tx_id) {
                    Some(i) => {
                        proof {
                            assert(contains_id(self@.history, tx.tx_id)) by {
                                assert(self.history@[i as int].tx_id == tx.tx_id);
                            }
                        }
                        Err(TxEngineErrors::TxExists(tx.tx_id))
                    },
                    None => {
                        self.total = self.total + amt;
                        self.available = self.available + amt;
                        self.history.push(
                            StoredTx {
                                tx_id: tx.tx_id,
                                kind: TxType::Deposit,
                                amount: amt,
                                status: TxStatus::Active,
                            },
                        );
                        proof {
                            assert(self@ =~= apply_tx(old(self)@, tx).0);
                        }
                        Ok(())
                    },
                }
            },
            TxType::Withdraw => {
                let amt = match tx.amount {
                    None => {
                        return Err(TxEngineErrors::InvalidInput);
                    },
                    Some(amt) => amt,
                };
                if amt < 0 {
                    return Err(TxEngineErrors::InvalidInput);
                }
                match self.find(tx.tx_id) {
                    Some(i) => {
                        proof {
                            assert(contains_id(self@.history, tx.tx_id)) by {
                                assert(self.history@[i as int].tx_id == tx.tx_id);
                            }
                        }
                        Err(TxEngineErrors::TxExists(tx.tx_id))
                    },
                    None => {
                        if self.total < amt {
                            return Err(TxEngineErrors::InsufficientFunds);
                        }
                        proof {
                            lemma_disputed_total_nonneg(old(self)@.history);
                        }
                        self.total = self.total - amt;
                        self.available = self.available - amt;
                        self.history.push(
                            StoredTx {
                                tx_id: tx.tx_id,
                                kind: TxType::Withdraw,
                                amount: amt,
                                status: TxStatus::Active,
                            },
                        );
                        proof {
                            assert(self@ =~= apply_tx(old(self)@, tx).0);
                        }
                        Ok(())
                    },
                }
            },
            TxType::Dispute => self.handle_dispute(tx.tx_id),
            TxType::Resolve => self.handle_resolve(tx.tx_id),
            TxType::Chargeback => self.handle_chargeback(tx.tx_id),
        }
    }

    /// The dispute rule of [`dispute_tx`] on this account.
    fn handle_dispute(&mut self, disputed_tx_id: TxId) -> (r: Result<(), TxEngineErrors>)
        requires
            old(self)@.wf(),
            !old(self)@.locked,
            dispute_tx(old(self)@, disputed_tx_id).0.fits(),
        ensures
            final(self)@ == dispute_tx(old(self)@, disputed_tx_id).0,
            r == dispute_tx(old(self)@, disputed_tx_id).1,
    {
        let i = match self.find(disputed_tx_id) {
            None => {
                return Err(TxEngineErrors::TxDoesNotExist(disputed_tx_id));
            },
            Some(i) => i,
        };
        proof {
            lemma_idx_of_unique(self.history@, disputed_tx_id, i as int);
        }
        let e = self.history[i];
        if e.status != TxStatus::Active {
            return Err(TxEngineErrors::TxAlreadyDisputed(disputed_tx_id));
        }
        if e.kind == TxType::Withdraw {
            self.locked = true;
            return Err(TxEngineErrors::WithdrawDisputeError);
        }
        if self.available < e.amount {
            return Err(TxEngineErrors::InsufficientFunds);
        }
        proof {
            assert(entry_ok(old(self)@.history[i as int]));
        }
        self.available = self.available - e.amount;
        self.held = self.held + e.amount;
        self.history[i] = StoredTx {
            tx_id: e.tx_id,
            kind: e.kind,
            amount: e.amount,
            status: TxStatus::Disputed,
        };
        proof {
            assert(self@ =~= dispute_tx(old(self)@, disputed_tx_id).0);
        }
        Ok(())
    }

    /// The resolve rule of [`resolve_tx`] on this account.
    fn handle_resolve(&mut self, disputed_tx_id: TxId) -> (r: Result<(), TxEngineErrors>)
        requires
            old(self)@.wf(),
            !old(self)@.locked,
            resolve_tx(old(self)@, disputed_tx_id).0.fits(),
        ensures
            final(self)@ == resolve_tx(old(self)@, disputed_tx_id).0,
            r == resolve_tx(old(self)@, disputed_tx_id).1,
    {
        let i = match self.find(disputed_tx_id) {
            None => {
                return Err(TxEngineErrors::TxDoesNotExist(disputed_tx_id));
            },
            Some(i) => i,
        };
        proof {
            lemma_idx_of_unique(self.history@, disputed_tx_id, i as int);
        }
        let e = self.history[i];
        if e.status != TxStatus::Disputed {
            return Err(TxEngineErrors::TxNotDisputed(disputed_tx_id));
        }
        proof {
            assert(entry_ok(old(self)@.history[i as int]));
            lemma_disputed_total_ge_entry(old(self)@.history, i as int);
        }
        self.held = self.held - e.amount;
        self.available = self.available + e.amount;
        self.history[i] = StoredTx {
            tx_id: e.tx_id,
            kind: e.kind,
            amount: e.amount,
            status: TxStatus::Resolved,
        };
        proof {
            assert(self@ =~= resolve_tx(old(self)@, disputed_tx_id).0);
        }
        Ok(())
    }

    /// The chargeback rule of [`chargeback_tx`] on this account.
    fn handle_chargeback(&mut self, disputed_tx_id: TxId) -> (r: Result<(), TxEngineErrors>)
        requires
            old(self)@.wf(),
            !old(self)@.locked,
            chargeback_tx(old(self)@, disputed_tx_id).0.fits(),
        ensures
            final(self)@ == chargeback_tx(old(self)@, disputed_tx_id).0,
            r == chargeback_tx(old(self)@, disputed_tx_id).1,
    {
        let i = match self.find(disputed_tx_id) {
            None => {
                return Err(TxEngineErrors::TxDoesNotExist(disputed_tx_id));
            },
            Some(i) => i,
        };
        proof {
            lemma_idx_of_unique(self.history@, disputed_tx_id, i as int);
        }
        let e = self.history[i];
        if e.status != TxStatus::Disputed {
            return Err(TxEngineErrors::TxNotDisputed(disputed_tx_id));
        }
        proof {
            assert(entry_ok(old(self)@.history[i as int]));
            lemma_disputed_total_ge_entry(old(self)@.history, i as int);
        }
        self.held = self.held - e.amount;
        self.total = self.total - e.amount;
        self.locked = true;
        self.history[i] = StoredTx {
            tx_id: e.tx_id,
            kind: e.kind,
            amount: e.amount,
            status: TxStatus::ChargedBack,
        };
        proof {
            assert(self@ =~= chargeback_tx(old(self)@, disputed_tx_id).0);
        }
        Ok(())
    }
}

} // verus!
