//! The engine's laws: properties of the transition [`apply_tx`], stated over
//! every account state and record and proved once and for all.

use vstd::prelude::*;
use crate::account::{
    AccountView, StoredTx, TxStatus, apply_tx, contains_id, entry_ok, idx_of,
    lemma_apply_preserves_wf, lemma_disputed_total_nonneg, lemma_idx_of_unique,
};
use crate::errors::TxEngineErrors;
use crate::transaction::{Transaction, TxType};

verus! {

/// In every well-formed account state, the total is exactly the sum of the
/// available and the held funds — together with [`lemma_apply_preserves_wf`],
/// the equation holds at all times, with exact decimal equality.
pub proof fn lemma_balance_split(a: AccountView)
    requires
        a.wf(),
    ensures
        a.total == a.available + a.held,
{
}

/// In every well-formed account state the held balance is nonnegative: it is
/// a sum of disputed amounts, each of them nonnegative.
pub proof fn lemma_held_nonnegative(a: AccountView)
    requires
        a.wf(),
    ensures
        a.held >= 0,
{
    lemma_disputed_total_nonneg(a.history);
}

/// A successful apply never drives the available balance negative, provided
/// a successful withdrawal is covered by the available funds. A withdrawal is
/// guarded only by the total, so a withdrawal drawing between available and
/// total — possible while a dispute holds funds — is the one case left out.
pub proof fn lemma_available_nonnegative(a: AccountView, tx: Transaction)
    requires
        a.wf(),
        a.available >= 0,
        apply_tx(a, tx).1 is Ok,
        tx.tx_type is Withdraw ==> (tx.amount matches Some(amt) && amt <= a.available),
    ensures
        apply_tx(a, tx).0.available >= 0,
{
    if !a.locked && (tx.tx_type is Resolve) && contains_id(a.history, tx.tx_id) {
        let i = idx_of(a.history, tx.tx_id);
        assert(0 <= i < a.history.len() && a.history[i].tx_id == tx.tx_id);
        assert(entry_ok(a.history[i]));
    }
}

/// Replaying a deposit or withdrawal id changes funds exactly once: the
/// second application of the same record is rejected as a duplicate and
/// changes nothing at all.
pub proof fn lemma_duplicate_rejected(a: AccountView, tx: Transaction)
    requires
        a.wf(),
        tx.tx_type is Deposit || tx.tx_type is Withdraw,
        apply_tx(a, tx).1 is Ok,
    ensures
        apply_tx(apply_tx(a, tx).0, tx).1 == Err::<(), TxEngineErrors>(
            TxEngineErrors::TxExists(tx.tx_id),
        ),
        apply_tx(apply_tx(a, tx).0, tx).0 == apply_tx(a, tx).0,
{
    let a1 = apply_tx(a, tx).0;
    assert(contains_id(a1.history, tx.tx_id)) by {
        assert(a1.history[a1.history.len() - 1].tx_id == tx.tx_id);
    }
}

/// Disputing a deposit and then resolving it returns the account to the
/// exact available/held split it had right after the deposit, and the
/// resolve is owed to succeed.
pub proof fn lemma_dispute_resolve_roundtrip(
    a: AccountView,
    d: Transaction,
    q: Transaction,
    v: Transaction,
)
    requires
        a.wf(),
        d.tx_type is Deposit,
        q.tx_type is Dispute,
        q.tx_id == d.tx_id,
        v.tx_type is Resolve,
        v.tx_id == d.tx_id,
        apply_tx(a, d).1 is Ok,
        apply_tx(apply_tx(a, d).0, q).1 is Ok,
    ensures
        apply_tx(apply_tx(apply_tx(a, d).0, q).0, v).1 is Ok,
        apply_tx(apply_tx(apply_tx(a, d).0, q).0, v).0.available == apply_tx(a, d).0.available,
        apply_tx(apply_tx(apply_tx(a, d).0, q).0, v).0.held == apply_tx(a, d).0.held,
{
    let a1 = apply_tx(a, d).0;
    let a2 = apply_tx(a1, q).0;
    lemma_apply_preserves_wf(a, d);
    lemma_apply_preserves_wf(a1, q);
    if let Some(amt) = d.amount {
        let n = a.history.len() as int;
        assert(a1.history[n].tx_id == d.tx_id);
        lemma_idx_of_unique(a1.history, d.tx_id, n);
        assert(a2.history[n].tx_id == d.tx_id);
        lemma_idx_of_unique(a2.history, d.tx_id, n);
        assert(a2.history[n].status is Disputed);
    }
}

/// Disputing a deposit and then charging it back removes exactly the
/// deposited amount from the total — the total returns to its pre-deposit
/// value — and freezes the account.
pub proof fn lemma_dispute_chargeback(
    a: AccountView,
    d: Transaction,
    q: Transaction,
    c: Transaction,
)
    requires
        a.wf(),
        d.tx_type is Deposit,
        q.tx_type is Dispute,
        q.tx_id == d.tx_id,
        c.tx_type is Chargeback,
        c.tx_id == d.tx_id,
        apply_tx(a, d).1 is Ok,
        apply_tx(apply_tx(a, d).0, q).1 is Ok,
    ensures
        apply_tx(apply_tx(apply_tx(a, d).0, q).0, c).1 is Ok,
        apply_tx(apply_tx(apply_tx(a, d).0, q).0, c).0.total == a.total,
        d.amount matches Some(amt) ==> apply_tx(apply_tx(apply_tx(a, d).0, q).0, c).0.total
            == apply_tx(a, d).0.total - amt,
        apply_tx(apply_tx(apply_tx(a, d).0, q).0, c).0.locked,
{
    let a1 = apply_tx(a, d).0;
    let a2 = apply_tx(a1, q).0;
    lemma_apply_preserves_wf(a, d);
    lemma_apply_preserves_wf(a1, q);
    if let Some(amt) = d.amount {
        let n = a.history.len() as int;
        assert(a1.history[n].tx_id == d.tx_id);
        lemma_idx_of_unique(a1.history, d.tx_id, n);
        assert(a2.history[n].tx_id == d.tx_id);
        lemma_idx_of_unique(a2.history, d.tx_id, n);
        assert(a2.history[n].status is Disputed);
    }
}

/// A frozen account rejects every record, leaving every part of its state
/// unchanged.
pub proof fn lemma_locked_rejects(a: AccountView, tx: Transaction)
    requires
        a.locked,
    ensures
        apply_tx(a, tx).0 == a,
        apply_tx(a, tx).1 == Err::<(), TxEngineErrors>(TxEngineErrors::ClientAccountLocked),
{
}

} // verus!
