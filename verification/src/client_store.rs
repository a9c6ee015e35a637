//! The registry that owns every account ledger, keyed by client id.
//!
//! Ledgers are created lazily on first reference and kept in ascending order
//! of client id, so the final account listing is deterministic. Each record
//! is routed to its client's ledger; a rejected record is reported to the
//! caller and never aborts the batch.

use vstd::prelude::*;
use crate::account::{Account, AccountView, Statement, apply_tx};
use crate::errors::TxEngineErrors;
use crate::transaction::Transaction;

verus! {

/// An account identifier: unique key naming one client's ledger.
pub type ClientId = u16;

/// One client's slot in the registry.
struct ClientEntry {
    client_id: ClientId,
    account: Account,
}

/// The registry: every ledger ever referenced, in ascending client id order.
pub struct ClientCache {
    store: Vec<ClientEntry>,
}

spec fn contains_client(s: Seq<ClientEntry>, cid: ClientId) -> bool {
    exists|i: int| 0 <= i < s.len() && s[i].client_id == cid
}

spec fn client_idx(s: Seq<ClientEntry>, cid: ClientId) -> int {
    choose|i: int| 0 <= i < s.len() && s[i].client_id == cid
}

spec fn entries_sorted(s: Seq<ClientEntry>) -> bool {
    forall|i: int, j: int| 0 <= i < j < s.len() ==> s[i].client_id < s[j].client_id
}

/// With strictly ascending ids, the entry found at any index is the one
/// `client_idx` names.
proof fn lemma_client_idx_unique(s: Seq<ClientEntry>, cid: ClientId, i: int)
    requires
        entries_sorted(s),
        0 <= i < s.len(),
        s[i].client_id == cid,
    ensures
        contains_client(s, cid),
        client_idx(s, cid) == i,
{
    assert(contains_client(s, cid));
    let j = client_idx(s, cid);
    assert(0 <= j < s.len() && s[j].client_id == cid);
    if i < j {
        assert(s[i].client_id < s[j].client_id);
    } else if j < i {
        assert(s[j].client_id < s[i].client_id);
    }
}

impl View for ClientCache {
    type V = Map<ClientId, AccountView>;

    closed spec fn view(&self) -> Map<ClientId, AccountView> {
        Map::new(
            |cid: ClientId| contains_client(self.store@, cid),
            |cid: ClientId| self.store@[client_idx(self.store@, cid)].account@,
        )
    }
}

/// The account state a record will act on: the client's stored ledger, or a
/// fresh one created on first reference.
pub open spec fn ledger_or_new(m: Map<ClientId, AccountView>, cid: ClientId) -> AccountView {
    if m.contains_key(cid) {
        m[cid]
    } else {
        AccountView::initial()
    }
}

impl ClientCache {
    /// The registry invariant: entries strictly ascending by client id
    /// (hence one ledger per client), every ledger well-formed.
    pub closed spec fn wf(&self) -> bool {
        &&& entries_sorted(self.store@)
        &&& forall|i: int|
            0 <= i < self.store@.len() ==> (#[trigger] self.store@[i]).account@.wf()
    }

    /// An empty registry.
    pub fn new() -> (c: ClientCache)
        ensures
            c@ == Map::<ClientId, AccountView>::empty(),
            c.wf(),
    {
        let c = ClientCache { store: Vec::new() };
        proof {
            assert(c@ =~= Map::<ClientId, AccountView>::empty());
        }
        c
    }

    /// Where the given client stands: its index if present, else the position
    /// where its entry would keep the order.
    fn locate(&self, cid: ClientId) -> (r: (usize, bool))
        requires
            self.wf(),
        ensures
            r.1 ==> r.0 < self.store@.len() && self.store@[r.0 as int].client_id == cid,
            !r.1 ==> r.0 <= self.store@.len(),
            !r.1 ==> !contains_client(self.store@, cid),
            !r.1 ==> forall|k: int| 0 <= k < r.0 ==> self.store@[k].client_id < cid,
            !r.1 ==> forall|k: int|
                r.0 <= k < self.store@.len() ==> self.store@[k].client_id > cid,
    {
        let n = self.store.len();
        let mut i: usize = 0;
        while i < n
            invariant
                self.wf(),
                n == self.store@.len(),
                0 <= i <= n,
                forall|k: int| 0 <= k < i ==> self.store@[k].client_id < cid,
            decreases n - i,
        {
            let c = self.store[i].client_id;
            if c == cid {
                return (i, true);
            }
            if c > cid {
                proof {
                    assert forall|k: int| i <= k < n implies self.store@[k].client_id
                        > cid by {
                        if k > i {
                            assert(self.store@[i as int].client_id < self.store@[k].client_id);
                        }
                    }
                    if contains_client(self.store@, cid) {
                        let w = client_idx(self.store@, cid);
                        assert(0 <= w < n && self.store@[w].client_id == cid);
                    }
                }
                return (i, false);
            }
            i = i + 1;
        }
        proof {
            if contains_client(self.store@, cid) {
                let w = client_idx(self.store@, cid);
                assert(0 <= w < n && self.store@[w].client_id == cid);
            }
        }
        (n, false)
    }

    /// Whether routing the record to the given client keeps every balance of
    /// the target ledger in machine range; a fresh ledger always can.
    pub fn can_apply(&self, client_id: ClientId, input_data: Transaction) -> (r: bool)
        requires
            self.wf(),
        ensures
            r == ledger_or_new(self@, client_id).apply_fits(input_data),
    {
        let (pos, found) = self.locate(client_id);
        if found {
            proof {
                lemma_client_idx_unique(self.store@, client_id, pos as int);
            }
            self.store[pos].account.can_apply(input_data)
        } else {
            proof {
                crate::account::lemma_initial_fits(input_data);
            }
            true
        }
    }

    /// Routes one record: finds or lazily creates the client's ledger, then
    /// lets the ledger apply the record. The ledger's outcome is returned
    /// unchanged, and the registry afterwards maps the client to exactly the
    /// state that [`apply_tx`] gives — whether the record was accepted or not.
    pub fn add_transaction_to_client_account(
        &mut self,
        client_id: ClientId,
        input_data: Transaction,
    ) -> (r: Result<(), TxEngineErrors>)
        requires
            old(self).wf(),
            ledger_or_new(old(self)@, client_id).apply_fits(input_data),
        ensures
            final(self).wf(),
            final(self)@ == old(self)@.insert(
                client_id,
                apply_tx(ledger_or_new(old(self)@, client_id), input_data).0,
            ),
            r == apply_tx(ledger_or_new(old(self)@, client_id), input_data).1,
    {
        let (pos, found) = self.locate(client_id);
        if found {
            proof {
                lemma_client_idx_unique(old(self).store@, client_id, pos as int);
            }
            let entry = &mut self.store[pos];
            let r = entry.account.add_transaction(input_data);
            proof {
                let s0 = old(self).store@;
                let s1 = self.store@;
                assert(s1.len() == s0.len());
                assert(forall|k: int| 0 <= k < s1.len() && k != pos ==> s1[k] == s0[k]);
                assert(forall|k: int| 0 <= k < s1.len() ==> #[trigger] s1[k].client_id == s0[
                    k
                ].client_id);
                assert forall|k: int| 0 <= k < s1.len() implies (#[trigger] s1[k]).account@.wf() by {
                    if k != pos as int {
                        assert(s1[k] == s0[k]);
                    }
                }
                assert forall|c: ClientId| #[trigger]
                    contains_client(s1, c) == contains_client(s0, c) by {
                    if contains_client(s1, c) {
                        let w = client_idx(s1, c);
                        assert(0 <= w < s1.len() && s1[w].client_id == c);
                        assert(s0[w].client_id == c);
                        assert(contains_client(s0, c));
                    }
                    if contains_client(s0, c) {
                        let w = client_idx(s0, c);
                        assert(0 <= w < s0.len() && s0[w].client_id == c);
                        assert(s1[w].client_id == c);
                        assert(contains_client(s1, c));
                    }
                }
                assert(entries_sorted(s1));
                assert forall|c: ClientId|
                    contains_client(s0, c) && c != client_id implies self@[c] == old(self)@[
                    c
                ] by {
                    let w = client_idx(s0, c);
                    assert(0 <= w < s0.len() && s0[w].client_id == c);
                    lemma_client_idx_unique(s1, c, w);
                    assert(w != pos as int);
                    assert(s1[w].account == s0[w].account);
                }
                lemma_client_idx_unique(s1, client_id, pos as int);
                assert(final(self)@ =~= old(self)@.insert(
                    client_id,
                    apply_tx(ledger_or_new(old(self)@, client_id), input_data).0,
                ));
            }
            r
        } else {
            let mut account = Account::new();
            let r = account.add_transaction(input_data);
            let ghost av = account@;
            self.store.insert(pos, ClientEntry { client_id, account });
            proof {
                let s0 = old(self).store@;
                let s1 = self.store@;
                assert(s1.len() == s0.len() + 1);
                assert(s1[pos as int].client_id == client_id);
                assert(s1[pos as int].account@ == av);
                assert(forall|k: int| 0 <= k < pos ==> s1[k] == s0[k]);
                assert(forall|k: int| pos < k < s1.len() ==> s1[k] == s0[k - 1]);
                assert(entries_sorted(s1)) by {
                    assert forall|i: int, j: int|
                        0 <= i < j < s1.len() implies s1[i].client_id < s1[j].client_id by {
                        if i < pos as int && j == pos as int {
                            assert(s1[i] == s0[i]);
                        } else if i == pos as int && j > pos as int {
                            assert(s1[j] == s0[j - 1]);
                        } else if i < pos as int && j > pos as int {
                            assert(s1[i] == s0[i]);
                            assert(s1[j] == s0[j - 1]);
                        }
                    }
                }
                assert forall|k: int| 0 <= k < s1.len() implies (#[trigger] s1[k]).account@.wf() by {
                    if k < pos as int {
                        assert(s1[k] == s0[k]);
                    } else if k > pos as int {
                        assert(s1[k] == s0[k - 1]);
                    }
                }
                lemma_client_idx_unique(s1, client_id, pos as int);
                assert forall|c: ClientId|
                    contains_client(s0, c) && c != client_id implies contains_client(s1, c)
                    && self@[c] == old(self)@[c] by {
                    let w = client_idx(s0, c);
                    assert(0 <= w < s0.len() && s0[w].client_id == c);
                    if w < pos as int {
                        lemma_client_idx_unique(s1, c, w);
                        assert(s1[w].account == s0[w].account);
                    } else {
                        assert(s1[w + 1] == s0[w]);
                        lemma_client_idx_unique(s1, c, w + 1);
                    }
                }
                assert forall|c: ClientId| #[trigger]
                    contains_client(s1, c) implies (c == client_id || contains_client(
                    s0,
                    c,
                )) by {
                    let w = client_idx(s1, c);
                    assert(0 <= w < s1.len() && s1[w].client_id == c);
                    if w < pos as int {
                        assert(s0[w].client_id == c);
                        assert(contains_client(s0, c));
                    } else if w > pos as int {
                        assert(s0[w - 1].client_id == c);
                        assert(contains_client(s0, c));
                    }
                }
                assert(final(self)@ =~= old(self)@.insert(
                    client_id,
                    apply_tx(ledger_or_new(old(self)@, client_id), input_data).0,
                ));
            }
            r
        }
    }

    /// The statement of the given client's ledger, or [`TxEngineErrors::AccountNotFound`]
    /// for a client that was never referenced.
    pub fn get_client_account_statement(&self, client_id: ClientId) -> (r: Result<
        Statement,
        TxEngineErrors,
    >)
        requires
            self.wf(),
        ensures
            self@.contains_key(client_id) ==> r == Ok::<Statement, TxEngineErrors>(
                self@[client_id].spec_statement(),
            ),
            !self@.contains_key(client_id) ==> r == Err::<Statement, TxEngineErrors>(
                TxEngineErrors::AccountNotFound,
            ),
    {
        let (pos, found) = self.locate(client_id);
        if found {
            proof {
                lemma_client_idx_unique(self.store@, client_id, pos as int);
            }
            self.store[pos].account.get_statement()
        } else {
            Err(TxEngineErrors::AccountNotFound)
        }
    }

    /// Every client ever referenced, in ascending id order.
    pub fn get_clients_list(&self) -> (r: Result<Vec<ClientId>, TxEngineErrors>)
        requires
            self.wf(),
        ensures
            r matches Ok(ids) && (forall|i: int, j: int|
                0 <= i < j < ids@.len() ==> ids@[i] < ids@[j]) && (forall|cid: ClientId|
                ids@.contains(cid) <==> self@.contains_key(cid)),
    {
        let n = self.store.len();
        let mut ids: Vec<ClientId> = Vec::new();
        let mut i: usize = 0;
        while i < n
            invariant
                self.wf(),
                n == self.store@.len(),
                0 <= i <= n,
                ids@.len() == i,
                forall|k: int| 0 <= k < i ==> ids@[k] == self.store@[k].client_id,
            decreases n - i,
        {
            ids.push(self.store[i].client_id);
            i = i + 1;
        }
        proof {
            assert forall|cid: ClientId|
                ids@.contains(cid) <==> contains_client(self.store@, cid) by {
                if ids@.contains(cid) {
                    let w = choose|w: int| 0 <= w < ids@.len() && ids@[w] == cid;
                    assert(self.store@[w].client_id == cid);
                    assert(contains_client(self.store@, cid));
                }
                if contains_client(self.store@, cid) {
                    let w = client_idx(self.store@, cid);
                    assert(0 <= w < self.store@.len() && self.store@[w].client_id == cid);
                    assert(ids@[w] == cid);
                    assert(ids@.contains(cid));
                }
            }
        }
        Ok(ids)
    }
}

} // verus!
