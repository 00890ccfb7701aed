use vstd::prelude::*;

use std::collections::BTreeMap;

use crate::clock::{fresh_server_id, now_unix_nanos};
use crate::protocol::{ClientboundUpdate, ServerboundUpdate, Upstream};
use crate::records::{ClientData, Expense, Metadata};
use crate::stats::CachedStats;

verus! {

broadcast use {vstd::std_specs::btree::group_btree_axioms, vstd::laws_cmp::group_laws_cmp};

/// The stored expenses after the confirmations in `msgs`, by identifier.
pub open spec fn buffered_after(b: Map<u128, Expense>, msgs: Seq<ClientboundUpdate>) -> Map<u128, Expense>
    decreases msgs.len(),
{
    if msgs.len() == 0 {
        b
    } else {
        let b0 = buffered_after(b, msgs.drop_last());
        match msgs.last() {
            ClientboundUpdate::NewSpending { expense, .. } => b0.insert(expense.server.uid, expense),
            _ => b0,
        }
    }
}

/// The revocations of the stored expenses among `ids`, in order, each
/// reported once, and the store that remains.
pub open spec fn revocations(b: Map<u128, Expense>, ids: Seq<u128>) -> (Seq<ClientboundUpdate>, Map<u128, Expense>)
    decreases ids.len(),
{
    if ids.len() == 0 {
        (Seq::empty(), b)
    } else {
        let (out, b0) = revocations(b, ids.drop_last());
        let id = ids.last();
        if b0.contains_key(id) {
            (out.push(ClientboundUpdate::Revoked { expense: b0[id] }), b0.remove(id))
        } else {
            (out, b0)
        }
    }
}

/// `msg` confirms the local draft `c` submitted under `alias`.
pub open spec fn confirms(msg: ClientboundUpdate, c: ClientData, alias: u128) -> bool {
    msg matches ClientboundUpdate::NewSpending { expense, temp_alias } && expense.client == c
        && temp_alias == alias && expense.server.principal is None
}

/// An in-memory authority that confirms every submission at the next sync.
pub struct PseudoUpstream {
    uncommitted_expenses: Vec<(ClientData, u128)>,
    uncommitted_revokes: Vec<u128>,
    buffer_expenses: BTreeMap<u128, Expense>,
}

impl PseudoUpstream {
    pub closed spec fn pending_expenses(&self) -> Seq<(ClientData, u128)> {
        self.uncommitted_expenses@
    }

    pub closed spec fn pending_revokes(&self) -> Seq<u128> {
        self.uncommitted_revokes@
    }

    pub closed spec fn stored(&self) -> Map<u128, Expense> {
        self.buffer_expenses@
    }

    pub fn new() -> (r: Self)
        ensures
            r.pending_expenses().len() == 0,
            r.pending_revokes().len() == 0,
            r.stored() == Map::<u128, Expense>::empty(),
    {
        PseudoUpstream {
            uncommitted_expenses: Vec::new(),
            uncommitted_revokes: Vec::new(),
            buffer_expenses: BTreeMap::new(),
        }
    }

    /// Queues a submission for the next sync.
    pub fn enqueue(&mut self, d: ServerboundUpdate)
        ensures
            final(self).stored() == old(self).stored(),
            match d {
                ServerboundUpdate::Revoked { expense_id } => {
                    &&& final(self).pending_revokes() == old(self).pending_revokes().push(expense_id)
                    &&& final(self).pending_expenses() == old(self).pending_expenses()
                },
                ServerboundUpdate::MadeExpense { info, temp_alias } => {
                    &&& final(self).pending_expenses() == old(self).pending_expenses().push((info, temp_alias))
                    &&& final(self).pending_revokes() == old(self).pending_revokes()
                },
            },
    {
        match d {
            ServerboundUpdate::Revoked { expense_id } => {
                self.uncommitted_revokes.push(expense_id);
            },
            ServerboundUpdate::MadeExpense { info, temp_alias } => {
                self.uncommitted_expenses.push((info, temp_alias));
            },
        }
    }

    /// Confirms every queued draft, in order, with a new identifier and the
    /// current time, then reports the revocation of each queued identifier
    /// that names a stored expense.
    pub fn deliver(&mut self) -> (r: Vec<ClientboundUpdate>)
        ensures
            ({
                let n = old(self).pending_expenses().len();
                let confirmed = r@.take(n as int);
                let (revoked, rest) = revocations(
                    buffered_after(old(self).stored(), confirmed),
                    old(self).pending_revokes(),
                );
                &&& n <= r@.len()
                &&& forall|i: int| 0 <= i < n ==> confirms(
                    #[trigger] r@[i],
                    old(self).pending_expenses()[i].0,
                    old(self).pending_expenses()[i].1,
                )
                &&& r@.skip(n as int) == revoked
                &&& final(self).stored() == rest
                &&& final(self).pending_expenses().len() == 0
                &&& final(self).pending_revokes().len() == 0
            }),
    {
        let ghost old_stored = self.buffer_expenses@;
        let mut v: Vec<ClientboundUpdate> = Vec::new();
        let mut i: usize = 0;
        while i < self.uncommitted_expenses.len()
            invariant
                i <= self.uncommitted_expenses.len(),
                self.uncommitted_expenses@ == old(self).uncommitted_expenses@,
                self.uncommitted_revokes@ == old(self).uncommitted_revokes@,
                v@.len() == i,
                forall|j: int| 0 <= j < i ==> confirms(
                    #[trigger] v@[j],
                    old(self).uncommitted_expenses@[j].0,
                    old(self).uncommitted_expenses@[j].1,
                ),
                self.buffer_expenses@ == buffered_after(old_stored, v@),
            decreases self.uncommitted_expenses.len() - i,
        {
            let client = self.uncommitted_expenses[i].0.clone();
            let temp_alias = self.uncommitted_expenses[i].1;
            let server = Metadata { uid: fresh_server_id(), time: now_unix_nanos(), principal: None };
            let uid = server.uid;
            let expense = Expense { server, client };
            self.buffer_expenses.insert(uid, expense.clone());
            let ghost before = v@;
            v.push(ClientboundUpdate::NewSpending { expense, temp_alias });
            assert(v@.drop_last() =~= before);
            i += 1;
        }
        let ghost confirmed = v@;
        let ghost n = i as int;
        let mut k: usize = 0;
        while k < self.uncommitted_revokes.len()
            invariant
                k <= self.uncommitted_revokes.len(),
                self.uncommitted_expenses@ == old(self).uncommitted_expenses@,
                self.uncommitted_revokes@ == old(self).uncommitted_revokes@,
                n == self.uncommitted_expenses@.len(),
                v@.take(n) == confirmed,
                confirmed.len() == n,
                n <= v@.len(),
                forall|j: int| 0 <= j < n ==> confirms(
                    #[trigger] confirmed[j],
                    old(self).uncommitted_expenses@[j].0,
                    old(self).uncommitted_expenses@[j].1,
                ),
                ({
                    let (revoked, rest) = revocations(
                        buffered_after(old_stored, confirmed),
                        self.uncommitted_revokes@.take(k as int),
                    );
                    v@.skip(n) == revoked && self.buffer_expenses@ == rest
                }),
            decreases self.uncommitted_revokes.len() - k,
        {
            let id = self.uncommitted_revokes[k];
            proof {
                assert(self.uncommitted_revokes@.take(k + 1).drop_last() =~= self.uncommitted_revokes@.take(k as int));
            }
            let ghost before = v@;
            match self.buffer_expenses.remove(&id) {
                Some(expense) => {
                    v.push(ClientboundUpdate::Revoked { expense });
                    assert(v@.skip(n) =~= before.skip(n).push(v@.last()));
                    assert(v@.take(n) =~= before.take(n));
                },
                None => {},
            }
            k += 1;
        }
        assert(self.uncommitted_revokes@.take(k as int) =~= self.uncommitted_revokes@);
        assert forall|j: int| 0 <= j < n implies confirms(
            #[trigger] v@[j],
            old(self).uncommitted_expenses@[j].0,
            old(self).uncommitted_expenses@[j].1,
        ) by {
            assert(v@.take(n)[j] == v@[j]);
            assert(confirmed[j] == v@[j]);
        }
        self.uncommitted_expenses = Vec::new();
        self.uncommitted_revokes = Vec::new();
        v
    }
}

impl Default for PseudoUpstream {
    fn default() -> (r: Self)
        ensures
            r.pending_expenses().len() == 0,
            r.pending_revokes().len() == 0,
            r.stored() == Map::<u128, Expense>::empty(),
    {
        Self::new()
    }
}

impl Upstream for PseudoUpstream {
    fn submit(&mut self, d: ServerboundUpdate) {
        self.enqueue(d);
    }

    fn sync(&mut self) -> Vec<ClientboundUpdate> {
        self.deliver()
    }

    fn take_init(&mut self) -> Option<(CachedStats, CachedStats, Vec<Expense>)> {
        Some((CachedStats::empty(), CachedStats::empty(), Vec::new()))
    }
}

} // verus!
