use vstd::prelude::*;

use crate::clock::{fresh_alias, now_unix_nanos};
use crate::protocol::{ClientboundUpdate, ServerboundUpdate, Upstream};
use crate::records::{
    ClientData, Expense, MayLoad, RecordViewKey, RecordViewValue, SortKey, category_of, key_lt,
};
use crate::stats::{CachedStats, StatsView, has_group, raw_add_spec};
use crate::store::{
    RecordMap, entries_map, lemma_entries_len, lemma_entry_value, live_entries, records_of, sorted_entries, store_get_index, store_insert, store_len,
    store_new, store_remove,
};

verus! {

/// Length of the rolling window: thirty days, in nanoseconds.
pub const MONTH_LIKE: i128 = 2_592_000_000_000_000;

/// The state of a cache: the materialized records by store key, and the
/// lifetime and rolling-window statistics.
pub struct LedgerView {
    pub records: Map<SortKey, RecordViewValue>,
    pub life: StatsView,
    pub month: StatsView,
}

pub open spec fn confirmed_key(e: Expense) -> SortKey {
    RecordViewKey::Confirmed(e.server.time, e.server.uid).spec_sort_key()
}

pub open spec fn provisional_key(alias: u128) -> SortKey {
    RecordViewKey::Provisional(alias).spec_sort_key()
}

/// Counts one more record with client data `c`.
pub open spec fn count_in(s: StatsView, c: ClientData) -> StatsView {
    raw_add_spec(s, category_of(c), c.amount as int, 1)
}

/// Takes back a record with client data `c`; a scope that never counted
/// its category has nothing to take back.
pub open spec fn take_back(s: StatsView, c: ClientData) -> StatsView {
    if has_group(s.groups, category_of(c)) {
        raw_add_spec(s, category_of(c), -(c.amount as int), -1)
    } else {
        s
    }
}

/// A draft created locally: counted at once in both scopes and held under
/// its alias.
pub open spec fn insert_spec(v: LedgerView, c: ClientData, alias: u128, now: i128) -> LedgerView {
    LedgerView {
        records: v.records.insert(provisional_key(alias), RecordViewValue::Provisional(c, now)),
        life: count_in(v.life, c),
        month: count_in(v.month, c),
    }
}

/// A confirmation: a matching draft gives way to the confirmed record and
/// nothing is counted again; otherwise the record is new and counted in the
/// lifetime scope, and in the window if its time is not before `liveline`.
pub open spec fn confirmed_spec(v: LedgerView, e: Expense, alias: u128, liveline: i128) -> LedgerView {
    let foreign = !v.records.contains_key(provisional_key(alias));
    LedgerView {
        records: v.records.remove(provisional_key(alias)).insert(
            confirmed_key(e),
            RecordViewValue::Confirmed(e),
        ),
        life: if foreign {
            count_in(v.life, e.client)
        } else {
            v.life
        },
        month: if foreign && e.server.time >= liveline {
            count_in(v.month, e.client)
        } else {
            v.month
        },
    }
}

/// A revocation: a held confirmed record leaves and is taken back from the
/// lifetime scope, and from the window if its time is not before
/// `liveline`; a record not held changes nothing.
pub open spec fn revocation_spec(v: LedgerView, e: Expense, liveline: i128) -> LedgerView {
    if !v.records.contains_key(confirmed_key(e)) {
        v
    } else {
        LedgerView {
            records: v.records.remove(confirmed_key(e)),
            life: take_back(v.life, e.client),
            month: if e.server.time >= liveline {
                take_back(v.month, e.client)
            } else {
                v.month
            },
        }
    }
}

/// One inbound message. A confirmation of an already revoked expense carries
/// nothing to count, and a snapshot is only taken at construction.
pub open spec fn update_spec(v: LedgerView, msg: ClientboundUpdate, liveline: i128) -> LedgerView {
    match msg {
        ClientboundUpdate::Revoked { expense } => revocation_spec(v, expense, liveline),
        ClientboundUpdate::NewSpending { expense, temp_alias } => {
            if expense.client.revoked {
                v
            } else {
                confirmed_spec(v, expense, temp_alias, liveline)
            }
        },
        ClientboundUpdate::InitStats { .. } => v,
    }
}

/// Inbound messages folded in delivery order.
pub open spec fn updates_spec(v: LedgerView, msgs: Seq<ClientboundUpdate>, liveline: i128) -> LedgerView
    decreases msgs.len(),
{
    if msgs.len() == 0 {
        v
    } else {
        update_spec(updates_spec(v, msgs.drop_last(), liveline), msgs.last(), liveline)
    }
}

/// The start of the rolling window at moment `now`: the window's length
/// earlier, or the earliest representable moment where that is out of range.
pub open spec fn window_start_spec(now: i128) -> i128 {
    if now >= i128::MIN + MONTH_LIKE {
        (now - MONTH_LIKE) as i128
    } else {
        i128::MIN
    }
}

/// `w` is `v` after some batch of inbound messages, folded against the
/// window start of some moment.
pub open spec fn synced_from(v: LedgerView, w: LedgerView) -> bool {
    exists|msgs: Seq<ClientboundUpdate>, now: i128| w == updates_spec(v, msgs, window_start_spec(now))
}

/// The start of the rolling window at moment `now`.
pub fn window_start(now: i128) -> (r: i128)
    ensures
        r == window_start_spec(now),
{
    if now >= i128::MIN + MONTH_LIKE {
        now - MONTH_LIKE
    } else {
        i128::MIN
    }
}

/// `alias` names no held draft and, unless the largest alias is held, is
/// above every alias held.
pub open spec fn alias_is_fresh(records: Map<SortKey, RecordViewValue>, alias: u128) -> bool {
    &&& !records.contains_key(provisional_key(alias))
    &&& records.contains_key(provisional_key(u128::MAX)) || forall|b: u128| #[trigger]
        records.contains_key(provisional_key(b)) ==> b < alias
}

/// The message that asks the authority to revoke expense `expense_id`.
pub fn revoke_message(expense_id: u128) -> (m: ServerboundUpdate)
    ensures
        m == (ServerboundUpdate::Revoked { expense_id }),
{
    ServerboundUpdate::Revoked { expense_id }
}

/// Store keys agree with the records they hold.
pub open spec fn key_matches(k: SortKey, r: RecordViewValue) -> bool {
    match r {
        RecordViewValue::Confirmed(e) => k == confirmed_key(e),
        RecordViewValue::Provisional(..) => k.0 == 1 && k.1 == 0,
    }
}

pub open spec fn keys_match(m: Map<SortKey, RecordViewValue>) -> bool {
    forall|k: SortKey| #[trigger] m.contains_key(k) ==> key_matches(k, m[k])
}

/// The confirmed records of a snapshot, later ones replacing earlier ones
/// under the same key.
pub open spec fn snapshot_records(recent: Seq<Expense>) -> Map<SortKey, RecordViewValue>
    decreases recent.len(),
{
    if recent.len() == 0 {
        Map::empty()
    } else {
        snapshot_records(recent.drop_last()).insert(
            confirmed_key(recent.last()),
            RecordViewValue::Confirmed(recent.last()),
        )
    }
}

/// The cache a snapshot seeds; with none, an empty one.
pub open spec fn snapshot_view(init: Option<(CachedStats, CachedStats, Vec<Expense>)>) -> LedgerView {
    match init {
        Some(t) => LedgerView { records: snapshot_records(t.2@), life: t.0@, month: t.1@ },
        None => LedgerView {
            records: Map::empty(),
            life: StatsView { alive: 0, total: 0, groups: Seq::empty() },
            month: StatsView { alive: 0, total: 0, groups: Seq::empty() },
        },
    }
}

/// `s` after counting each of `recent`, in order.
pub open spec fn counted_all(s: StatsView, recent: Seq<Expense>) -> StatsView
    decreases recent.len(),
{
    if recent.len() == 0 {
        s
    } else {
        count_in(counted_all(s, recent.drop_last()), recent.last().client)
    }
}

/// The full reverse-chronological listing: held records from the last in
/// store order back, then a placeholder for each record the lifetime count
/// knows of beyond them.
pub open spec fn listing(entries: Seq<(SortKey, RecordViewValue)>, total: usize) -> Seq<MayLoad> {
    let have = entries.len();
    Seq::new(have, |i: int| entries[have - 1 - i].1.spec_borrow()) + Seq::new(
        if total > have { (total - have) as nat } else { 0 },
        |i: int| MayLoad::NotLoaded,
    )
}

pub open spec fn clip(x: int, len: int) -> int {
    if x < len { x } else { len }
}

/// Provisional drafts come first, then confirmed records, then placeholders.
pub open spec fn listing_rank(m: MayLoad) -> int {
    match m {
        MayLoad::Provisional { .. } => 0,
        MayLoad::Confirmed(_) => 1,
        MayLoad::NotLoaded => 2,
    }
}

/// `a` may stand before `b` in a reverse-chronological listing: drafts
/// before confirmed records before placeholders, and confirmed records by
/// strictly descending time, then identifier.
pub open spec fn listed_in_order(a: MayLoad, b: MayLoad) -> bool {
    ||| listing_rank(a) < listing_rank(b)
    ||| listing_rank(a) == listing_rank(b) && match (a, b) {
        (MayLoad::Confirmed(x), MayLoad::Confirmed(y)) => x.server.time > y.server.time || (x.server.time
            == y.server.time && x.server.uid > y.server.uid),
        _ => true,
    }
}

pub open spec fn listing_ordered(s: Seq<MayLoad>) -> bool {
    forall|i: int, j: int| 0 <= i < j < s.len() ==> listed_in_order(#[trigger] s[i], #[trigger] s[j])
}

/// The listing of a well-formed store is in reverse-chronological order.
pub proof fn lemma_listing_ordered(s: Seq<(SortKey, RecordViewValue)>, total: usize)
    requires
        sorted_entries(s),
        keys_match(entries_map(s)),
    ensures
        listing_ordered(listing(s, total)),
{
    let l = listing(s, total);
    let have = s.len();
    assert forall|i: int, j: int| 0 <= i < j < l.len() implies listed_in_order(#[trigger] l[i], #[trigger] l[j]) by {
        if j < have {
            let a = have - 1 - i;
            let b = have - 1 - j;
            lemma_entry_value(s, a);
            lemma_entry_value(s, b);
            assert(key_matches(s[a].0, s[a].1));
            assert(key_matches(s[b].0, s[b].1));
            assert(key_lt(s[b].0, s[a].0));
        } else if i < have {
            let a = have - 1 - i;
            assert(l[j] == MayLoad::NotLoaded);
        } else {
            assert(l[j] == MayLoad::NotLoaded);
            assert(l[i] == MayLoad::NotLoaded);
        }
    }
}

/// Expense ledger cache over an authority `U`.
pub struct DbView<U: Upstream> {
    upstream: U,
    live_records: RecordMap,
    life_stats: CachedStats,
    month_stats: CachedStats,
}

impl<U: Upstream> DbView<U> {
    pub closed spec fn ledger(&self) -> LedgerView {
        LedgerView {
            records: records_of(self.live_records),
            life: self.life_stats@,
            month: self.month_stats@,
        }
    }

    /// What a well-formed cache holds: its entries ascend strictly in store
    /// order, are exactly its records, and each sits under its own key.
    pub proof fn lemma_entries_are_records(&self)
        requires
            self.wf(),
        ensures
            sorted_entries(self.entries()),
            entries_map(self.entries()) == self.ledger().records,
            keys_match(self.ledger().records),
            self.ledger().records.dom().finite(),
            self.entries().len() == self.ledger().records.dom().len(),
            forall|i: int| 0 <= i < self.entries().len() ==> {
                &&& self.ledger().records.contains_key(#[trigger] self.entries()[i].0)
                &&& self.ledger().records[self.entries()[i].0] == self.entries()[i].1
            },
    {
        lemma_entries_len(self.entries());
        assert forall|i: int| 0 <= i < self.entries().len() implies {
            &&& self.ledger().records.contains_key(#[trigger] self.entries()[i].0)
            &&& self.ledger().records[self.entries()[i].0] == self.entries()[i].1
        } by {
            lemma_entry_value(self.entries(), i);
        }
    }

    /// The held records in store order.
    pub closed spec fn entries(&self) -> Seq<(SortKey, RecordViewValue)> {
        live_entries(self.live_records)
    }

    pub closed spec fn wf(&self) -> bool {
        &&& sorted_entries(live_entries(self.live_records))
        &&& keys_match(records_of(self.live_records))
    }

    /// Folds in the revocation of `expense`, against window start `liveline`.
    pub fn handle_revocation(&mut self, expense: &Expense, liveline: i128)
        requires
            old(self).wf(),
        ensures
            final(self).wf(),
            final(self).ledger() == revocation_spec(old(self).ledger(), *expense, liveline),
    {
        let key = RecordViewKey::Confirmed(expense.server.time, expense.server.uid).sort_key();
        if store_remove(&mut self.live_records, &key).is_none() {
            return;
        }
        let c = &expense.client;
        if self.life_stats.has_category(c.category()) {
            self.life_stats.sub(expense);
        }
        if expense.server.time >= liveline && self.month_stats.has_category(c.category()) {
            self.month_stats.sub(expense);
        }
    }

    /// Folds in the confirmation of `expense`, which came from the draft under
    /// `temp_alias` if that is held, against window start `liveline`.
    pub fn apply_confirmed(&mut self, expense: Expense, temp_alias: u128, liveline: i128)
        requires
            old(self).wf(),
            !expense.client.revoked,
        ensures
            final(self).wf(),
            final(self).ledger() == confirmed_spec(old(self).ledger(), expense, temp_alias, liveline),
    {
        let remove_pos = RecordViewKey::Provisional(temp_alias).sort_key();
        let was_foreign = store_remove(&mut self.live_records, &remove_pos).is_none();
        if was_foreign {
            self.life_stats.add(&expense);
            if expense.server.time >= liveline {
                self.month_stats.add(&expense);
            }
        }
        let insert_pos = RecordViewKey::Confirmed(expense.server.time, expense.server.uid).sort_key();
        store_insert(&mut self.live_records, insert_pos, RecordViewValue::Confirmed(expense));
    }

    /// Records a local draft under `temp_alias`, created at `now`, and returns
    /// the message that submits it.
    pub fn record_expense(&mut self, c: ClientData, temp_alias: u128, now: i128) -> (msg: ServerboundUpdate)
        requires
            old(self).wf(),
            !c.revoked,
        ensures
            final(self).wf(),
            final(self).ledger() == insert_spec(old(self).ledger(), c, temp_alias, now),
            msg == (ServerboundUpdate::MadeExpense { info: c, temp_alias }),
    {
        self.life_stats.add_client(&c);
        self.month_stats.add_client(&c);
        let key = RecordViewKey::Provisional(temp_alias).sort_key();
        store_insert(&mut self.live_records, key, RecordViewValue::Provisional(c.clone(), now));
        ServerboundUpdate::MadeExpense { info: c, temp_alias }
    }

    /// Folds one inbound message into the cache.
    pub fn apply_update(&mut self, msg: &ClientboundUpdate, liveline: i128)
        requires
            old(self).wf(),
        ensures
            final(self).wf(),
            final(self).ledger() == update_spec(old(self).ledger(), *msg, liveline),
    {
        match msg {
            ClientboundUpdate::Revoked { expense } => {
                self.handle_revocation(expense, liveline);
            },
            ClientboundUpdate::NewSpending { expense, temp_alias } => {
                if !expense.client.revoked {
                    self.apply_confirmed(expense.clone(), *temp_alias, liveline);
                }
            },
            ClientboundUpdate::InitStats { .. } => {},
        }
    }

    /// Folds a batch of inbound messages, in order, against one window start.
    pub fn apply_updates(&mut self, msgs: &Vec<ClientboundUpdate>, liveline: i128)
        requires
            old(self).wf(),
        ensures
            final(self).wf(),
            final(self).ledger() == updates_spec(old(self).ledger(), msgs@, liveline),
    {
        let ghost start = self.ledger();
        let mut i: usize = 0;
        while i < msgs.len()
            invariant
                i <= msgs.len(),
                self.wf(),
                self.ledger() == updates_spec(start, msgs@.take(i as int), liveline),
            decreases msgs.len() - i,
        {
            proof {
                assert(msgs@.take(i + 1).drop_last() =~= msgs@.take(i as int));
            }
            self.apply_update(&msgs[i], liveline);
            i += 1;
        }
        assert(msgs@.take(msgs.len() as int) =~= msgs@);
    }

    /// The start of the rolling window, as of the current moment.
    fn keep_month(&self) -> (r: i128)
        ensures
            exists|now: i128| r == window_start_spec(now),
    {
        window_start(now_unix_nanos())
    }

    /// Drains the authority's pending messages into the cache.
    fn sync_upstream(&mut self)
        requires
            old(self).wf(),
        ensures
            final(self).wf(),
            synced_from(old(self).ledger(), final(self).ledger()),
    {
        let liveline = self.keep_month();
        let msgs = self.upstream.sync();
        self.apply_updates(&msgs, liveline);
        let ghost now = choose|now: i128| liveline == window_start_spec(now);
        assert(self.ledger() == updates_spec(old(self).ledger(), msgs@, window_start_spec(now)));
    }

    /// A cache seeded from a snapshot: lifetime stats, window stats, and the
    /// recent confirmed expenses; with none, it starts empty.
    pub fn from_snapshot(upstream: U, init: Option<(CachedStats, CachedStats, Vec<Expense>)>) -> (r: Self)
        ensures
            r.wf(),
            r.ledger() == snapshot_view(init),
    {
        let (life_stats, month_stats, recent) = match init {
            Some(t) => t,
            None => (CachedStats::empty(), CachedStats::empty(), Vec::new()),
        };
        let mut live_records = store_new();
        assert(records_of(live_records) =~= Map::empty());
        let mut i: usize = 0;
        while i < recent.len()
            invariant
                i <= recent.len(),
                sorted_entries(live_entries(live_records)),
                keys_match(records_of(live_records)),
                records_of(live_records) == snapshot_records(recent@.take(i as int)),
            decreases recent.len() - i,
        {
            proof {
                assert(recent@.take(i + 1).drop_last() =~= recent@.take(i as int));
            }
            let exp = recent[i].clone();
            let key = RecordViewKey::Confirmed(exp.server.time, exp.server.uid).sort_key();
            store_insert(&mut live_records, key, RecordViewValue::Confirmed(exp));
            i += 1;
        }
        assert(recent@.take(recent.len() as int) =~= recent@);
        DbView { upstream, live_records, life_stats, month_stats }
    }

    /// A cache seeded from the authority's snapshot, if it offers one.
    pub fn with(mut upstream: U) -> (r: Self)
        ensures
            r.wf(),
            exists|init: Option<(CachedStats, CachedStats, Vec<Expense>)>| r.ledger() == snapshot_view(init),
    {
        let init = upstream.take_init();
        Self::from_snapshot(upstream, init)
    }

    /// The alias for a new draft: `drawn` where it is above every held alias,
    /// else the next one above them; where the largest alias is held, the
    /// largest one that is free.
    pub fn next_alias(&self, drawn: u128) -> (r: u128)
        requires
            self.wf(),
        ensures
            alias_is_fresh(self.ledger().records, r),
            (forall|b: u128| #[trigger] self.ledger().records.contains_key(provisional_key(b)) ==> b < drawn)
                ==> r == drawn,
    {
        let ghost s = self.entries();
        let ghost m = self.ledger().records;
        proof {
            self.lemma_entries_are_records();
        }
        let len = store_len(&self.live_records);
        if len == 0 {
            assert(m =~= Map::empty()) by {
                assert forall|k: SortKey| !#[trigger] m.contains_key(k) by {}
            }
            return drawn;
        }
        let top = match store_get_index(&self.live_records, len - 1) {
            Some((k, _)) => *k,
            None => { return drawn; },
        };
        // Every held key is at most the last one.
        assert forall|k: SortKey| #[trigger] m.contains_key(k) implies k == top || key_lt(k, top) by {
            let i = choose|i: int| 0 <= i < s.len() && #[trigger] s[i].0 == k;
            if i < len - 1 {
                assert(key_lt(s[i].0, s[len - 1].0));
            }
        }
        if top.0 != 1 || drawn > top.2 {
            return drawn;
        }
        assert(m.contains_key(top));
        assert(top.1 == 0);
        assert(top == provisional_key(top.2));
        if top.2 < u128::MAX {
            return top.2 + 1;
        }
        assert(top == provisional_key(u128::MAX));
        let mut j: usize = 0;
        let mut scanning = true;
        while scanning && j < len
            invariant
                j <= len,
                len == s.len(),
                s == self.entries(),
                s[len - 1].0 == provisional_key(u128::MAX),
                forall|t: int| 0 <= t < j ==> #[trigger] s[len - 1 - t].0 == provisional_key((u128::MAX - t) as u128),
                !scanning ==> j < len && s[len - 1 - j].0 != provisional_key((u128::MAX - j) as u128),
            decreases len - j + if scanning { 1int } else { 0int },
        {
            let k = match store_get_index(&self.live_records, len - 1 - j) {
                Some((k, _)) => *k,
                None => { return drawn; },
            };
            if k.0 != 1 || k.1 != 0 || k.2 != u128::MAX - (j as u128) {
                scanning = false;
            } else {
                j += 1;
            }
        }
        let r = u128::MAX - (j as u128);
        assert(!m.contains_key(provisional_key(r))) by {
            if m.contains_key(provisional_key(r)) {
                let i = choose|i: int| 0 <= i < s.len() && #[trigger] s[i].0 == provisional_key(r);
                if i >= len - j {
                    let t = len - 1 - i;
                    assert(s[len - 1 - t].0 == provisional_key((u128::MAX - t) as u128));
                } else {
                    let p = len - 1 - j;
                    assert(j >= 1);
                    assert(s[len - 1 - (j - 1)].0 == provisional_key((u128::MAX - (j - 1)) as u128));
                    assert(key_lt(s[p].0, s[p + 1].0));
                    if i < p {
                        assert(key_lt(s[i].0, s[p].0));
                    }
                }
            }
        }
        r
    }

    /// Counts a new expense at once and submits it to the authority under a
    /// fresh client alias; never waits for the authority.
    pub fn insert_expense(&mut self, c: ClientData)
        requires
            old(self).wf(),
            !c.revoked,
        ensures
            final(self).wf(),
            exists|alias: u128, now: i128| alias_is_fresh(old(self).ledger().records, alias)
                && final(self).ledger() == insert_spec(old(self).ledger(), c, alias, now),
    {
        let now = now_unix_nanos();
        let temp_alias = self.next_alias(fresh_alias());
        let msg = self.record_expense(c, temp_alias, now);
        self.upstream.submit(msg);
    }

    /// Asks the authority to revoke a confirmed expense. The cache changes
    /// only when the revocation comes back.
    pub fn revoke(&mut self, expense_id: u128)
        requires
            old(self).wf(),
        ensures
            final(self).wf(),
            final(self).ledger() == old(self).ledger(),
    {
        self.upstream.submit(revoke_message(expense_id));
    }

    /// Positions `from` up to `to` (clipped to its length) of the listing.
    pub fn listing_range(&self, from: usize, to: usize) -> (r: Vec<MayLoad>)
        requires
            self.wf(),
            from <= to,
        ensures
            ({
                let l = listing(self.entries(), self.ledger().life.alive);
                r@ == l.subrange(clip(from as int, l.len() as int), clip(to as int, l.len() as int))
            }),
    {
        let ghost l = listing(self.entries(), self.ledger().life.alive);
        let have = store_len(&self.live_records);
        let total = self.life_stats.records_alive;
        let len: usize = if total > have { total } else { have };
        assert(l.len() == len);
        let end: usize = if to < len { to } else { len };
        let start: usize = if from < len { from } else { len };
        let mut out: Vec<MayLoad> = Vec::new();
        let mut i: usize = start;
        while i < end
            invariant
                start <= i <= end,
                end <= len,
                have == self.entries().len(),
                l.len() == len,
                l == listing(self.entries(), self.ledger().life.alive),
                out@ == l.subrange(start as int, i as int),
            decreases end - i,
        {
            if i < have {
                match store_get_index(&self.live_records, have - 1 - i) {
                    Some((_, v)) => {
                        out.push(v.borrow());
                    },
                    None => {},
                }
            } else {
                out.push(MayLoad::NotLoaded);
            }
            assert(out@ =~= l.subrange(start as int, i + 1));
            i += 1;
        }
        out
    }

    /// Up to `n` entries, most recent first: drafts, then confirmed records
    /// by descending time, then placeholders for records known only from
    /// the lifetime count. Syncs first.
    pub fn load_last_spendings(&mut self, n: usize) -> (r: Vec<MayLoad>)
        requires
            old(self).wf(),
        ensures
            final(self).wf(),
            synced_from(old(self).ledger(), final(self).ledger()),
            ({
                let l = listing(final(self).entries(), final(self).ledger().life.alive);
                r@ == l.take(clip(n as int, l.len() as int))
            }),
            listing_ordered(r@),
    {
        self.sync_upstream();
        let r = self.listing_range(0, n);
        proof {
            let l = listing(self.entries(), self.ledger().life.alive);
            lemma_listing_ordered(self.entries(), self.ledger().life.alive);
            assert(l.subrange(0, clip(n as int, l.len() as int)) =~= l.take(clip(n as int, l.len() as int)));
        }
        r
    }

    /// Entries at reverse-chronological positions `rev_from` up to `rev_to`,
    /// in the order of `load_last_spendings`. Syncs first.
    pub fn load_some_spendings(&mut self, rev_from: usize, rev_to: usize) -> (r: Vec<MayLoad>)
        requires
            old(self).wf(),
            rev_from <= rev_to,
        ensures
            final(self).wf(),
            synced_from(old(self).ledger(), final(self).ledger()),
            ({
                let l = listing(final(self).entries(), final(self).ledger().life.alive);
                r@ == l.subrange(clip(rev_from as int, l.len() as int), clip(rev_to as int, l.len() as int))
            }),
            listing_ordered(r@),
    {
        self.sync_upstream();
        proof {
            lemma_listing_ordered(self.entries(), self.ledger().life.alive);
        }
        self.listing_range(rev_from, rev_to)
    }

    /// Window `(total amount, alive count)`, after a sync.
    pub fn month_transactions_info(&mut self) -> (r: (u64, usize))
        requires
            old(self).wf(),
        ensures
            final(self).wf(),
            synced_from(old(self).ledger(), final(self).ledger()),
            r == (final(self).ledger().month.total, final(self).ledger().month.alive),
    {
        self.sync_upstream();
        (self.month_stats.total_spending, self.month_stats.records_alive)
    }

    /// Lifetime `(total amount, alive count)`, after a sync.
    pub fn life_transactions_info(&mut self) -> (r: (u64, usize))
        requires
            old(self).wf(),
        ensures
            final(self).wf(),
            synced_from(old(self).ledger(), final(self).ledger()),
            r == (final(self).ledger().life.total, final(self).ledger().life.alive),
    {
        self.sync_upstream();
        (self.life_stats.total_spending, self.life_stats.records_alive)
    }

    /// Lifetime alive count, after a sync.
    pub fn total_live_transactions(&mut self) -> (r: usize)
        requires
            old(self).wf(),
        ensures
            final(self).wf(),
            synced_from(old(self).ledger(), final(self).ledger()),
            r == final(self).ledger().life.alive,
    {
        self.sync_upstream();
        self.life_stats.records_alive
    }

    /// Window per-category sums, after a sync.
    pub fn month_pie(&mut self) -> (r: &[(String, u64)])
        requires
            old(self).wf(),
        ensures
            final(self).wf(),
            synced_from(old(self).ledger(), final(self).ledger()),
            r@.map_values(|p: (String, u64)| (p.0@, p.1)) == final(self).ledger().month.groups,
    {
        self.sync_upstream();
        self.month_stats.group_spendings.as_slice()
    }

    /// Lifetime per-category sums, after a sync.
    pub fn life_pie(&mut self) -> (r: &[(String, u64)])
        requires
            old(self).wf(),
        ensures
            final(self).wf(),
            synced_from(old(self).ledger(), final(self).ledger()),
            r@.map_values(|p: (String, u64)| (p.0@, p.1)) == final(self).ledger().life.groups,
    {
        self.sync_upstream();
        self.life_stats.group_spendings.as_slice()
    }
}

/// The initial data of a snapshot message: the lifetime stats as given, the
/// window stats counted from the recent expenses, and those expenses.
pub fn init_data_from(
    lifetime_stats: ((u64, usize), Vec<(String, u64)>),
    recent_expenses: Vec<Expense>,
) -> (r: (CachedStats, CachedStats, Vec<Expense>))
    ensures
        r.0@ == CachedStats::new_spec(lifetime_stats),
        r.1@ == counted_all(StatsView { alive: 0, total: 0, groups: Seq::empty() }, recent_expenses@),
        r.2@ == recent_expenses@,
{
    let life = CachedStats::new(lifetime_stats);
    let mut month = CachedStats::empty();
    let mut i: usize = 0;
    while i < recent_expenses.len()
        invariant
            i <= recent_expenses.len(),
            month@ == counted_all(
                StatsView { alive: 0, total: 0, groups: Seq::empty() },
                recent_expenses@.take(i as int),
            ),
        decreases recent_expenses.len() - i,
    {
        proof {
            assert(recent_expenses@.take(i + 1).drop_last() =~= recent_expenses@.take(i as int));
        }
        month.add(&recent_expenses[i]);
        i += 1;
    }
    assert(recent_expenses@.take(recent_expenses.len() as int) =~= recent_expenses@);
    (life, month, recent_expenses)
}

} // verus!
