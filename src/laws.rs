use vstd::prelude::*;

use crate::db_view::{
    LedgerView, confirmed_key, count_in, insert_spec, provisional_key, update_spec, updates_spec,
};
use crate::protocol::ClientboundUpdate;
use crate::records::{ClientData, Expense, category_of};
use crate::stats::{
    group_amount, has_group, lemma_group_amount_after_add, lemma_raw_add_keeps_names_distinct,
    names_distinct,
};

verus! {

/// The window never holds more for a category than the lifetime scope does.
pub open spec fn window_within_lifetime(v: LedgerView) -> bool {
    forall|cat: Seq<char>| #[trigger] group_amount(v.month.groups, cat) <= group_amount(v.life.groups, cat)
}

/// A message that does not confirm the draft under `alias`.
pub open spec fn spares_alias(msg: ClientboundUpdate, alias: u128) -> bool {
    !(msg matches ClientboundUpdate::NewSpending { temp_alias, .. } && temp_alias == alias)
}

/// Messages other than the confirmation of a draft keep that draft held.
pub proof fn lemma_draft_kept(v: LedgerView, msgs: Seq<ClientboundUpdate>, alias: u128, liveline: i128)
    requires
        v.records.contains_key(provisional_key(alias)),
        forall|i: int| 0 <= i < msgs.len() ==> spares_alias(#[trigger] msgs[i], alias),
    ensures
        updates_spec(v, msgs, liveline).records.contains_key(provisional_key(alias)),
    decreases msgs.len(),
{
    if msgs.len() > 0 {
        let init = msgs.drop_last();
        assert forall|i: int| 0 <= i < init.len() implies spares_alias(#[trigger] init[i], alias) by {
            assert(init[i] == msgs[i]);
        }
        lemma_draft_kept(v, init, alias, liveline);
        assert(spares_alias(msgs[msgs.len() - 1], alias));
    }
}

/// No double count: a draft adds its amount to the lifetime total when it is
/// created, and its own confirmation adds nothing more, whatever other
/// messages arrived in between. The alias is fresh and the total does not
/// reach the saturation bound.
pub proof fn lemma_no_double_count(
    v: LedgerView,
    c: ClientData,
    alias: u128,
    now: i128,
    between: Seq<ClientboundUpdate>,
    liveline: i128,
    echo: Expense,
    echo_liveline: i128,
)
    requires
        !v.records.contains_key(provisional_key(alias)),
        v.life.total + c.amount <= u64::MAX,
        forall|i: int| 0 <= i < between.len() ==> spares_alias(#[trigger] between[i], alias),
    ensures
        insert_spec(v, c, alias, now).life.total == v.life.total + c.amount,
        ({
            let before = updates_spec(insert_spec(v, c, alias, now), between, liveline);
            let msg = ClientboundUpdate::NewSpending { expense: echo, temp_alias: alias };
            update_spec(before, msg, echo_liveline).life == before.life
        }),
{
    lemma_draft_kept(insert_spec(v, c, alias, now), between, alias, liveline);
}

/// Idempotent revocation: a second delivery of the same revocation changes
/// nothing.
pub proof fn lemma_revoke_idempotent(v: LedgerView, e: Expense, liveline: i128, again_liveline: i128)
    ensures
        ({
            let msg = ClientboundUpdate::Revoked { expense: e };
            let once = update_spec(v, msg, liveline);
            update_spec(once, msg, again_liveline) == once
        }),
{
}

/// Foreign-origin counting: a confirmation whose alias matches no held draft
/// adds exactly one to the lifetime count, short of the saturation bound.
pub proof fn lemma_foreign_counted(v: LedgerView, e: Expense, alias: u128, liveline: i128)
    requires
        !v.records.contains_key(provisional_key(alias)),
        !e.client.revoked,
        v.life.alive < usize::MAX,
    ensures
        update_spec(v, ClientboundUpdate::NewSpending { expense: e, temp_alias: alias }, liveline).life.alive
            == v.life.alive + 1,
{
}

proof fn lemma_count_in_both(v: LedgerView, c: ClientData)
    requires
        window_within_lifetime(v),
    ensures
        forall|cat: Seq<char>| #[trigger] group_amount(count_in(v.month, c).groups, cat)
            <= group_amount(count_in(v.life, c).groups, cat),
{
    assert forall|cat: Seq<char>| #[trigger] group_amount(count_in(v.month, c).groups, cat)
        <= group_amount(count_in(v.life, c).groups, cat) by {
        lemma_group_amount_after_add(v.month, category_of(c), c.amount as int, 1, cat);
        lemma_group_amount_after_add(v.life, category_of(c), c.amount as int, 1, cat);
        assert(group_amount(v.month.groups, cat) <= group_amount(v.life.groups, cat));
        assert(group_amount(v.month.groups, category_of(c)) <= group_amount(
            v.life.groups,
            category_of(c),
        ));
    }
}

/// The window starts out within the lifetime scope when both are empty.
pub proof fn lemma_window_within_lifetime_empty(v: LedgerView)
    requires
        v.month.groups.len() == 0,
    ensures
        window_within_lifetime(v),
{
}

/// A local draft keeps the window within the lifetime scope.
pub proof fn lemma_window_within_lifetime_insert(v: LedgerView, c: ClientData, alias: u128, now: i128)
    requires
        window_within_lifetime(v),
    ensures
        window_within_lifetime(insert_spec(v, c, alias, now)),
{
    lemma_count_in_both(v, c);
}

/// The revocation of a record that is still inside the window.
pub open spec fn revokes_within(msg: ClientboundUpdate, liveline: i128) -> bool {
    msg matches ClientboundUpdate::Revoked { expense } ==> expense.server.time >= liveline
}

/// Window within lifetime, for one inbound message. A record revoked after
/// its time left the window is taken back from the lifetime scope alone, and
/// the window keeps what it counted for it; those revocations are left out.
pub proof fn lemma_window_within_lifetime_update(v: LedgerView, msg: ClientboundUpdate, liveline: i128)
    requires
        window_within_lifetime(v),
        revokes_within(msg, liveline),
    ensures
        window_within_lifetime(update_spec(v, msg, liveline)),
{
    let w = update_spec(v, msg, liveline);
    match msg {
        ClientboundUpdate::Revoked { expense } => {
            if v.records.contains_key(confirmed_key(expense)) {
                let c = expense.client;
                let cc = category_of(c);
                assert forall|cat: Seq<char>| #[trigger] group_amount(w.month.groups, cat)
                    <= group_amount(w.life.groups, cat) by {
                    assert(group_amount(v.month.groups, cat) <= group_amount(v.life.groups, cat));
                    if has_group(v.life.groups, cc) {
                        lemma_group_amount_after_add(v.life, cc, -(c.amount as int), -1, cat);
                    }
                    if has_group(v.month.groups, cc) {
                        lemma_group_amount_after_add(v.month, cc, -(c.amount as int), -1, cat);
                    }
                }
            }
        },
        ClientboundUpdate::NewSpending { expense, temp_alias } => {
            if !expense.client.revoked && !v.records.contains_key(provisional_key(temp_alias)) {
                let c = expense.client;
                let cc = category_of(c);
                if expense.server.time >= liveline {
                    lemma_count_in_both(v, c);
                } else {
                    assert forall|cat: Seq<char>| #[trigger] group_amount(w.month.groups, cat)
                        <= group_amount(w.life.groups, cat) by {
                        assert(group_amount(v.month.groups, cat) <= group_amount(v.life.groups, cat));
                        lemma_group_amount_after_add(v.life, cc, c.amount as int, 1, cat);
                    }
                }
            }
        },
        ClientboundUpdate::InitStats { .. } => {},
    }
}

/// Window within lifetime, for a batch of inbound messages.
pub proof fn lemma_window_within_lifetime_updates(v: LedgerView, msgs: Seq<ClientboundUpdate>, liveline: i128)
    requires
        window_within_lifetime(v),
        forall|i: int| 0 <= i < msgs.len() ==> revokes_within(#[trigger] msgs[i], liveline),
    ensures
        window_within_lifetime(updates_spec(v, msgs, liveline)),
    decreases msgs.len(),
{
    if msgs.len() > 0 {
        let init = msgs.drop_last();
        assert forall|i: int| 0 <= i < init.len() implies revokes_within(#[trigger] init[i], liveline) by {
            assert(init[i] == msgs[i]);
        }
        lemma_window_within_lifetime_updates(v, init, liveline);
        assert(revokes_within(msgs[msgs.len() - 1], liveline));
        lemma_window_within_lifetime_update(updates_spec(v, init, liveline), msgs.last(), liveline);
    }
}

/// Each breakdown names a category at most once.
pub open spec fn breakdowns_distinct(v: LedgerView) -> bool {
    names_distinct(v.life.groups) && names_distinct(v.month.groups)
}

/// Distinct categories stay distinct through a local draft.
pub proof fn lemma_breakdowns_distinct_insert(v: LedgerView, c: ClientData, alias: u128, now: i128)
    requires
        breakdowns_distinct(v),
    ensures
        breakdowns_distinct(insert_spec(v, c, alias, now)),
{
    lemma_raw_add_keeps_names_distinct(v.life, category_of(c), c.amount as int, 1);
    lemma_raw_add_keeps_names_distinct(v.month, category_of(c), c.amount as int, 1);
}

/// Distinct categories stay distinct through any batch of inbound messages.
pub proof fn lemma_breakdowns_distinct_updates(v: LedgerView, msgs: Seq<ClientboundUpdate>, liveline: i128)
    requires
        breakdowns_distinct(v),
    ensures
        breakdowns_distinct(updates_spec(v, msgs, liveline)),
    decreases msgs.len(),
{
    if msgs.len() > 0 {
        lemma_breakdowns_distinct_updates(v, msgs.drop_last(), liveline);
        let w = updates_spec(v, msgs.drop_last(), liveline);
        match msgs.last() {
            ClientboundUpdate::Revoked { expense } => {
                let c = expense.client;
                lemma_raw_add_keeps_names_distinct(w.life, category_of(c), -(c.amount as int), -1);
                lemma_raw_add_keeps_names_distinct(w.month, category_of(c), -(c.amount as int), -1);
            },
            ClientboundUpdate::NewSpending { expense, .. } => {
                let c = expense.client;
                lemma_raw_add_keeps_names_distinct(w.life, category_of(c), c.amount as int, 1);
                lemma_raw_add_keeps_names_distinct(w.month, category_of(c), c.amount as int, 1);
            },
            ClientboundUpdate::InitStats { .. } => {},
        }
    }
}

} // verus!
