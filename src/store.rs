use vstd::prelude::*;

use liquemap::LiqueMap;

use crate::records::{RecordViewValue, SortKey, key_lt};

verus! {

#[verifier::external_type_specification]
#[verifier::external_body]
#[verifier::reject_recursive_types(K)]
#[verifier::reject_recursive_types(V)]
pub struct ExLiqueMap<K, V>(LiqueMap<K, V>);

/// The map that holds the materialized records.
pub type RecordMap = LiqueMap<SortKey, RecordViewValue>;

/// The key-value pairs of a record map, in ascending key order.
pub uninterp spec fn live_entries(m: RecordMap) -> Seq<(SortKey, RecordViewValue)>;

/// Keys strictly ascend along `s`.
pub open spec fn sorted_entries(s: Seq<(SortKey, RecordViewValue)>) -> bool {
    forall|i: int, j: int| 0 <= i < j < s.len() ==> key_lt(#[trigger] s[i].0, #[trigger] s[j].0)
}

/// The entries of `s` as a map from key to value.
pub open spec fn entries_map(s: Seq<(SortKey, RecordViewValue)>) -> Map<SortKey, RecordViewValue> {
    Map::new(
        |k: SortKey| exists|i: int| 0 <= i < s.len() && #[trigger] s[i].0 == k,
        |k: SortKey| s[choose|i: int| 0 <= i < s.len() && #[trigger] s[i].0 == k].1,
    )
}

/// With strictly ascending keys, each entry is what the map holds at its key.
pub proof fn lemma_entry_value(s: Seq<(SortKey, RecordViewValue)>, a: int)
    requires
        sorted_entries(s),
        0 <= a < s.len(),
    ensures
        entries_map(s).contains_key(s[a].0),
        entries_map(s)[s[a].0] == s[a].1,
{
    let ka = s[a].0;
    assert(0 <= a < s.len() && s[a].0 == ka);
    assert(exists|i: int| 0 <= i < s.len() && #[trigger] s[i].0 == ka);
    let b = choose|i: int| 0 <= i < s.len() && #[trigger] s[i].0 == s[a].0;
    if b < a {
        assert(key_lt(s[b].0, s[a].0));
    } else if b > a {
        assert(key_lt(s[a].0, s[b].0));
    }
}

/// With strictly ascending keys, there are as many entries as keys.
pub proof fn lemma_entries_len(s: Seq<(SortKey, RecordViewValue)>)
    requires
        sorted_entries(s),
    ensures
        entries_map(s).dom().finite(),
        entries_map(s).dom().len() == s.len(),
    decreases s.len(),
{
    if s.len() == 0 {
        assert(entries_map(s).dom() =~= Set::<SortKey>::empty());
    } else {
        let t = s.drop_last();
        let last = s.last();
        assert(sorted_entries(t)) by {
            assert forall|i: int, j: int| 0 <= i < j < t.len() implies key_lt(#[trigger] t[i].0, #[trigger] t[j].0) by {
                assert(t[i] == s[i] && t[j] == s[j]);
            }
        }
        lemma_entries_len(t);
        assert(entries_map(s).dom() =~= entries_map(t).dom().insert(last.0)) by {
            assert forall|k: SortKey| #[trigger] entries_map(s).dom().contains(k) implies entries_map(t).dom().contains(k)
                || k == last.0 by {
                let i = choose|i: int| 0 <= i < s.len() && #[trigger] s[i].0 == k;
                if i < t.len() {
                    assert(t[i].0 == k);
                }
            }
            assert forall|k: SortKey| #[trigger] entries_map(t).dom().contains(k) implies entries_map(s).dom().contains(k) by {
                let i = choose|i: int| 0 <= i < t.len() && #[trigger] t[i].0 == k;
                assert(s[i].0 == k);
            }
            assert(s[s.len() - 1].0 == last.0);
        }
        assert(!entries_map(t).dom().contains(last.0)) by {
            if entries_map(t).dom().contains(last.0) {
                let i = choose|i: int| 0 <= i < t.len() && #[trigger] t[i].0 == last.0;
                assert(s[i].0 == last.0);
                assert(key_lt(s[i].0, s[s.len() - 1].0));
            }
        }
    }
}

/// The record map of `m`.
pub open spec fn records_of(m: RecordMap) -> Map<SortKey, RecordViewValue> {
    entries_map(live_entries(m))
}

/// Relies on LiqueMap::new: a new map holds no entry.
#[verifier::external_body]
pub(crate) fn store_new() -> (m: RecordMap)
    ensures
        live_entries(m) == Seq::<(SortKey, RecordViewValue)>::empty(),
{
    LiqueMap::new()
}

/// Relies on LiqueMap::insert: the map then holds `v` at `k` and is
/// otherwise unchanged, and its entries stay in key order.
#[verifier::external_body]
pub(crate) fn store_insert(m: &mut RecordMap, k: SortKey, v: RecordViewValue)
    ensures
        records_of(*final(m)) == records_of(*old(m)).insert(k, v),
        sorted_entries(live_entries(*final(m))),
{
    m.insert(k, v);
}

/// Relies on LiqueMap::remove: the value held at `k`, if any, is handed out
/// and the key leaves the map; where there is none the map is untouched.
#[verifier::external_body]
pub(crate) fn store_remove(m: &mut RecordMap, k: &SortKey) -> (r: Option<RecordViewValue>)
    ensures
        records_of(*final(m)) == records_of(*old(m)).remove(*k),
        sorted_entries(live_entries(*final(m))),
        r is Some <==> records_of(*old(m)).contains_key(*k),
        r is Some ==> r->0 == records_of(*old(m))[*k],
        r is None ==> live_entries(*final(m)) == live_entries(*old(m)),
{
    m.remove(k)
}

/// Relies on LiqueMap::len: the number of entries.
#[verifier::external_body]
pub(crate) fn store_len(m: &RecordMap) -> (r: usize)
    ensures
        r == live_entries(*m).len(),
{
    m.len()
}

/// Relies on LiqueMap::get_index: the entry of rank `i` in key order.
#[verifier::external_body]
pub(crate) fn store_get_index(m: &RecordMap, i: usize) -> (r: Option<(&SortKey, &RecordViewValue)>)
    ensures
        r is Some <==> i < live_entries(*m).len(),
        r is Some ==> *(r->0).0 == live_entries(*m)[i as int].0,
        r is Some ==> *(r->0).1 == live_entries(*m)[i as int].1,
{
    m.get_index(i)
}

} // verus!
