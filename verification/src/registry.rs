//! Ordered association tables keyed by `u64` identifiers.
//!
//! The sink registries and the asset store keep their entries in a vector of
//! key/value pairs with pairwise-distinct keys, so that one structure gives
//! both the mapping (which entry a key controls) and the order in which
//! entries were installed.

use vstd::prelude::*;

verus! {

/// The keys of an entry sequence, in entry order.
pub open spec fn entry_keys<V>(entries: Seq<(u64, V)>) -> Seq<u64> {
    entries.map_values(|e: (u64, V)| e.0)
}

/// No two entries share a key.
pub open spec fn distinct_keys<V>(entries: Seq<(u64, V)>) -> bool {
    forall|i: int, j: int|
        0 <= i < j < entries.len() ==> (#[trigger] entries[i]).0 != (#[trigger] entries[j]).0
}

/// The mapping that an entry sequence denotes; a later entry wins, though
/// with distinct keys there is nothing to win.
pub open spec fn entries_map<V>(entries: Seq<(u64, V)>) -> Map<u64, V>
    decreases entries.len(),
{
    if entries.len() == 0 {
        Map::empty()
    } else {
        entries_map(entries.drop_last()).insert(entries.last().0, entries.last().1)
    }
}

/// A key is in the mapping exactly when some entry carries it.
pub proof fn lemma_entries_map_domain<V>(entries: Seq<(u64, V)>)
    ensures
        forall|k: u64| #[trigger]
            entries_map(entries).contains_key(k) <==> (exists|i: int|
                0 <= i < entries.len() && (#[trigger] entries[i]).0 == k),
    decreases entries.len(),
{
    if entries.len() > 0 {
        lemma_entries_map_domain(entries.drop_last());
        assert forall|k: u64| #[trigger] entries_map(entries).contains_key(k) implies (exists|i: int|
            0 <= i < entries.len() && (#[trigger] entries[i]).0 == k) by {
            if k == entries.last().0 {
                assert(entries[entries.len() - 1].0 == k);
            } else {
                assert(entries_map(entries.drop_last()).contains_key(k));
                let i = choose|i: int|
                    0 <= i < entries.drop_last().len() && (#[trigger] entries.drop_last()[i]).0 == k;
                assert(entries.drop_last()[i] == entries[i]);
                assert(entries[i].0 == k);
            }
        }
        assert forall|k: u64|
            (exists|i: int|
                0 <= i < entries.len() && (#[trigger] entries[i]).0 == k) implies #[trigger]
        entries_map(entries).contains_key(k) by {
            let i = choose|i: int| 0 <= i < entries.len() && (#[trigger] entries[i]).0 == k;
            if i < entries.len() - 1 {
                assert(entries.drop_last()[i] == entries[i]);
                assert(exists|j: int|
                    0 <= j < entries.drop_last().len() && (#[trigger] entries.drop_last()[j]).0
                        == k);
                assert(entries_map(entries.drop_last()).contains_key(k));
            }
        }
    }
}

/// With distinct keys, the entry at index `i` is what its key maps to.
pub proof fn lemma_entries_map_index<V>(entries: Seq<(u64, V)>, i: int)
    requires
        distinct_keys(entries),
        0 <= i < entries.len(),
    ensures
        entries_map(entries).contains_key(entries[i].0),
        entries_map(entries)[entries[i].0] == entries[i].1,
    decreases entries.len(),
{
    if i < entries.len() - 1 {
        lemma_entries_map_index(entries.drop_last(), i);
        assert(entries.drop_last()[i] == entries[i]);
        assert(entries[entries.len() - 1].0 != entries[i].0);
    }
}

/// Appending an entry appends its key and inserts it into the mapping.
pub proof fn lemma_entries_map_push<V>(entries: Seq<(u64, V)>, k: u64, v: V)
    ensures
        entries_map(entries.push((k, v))) == entries_map(entries).insert(k, v),
        entry_keys(entries.push((k, v))) == entry_keys(entries).push(k),
{
    assert(entries.push((k, v)).drop_last() =~= entries);
    assert(entry_keys(entries.push((k, v))) =~= entry_keys(entries).push(k));
}

/// Replacing the value at index `i`, key kept, updates the mapping at that
/// key and nothing else.
pub proof fn lemma_entries_map_update<V>(entries: Seq<(u64, V)>, i: int, v: V)
    requires
        distinct_keys(entries),
        0 <= i < entries.len(),
    ensures
        entries_map(entries.update(i, (entries[i].0, v))) == entries_map(entries).insert(
            entries[i].0,
            v,
        ),
        distinct_keys(entries.update(i, (entries[i].0, v))),
        entry_keys(entries.update(i, (entries[i].0, v))) == entry_keys(entries),
    decreases entries.len(),
{
    let updated = entries.update(i, (entries[i].0, v));
    assert(entry_keys(updated) =~= entry_keys(entries));
    if i == entries.len() - 1 {
        assert(updated.drop_last() =~= entries.drop_last());
        assert(entries_map(updated) =~= entries_map(entries).insert(entries[i].0, v));
    } else {
        lemma_entries_map_update(entries.drop_last(), i, v);
        assert(updated.drop_last() =~= entries.drop_last().update(i, (entries[i].0, v)));
        assert(entries.drop_last()[i] == entries[i]);
        assert(updated.last() == entries.last());
        assert(entries.last().0 != entries[i].0);
        assert(entries_map(updated) =~= entries_map(entries).insert(entries[i].0, v));
    }
}

/// Find the index of the entry carrying `id`, if any entry does.
pub fn find_entry<V>(entries: &Vec<(u64, V)>, id: u64) -> (found: Option<usize>)
    ensures
        match found {
            Some(i) => i < entries.len() && entries@[i as int].0 == id,
            None => forall|j: int| 0 <= j < entries@.len() ==> (#[trigger] entries@[j]).0 != id,
        },
{
    let mut i: usize = 0;
    while i < entries.len()
        invariant
            i <= entries.len(),
            forall|j: int| 0 <= j < i ==> (#[trigger] entries@[j]).0 != id,
        decreases entries.len() - i,
    {
        if entries[i].0 == id {
            return Some(i);
        }
        i += 1;
    }
    None
}

} // verus!
