//! Lists of key-value pairs read as finite maps.
//!
//! A list in which no key occurs twice stands for the map that sends each
//! key to the value beside it.

use vstd::prelude::*;

verus! {

/// No key occurs twice.
pub open spec fn distinct_keys<K, V>(entries: Seq<(K, V)>) -> bool {
    forall|i: int, j: int|
        0 <= i < j < entries.len() ==> (#[trigger] entries[i]).0 != (#[trigger] entries[j]).0
}

/// Some entry has the key.
pub open spec fn has_key<K, V>(entries: Seq<(K, V)>, key: K) -> bool {
    exists|i: int| 0 <= i < entries.len() && (#[trigger] entries[i]).0 == key
}

/// An index at which the key stands.
pub open spec fn index_of<K, V>(entries: Seq<(K, V)>, key: K) -> int {
    choose|i: int| 0 <= i < entries.len() && (#[trigger] entries[i]).0 == key
}

/// The map that the list stands for.
pub open spec fn to_map<K, V>(entries: Seq<(K, V)>) -> Map<K, V> {
    Map::new(|key: K| has_key(entries, key), |key: K| entries[index_of(entries, key)].1)
}

/// The entry at `at` is what the map holds for its key.
pub proof fn lemma_found<K, V>(entries: Seq<(K, V)>, at: int)
    requires
        distinct_keys(entries),
        0 <= at < entries.len(),
    ensures
        to_map(entries).contains_key(entries[at].0),
        to_map(entries)[entries[at].0] == entries[at].1,
{
    let key = entries[at].0;
    assert(has_key(entries, key));
    let found = index_of(entries, key);
    assert(entries[found].0 == entries[at].0);
    if found < at {
        assert(entries[found].0 != entries[at].0);
    } else if at < found {
        assert(entries[at].0 != entries[found].0);
    }
}

/// A key that stands at no index is outside the map.
pub proof fn lemma_absent<K, V>(entries: Seq<(K, V)>, key: K)
    requires
        forall|i: int| 0 <= i < entries.len() ==> (#[trigger] entries[i]).0 != key,
    ensures
        !to_map(entries).contains_key(key),
{
}

/// The empty list stands for the empty map.
pub proof fn lemma_empty<K, V>()
    ensures
        to_map(Seq::<(K, V)>::empty()) == Map::<K, V>::empty(),
        distinct_keys(Seq::<(K, V)>::empty()),
{
    assert(to_map(Seq::<(K, V)>::empty()) =~= Map::<K, V>::empty());
}

/// Appending an entry under a new key inserts it into the map.
pub proof fn lemma_push<K, V>(entries: Seq<(K, V)>, key: K, value: V)
    requires
        distinct_keys(entries),
        !has_key(entries, key),
    ensures
        distinct_keys(entries.push((key, value))),
        to_map(entries.push((key, value))) == to_map(entries).insert(key, value),
{
    let longer = entries.push((key, value));
    assert forall|i: int, j: int| 0 <= i < j < longer.len() implies (#[trigger] longer[i]).0 != (
    #[trigger] longer[j]).0 by {
        if j < entries.len() {
            assert(entries[i].0 != entries[j].0);
        } else {
            assert(entries[i].0 != key);
        }
    }
    assert forall|k: K| #[trigger]
        to_map(longer).contains_key(k) == to_map(entries).insert(key, value).contains_key(k) by {
        if has_key(entries, k) {
            let i = index_of(entries, k);
            assert(longer[i].0 == k);
        }
        if has_key(longer, k) && k != key {
            let i = index_of(longer, k);
            assert(entries[i].0 == k);
        }
        if k == key {
            assert(longer[entries.len() as int].0 == k);
        }
    }
    assert forall|k: K| #[trigger] to_map(longer).contains_key(k) implies to_map(longer)[k]
        == to_map(entries).insert(key, value)[k] by {
        let i = index_of(longer, k);
        lemma_found(longer, i);
        if k != key {
            assert(entries[i].0 == k);
            lemma_found(entries, i);
        }
    }
    assert(to_map(longer) =~= to_map(entries).insert(key, value));
}

/// Replacing the value beside a key updates the map at that key.
pub proof fn lemma_update<K, V>(entries: Seq<(K, V)>, at: int, key: K, value: V)
    requires
        distinct_keys(entries),
        0 <= at < entries.len(),
        entries[at].0 == key,
    ensures
        distinct_keys(entries.update(at, (key, value))),
        to_map(entries.update(at, (key, value))) == to_map(entries).insert(key, value),
{
    let changed = entries.update(at, (key, value));
    assert forall|i: int, j: int| 0 <= i < j < changed.len() implies (#[trigger] changed[i]).0 != (
    #[trigger] changed[j]).0 by {
        assert(entries[i].0 != entries[j].0);
    }
    assert forall|k: K| #[trigger]
        to_map(changed).contains_key(k) == to_map(entries).insert(key, value).contains_key(k) by {
        if has_key(entries, k) {
            let i = index_of(entries, k);
            assert(changed[i].0 == k);
        }
        if has_key(changed, k) {
            let i = index_of(changed, k);
            assert(entries[i].0 == k);
        }
        if k == key {
            assert(changed[at].0 == k);
        }
    }
    assert forall|k: K| #[trigger] to_map(changed).contains_key(k) implies to_map(changed)[k]
        == to_map(entries).insert(key, value)[k] by {
        let i = index_of(changed, k);
        lemma_found(changed, i);
        assert(entries[i].0 == k);
        lemma_found(entries, i);
    }
    assert(to_map(changed) =~= to_map(entries).insert(key, value));
}

} // verus!
