//! Lists of keyed entries, read as maps.
//!
//! The managers of this crate keep their records in vectors and speak of
//! them as maps. This module says which map a list of entries stands for,
//! and what pushing, replacing and removing an entry does to it.

use vstd::prelude::*;

verus! {

/// No key occurs twice among the entries.
pub open spec fn keys_distinct<K, V>(entries: Seq<(K, V)>) -> bool {
    forall|i: int, j: int|
        0 <= i < j < entries.len() ==> (#[trigger] entries[i]).0 != (#[trigger] entries[j]).0
}

/// Whether the entry at `i` is the one of `key`.
pub open spec fn keyed_at<K, V>(entries: Seq<(K, V)>, key: K, i: int) -> bool {
    0 <= i < entries.len() && entries[i].0 == key
}

/// The map that gives each key the value of its entry.
pub open spec fn as_map<K, V>(entries: Seq<(K, V)>) -> Map<K, V> {
    Map::new(
        |key: K| exists|i: int| keyed_at(entries, key, i),
        |key: K| entries[choose|i: int| keyed_at(entries, key, i)].1,
    )
}

/// With distinct keys, the map holds every entry.
pub proof fn lemma_entry<K, V>(entries: Seq<(K, V)>, i: int)
    requires
        keys_distinct(entries),
        0 <= i < entries.len(),
    ensures
        as_map(entries).contains_key(entries[i].0),
        as_map(entries)[entries[i].0] == entries[i].1,
{
    let key = entries[i].0;
    assert(keyed_at(entries, key, i));
    let j = choose|j: int| keyed_at(entries, key, j);
}

/// Every key of the map has an entry, and the map gives it the value of
/// that entry.
pub proof fn lemma_key<K, V>(entries: Seq<(K, V)>, key: K) -> (i: int)
    requires
        keys_distinct(entries),
        as_map(entries).contains_key(key),
    ensures
        keyed_at(entries, key, i),
        as_map(entries)[key] == entries[i].1,
{
    let i = choose|i: int| keyed_at(entries, key, i);
    lemma_entry(entries, i);
    i
}

/// An entry with a new key, pushed, is an insertion into the map.
pub proof fn lemma_push<K, V>(entries: Seq<(K, V)>, key: K, value: V)
    requires
        keys_distinct(entries),
        !as_map(entries).contains_key(key),
    ensures
        keys_distinct(entries.push((key, value))),
        as_map(entries.push((key, value))) == as_map(entries).insert(key, value),
{
    let after = entries.push((key, value));
    let last = entries.len() as int;
    assert forall|i: int, j: int| 0 <= i < j < after.len() implies (#[trigger] after[i]).0 != (
    #[trigger] after[j]).0 by {
        if j == last {
            assert(!keyed_at(entries, key, i));
        }
    }
    assert forall|k: K| as_map(after).contains_key(k) <==> #[trigger] as_map(entries).insert(
        key,
        value,
    ).contains_key(k) by {
        if as_map(after).contains_key(k) {
            let j = choose|j: int| keyed_at(after, k, j);
            if j != last {
                assert(keyed_at(entries, k, j));
            }
        }
        if as_map(entries).contains_key(k) {
            let j = choose|j: int| keyed_at(entries, k, j);
            assert(keyed_at(after, k, j));
        }
        if k == key {
            assert(keyed_at(after, k, last));
        }
    }
    assert forall|k: K| #[trigger] as_map(after).contains_key(k) implies as_map(after)[k]
        == as_map(entries).insert(key, value)[k] by {
        let j = lemma_key(after, k);
        if j != last {
            lemma_entry(entries, j);
        }
    }
}

/// A new value for the entry at `i` is an insertion into the map.
pub proof fn lemma_replace<K, V>(entries: Seq<(K, V)>, i: int, value: V)
    requires
        keys_distinct(entries),
        0 <= i < entries.len(),
    ensures
        keys_distinct(entries.update(i, (entries[i].0, value))),
        as_map(entries.update(i, (entries[i].0, value))) == as_map(entries).insert(
            entries[i].0,
            value,
        ),
{
    let key = entries[i].0;
    let after = entries.update(i, (key, value));
    assert forall|a: int, b: int| 0 <= a < b < after.len() implies (#[trigger] after[a]).0 != (
    #[trigger] after[b]).0 by {
    }
    assert forall|k: K| as_map(after).contains_key(k) <==> #[trigger] as_map(entries).insert(
        key,
        value,
    ).contains_key(k) by {
        if as_map(after).contains_key(k) {
            let j = choose|j: int| keyed_at(after, k, j);
            assert(keyed_at(entries, k, j));
        }
        if as_map(entries).contains_key(k) {
            let j = choose|j: int| keyed_at(entries, k, j);
            assert(keyed_at(after, k, j));
        }
        if k == key {
            assert(keyed_at(after, k, i));
        }
    }
    assert forall|k: K| #[trigger] as_map(after).contains_key(k) implies as_map(after)[k]
        == as_map(entries).insert(key, value)[k] by {
        let j = lemma_key(after, k);
        if j != i {
            lemma_entry(entries, j);
        }
    }
}

/// The entry at `i`, removed, is a removal of its key from the map.
pub proof fn lemma_remove<K, V>(entries: Seq<(K, V)>, i: int)
    requires
        keys_distinct(entries),
        0 <= i < entries.len(),
    ensures
        keys_distinct(entries.remove(i)),
        as_map(entries.remove(i)) == as_map(entries).remove(entries[i].0),
{
    let key = entries[i].0;
    let after = entries.remove(i);
    assert forall|a: int, b: int| 0 <= a < b < after.len() implies (#[trigger] after[a]).0 != (
    #[trigger] after[b]).0 by {
        let a0 = if a < i { a } else { a + 1 };
        let b0 = if b < i { b } else { b + 1 };
    }
    assert forall|k: K| as_map(after).contains_key(k) <==> #[trigger] as_map(entries).remove(
        key,
    ).contains_key(k) by {
        if as_map(after).contains_key(k) {
            let j = choose|j: int| keyed_at(after, k, j);
            let j0 = if j < i { j } else { j + 1 };
            assert(keyed_at(entries, k, j0));
        }
        if as_map(entries).contains_key(k) && k != key {
            let j = choose|j: int| keyed_at(entries, k, j);
            let j1 = if j < i { j } else { j - 1 };
            assert(keyed_at(after, k, j1));
        }
    }
    assert forall|k: K| #[trigger] as_map(after).contains_key(k) implies as_map(after)[k]
        == as_map(entries).remove(key)[k] by {
        let j = lemma_key(after, k);
        let j0 = if j < i { j } else { j + 1 };
        lemma_entry(entries, j0);
    }
}

/// A key without an entry is no key of the map.
pub proof fn lemma_absent<K, V>(entries: Seq<(K, V)>, key: K)
    requires
        forall|i: int| 0 <= i < entries.len() ==> (#[trigger] entries[i]).0 != key,
    ensures
        !as_map(entries).contains_key(key),
        as_map(entries).remove(key) == as_map(entries),
{
}

/// One function applied to the value of every entry is that function
/// applied to every value of the map.
pub proof fn lemma_map_values<K, V>(entries: Seq<(K, V)>, after: Seq<(K, V)>, f: spec_fn(V) -> V)
    requires
        keys_distinct(entries),
        after.len() == entries.len(),
        forall|i: int|
            0 <= i < entries.len() ==> #[trigger] after[i] == (entries[i].0, f(entries[i].1)),
    ensures
        keys_distinct(after),
        as_map(after) == as_map(entries).map_values(f),
{
    assert forall|a: int, b: int| 0 <= a < b < after.len() implies (#[trigger] after[a]).0 != (
    #[trigger] after[b]).0 by {
    }
    assert forall|k: K| as_map(after).contains_key(k) <==> #[trigger] as_map(entries).map_values(
        f,
    ).contains_key(k) by {
        if as_map(after).contains_key(k) {
            let j = choose|j: int| keyed_at(after, k, j);
            assert(keyed_at(entries, k, j));
        }
        if as_map(entries).contains_key(k) {
            let j = choose|j: int| keyed_at(entries, k, j);
            assert(keyed_at(after, k, j));
        }
    }
    assert forall|k: K| #[trigger] as_map(after).contains_key(k) implies as_map(after)[k]
        == as_map(entries).map_values(f)[k] by {
        let j = lemma_key(after, k);
        lemma_entry(entries, j);
    }
}

} // verus!
