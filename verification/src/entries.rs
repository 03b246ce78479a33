//! Key/value entries as plain sequences: the mathematical side of a
//! namespace's mapping, on which the contracts of the store are stated.
use vstd::prelude::*;

verus! {

/// A list of key/value pairs.
pub type Entries = Seq<(Seq<char>, Seq<char>)>;

/// The index of the first entry under `key`, or the number of entries where there is none.
pub open spec fn position(e: Entries, key: Seq<char>) -> int
    decreases e.len(),
{
    if e.len() == 0 {
        0
    } else if e[0].0 == key {
        0
    } else {
        1 + position(e.drop_first(), key)
    }
}

/// The value of the first entry under `key`.
pub open spec fn lookup(e: Entries, key: Seq<char>) -> Option<Seq<char>> {
    if position(e, key) < e.len() {
        Some(e[position(e, key)].1)
    } else {
        None
    }
}

/// The entries with `key` set to `value`: the first entry under `key` is
/// overwritten in place, and where there is none a new entry is added at the end.
pub open spec fn insert(e: Entries, key: Seq<char>, value: Seq<char>) -> Entries {
    if position(e, key) < e.len() {
        e.update(position(e, key), (key, value))
    } else {
        e.push((key, value))
    }
}

/// No two entries share a key.
pub open spec fn distinct_keys(e: Entries) -> bool {
    forall|i: int, j: int| 0 <= i < j < e.len() ==> (#[trigger] e[i]).0 != (#[trigger] e[j]).0
}

/// The mapping that the entries stand for: each key with the value of its first entry.
pub open spec fn mapping(e: Entries) -> Map<Seq<char>, Seq<char>> {
    Map::new(|k: Seq<char>| lookup(e, k) is Some, |k: Seq<char>| lookup(e, k)->Some_0)
}

/// The entries that result from setting each pair of `raw` in turn, starting from none.
pub open spec fn collect(raw: Entries) -> Entries
    decreases raw.len(),
{
    if raw.len() == 0 {
        Seq::empty()
    } else {
        insert(collect(raw.drop_last()), raw.last().0, raw.last().1)
    }
}

/// `position` is the least index that holds the key.
pub proof fn lemma_position(e: Entries, key: Seq<char>)
    ensures
        0 <= position(e, key) <= e.len(),
        forall|j: int| 0 <= j < position(e, key) ==> (#[trigger] e[j]).0 != key,
        position(e, key) < e.len() ==> e[position(e, key)].0 == key,
    decreases e.len(),
{
    if e.len() > 0 && e[0].0 != key {
        let tail = e.drop_first();
        lemma_position(tail, key);
        assert forall|j: int| 0 <= j < position(e, key) implies (#[trigger] e[j]).0 != key by {
            if j > 0 {
                assert(e[j] == tail[j - 1]);
            }
        }
    }
}

/// An index that holds the key and has no earlier index that does is the key's position.
pub proof fn lemma_position_is(e: Entries, key: Seq<char>, i: int)
    requires
        0 <= i <= e.len(),
        forall|j: int| 0 <= j < i ==> (#[trigger] e[j]).0 != key,
        i < e.len() ==> e[i].0 == key,
    ensures
        position(e, key) == i,
{
    lemma_position(e, key);
    let p = position(e, key);
    if p < i {
        assert(e[p].0 != key);
    } else if i < p {
        assert(e[i].0 != key);
    }
}

/// With distinct keys, every entry is the one that a lookup of its key finds.
pub proof fn lemma_lookup_entry(e: Entries, i: int)
    requires
        distinct_keys(e),
        0 <= i < e.len(),
    ensures
        position(e, e[i].0) == i,
        lookup(e, e[i].0) == Some(e[i].1),
{
    lemma_position(e, e[i].0);
    let p = position(e, e[i].0);
    if p < i {
        assert(e[p].0 != e[i].0);
    }
}

/// After setting a key, a lookup of that key finds the new value and a
/// lookup of any other key finds what it found before.
pub proof fn lemma_lookup_insert(e: Entries, key: Seq<char>, value: Seq<char>, other: Seq<char>)
    ensures
        lookup(insert(e, key, value), other) == if other == key {
            Some(value)
        } else {
            lookup(e, other)
        },
{
    lemma_position(e, key);
    lemma_position(e, other);
    let e2 = insert(e, key, value);
    let p = position(e, key);
    let q = position(e, other);
    if other == key {
        lemma_position_is(e2, key, p);
    } else if q < e.len() {
        lemma_position_is(e2, other, q);
    } else {
        lemma_position_is(e2, other, e2.len() as int);
    }
}

/// Setting a key keeps the keys distinct.
pub proof fn lemma_insert_distinct(e: Entries, key: Seq<char>, value: Seq<char>)
    requires
        distinct_keys(e),
    ensures
        distinct_keys(insert(e, key, value)),
{
    lemma_position(e, key);
    let e2 = insert(e, key, value);
    let p = position(e, key);
    assert forall|i: int, j: int| 0 <= i < j < e2.len() implies (#[trigger] e2[i]).0 != (
    #[trigger] e2[j]).0 by {
        if p < e.len() {
            assert(e2[i].0 == e[i].0);
            assert(e2[j].0 == e[j].0);
        } else if j < e.len() {
            assert(e2[i] == e[i]);
            assert(e2[j] == e[j]);
        } else {
            assert(e2[i] == e[i]);
        }
    }
}

/// Setting a key changes the mapping at that key and nowhere else.
pub proof fn lemma_mapping_insert(e: Entries, key: Seq<char>, value: Seq<char>)
    ensures
        mapping(insert(e, key, value)) == mapping(e).insert(key, value),
{
    let a = mapping(insert(e, key, value));
    let b = mapping(e).insert(key, value);
    assert forall|k: Seq<char>| #[trigger] a.dom().contains(k) == b.dom().contains(k) by {
        lemma_lookup_insert(e, key, value, k);
    }
    assert forall|k: Seq<char>| a.dom().contains(k) implies #[trigger] a[k] == b[k] by {
        lemma_lookup_insert(e, key, value, k);
    }
    assert(a =~= b);
}

/// Collected entries have distinct keys.
pub proof fn lemma_collect_distinct(raw: Entries)
    ensures
        distinct_keys(collect(raw)),
    decreases raw.len(),
{
    if raw.len() > 0 {
        lemma_collect_distinct(raw.drop_last());
        lemma_insert_distinct(collect(raw.drop_last()), raw.last().0, raw.last().1);
    }
}

/// A key that a lookup finds is held by some entry, with the value found.
pub proof fn lemma_lookup_witness(e: Entries, key: Seq<char>)
    requires
        lookup(e, key) is Some,
    ensures
        0 <= position(e, key) < e.len(),
        e[position(e, key)] == (key, lookup(e, key)->Some_0),
{
    lemma_position(e, key);
}

/// Two lists that stand for the same mapping find the same under every key.
pub proof fn lemma_same_mapping(a: Entries, b: Entries, key: Seq<char>)
    requires
        mapping(a) == mapping(b),
    ensures
        lookup(a, key) == lookup(b, key),
{
    let ma = mapping(a);
    let mb = mapping(b);
    assert(ma.dom().contains(key) == mb.dom().contains(key));
    if lookup(a, key) is Some {
        assert(ma.dom().contains(key));
        assert(ma[key] == mb[key]);
    }
}

/// A lookup in a list with one more pair at its end finds what it found
/// before, and under a key that was not there the new pair's value.
pub proof fn lemma_lookup_push(e: Entries, pair: (Seq<char>, Seq<char>), key: Seq<char>)
    ensures
        lookup(e.push(pair), key) == if lookup(e, key) is Some {
            lookup(e, key)
        } else if pair.0 == key {
            Some(pair.1)
        } else {
            None
        },
{
    lemma_position(e, key);
    let p = position(e, key);
    let e2 = e.push(pair);
    if p < e.len() {
        lemma_position_is(e2, key, p);
    } else if pair.0 == key {
        lemma_position_is(e2, key, e.len() as int);
    } else {
        lemma_position_is(e2, key, e2.len() as int);
    }
}

/// Setting the pairs of a list with distinct keys, one after the other,
/// gives that very list.
pub proof fn lemma_collect_distinct_is_same(raw: Entries)
    requires
        distinct_keys(raw),
    ensures
        collect(raw) == raw,
    decreases raw.len(),
{
    if raw.len() > 0 {
        let init = raw.drop_last();
        assert forall|i: int, j: int| 0 <= i < j < init.len() implies (#[trigger] init[i]).0 != (
        #[trigger] init[j]).0 by {
            assert(init[i] == raw[i] && init[j] == raw[j]);
        }
        lemma_collect_distinct_is_same(init);
        assert forall|j: int| 0 <= j < init.len() implies (#[trigger] init[j]).0 != raw.last().0 by {
            assert(init[j] == raw[j]);
            assert(raw[raw.len() - 1] == raw.last());
        }
        lemma_position_is(init, raw.last().0, init.len() as int);
        assert(init.push(raw.last()) =~= raw);
    } else {
        assert(raw =~= Seq::<(Seq<char>, Seq<char>)>::empty());
    }
}

} // verus!
