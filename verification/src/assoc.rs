//! Ordered association lists keyed by text: the mathematical model of a
//! resource (property to value) and of a store (subject to resource).
//!
//! An entry keeps the place at which its key was first put; putting a key
//! again replaces the value in place.

use vstd::prelude::*;

verus! {

/// The values of one subject: pairs of a property and a raw value, as text.
pub type Pairs = Seq<(Seq<char>, Seq<char>)>;

/// The resources of a store: pairs of a subject and its values, as text.
pub type Resources = Seq<(Seq<char>, Pairs)>;

/// Some entry of `entries` has the key `key`.
pub open spec fn has_key<V>(entries: Seq<(Seq<char>, V)>, key: Seq<char>) -> bool {
    exists|i: int| 0 <= i < entries.len() && (#[trigger] entries[i]).0 == key
}

/// An index at which `key` stands; the only one where the keys are distinct.
pub open spec fn position<V>(entries: Seq<(Seq<char>, V)>, key: Seq<char>) -> int {
    choose|i: int| 0 <= i < entries.len() && (#[trigger] entries[i]).0 == key
}

/// The value stored under `key`, if any.
pub open spec fn lookup<V>(entries: Seq<(Seq<char>, V)>, key: Seq<char>) -> Option<V> {
    if has_key(entries, key) {
        Some(entries[position(entries, key)].1)
    } else {
        None
    }
}

/// `entries` with `key` bound to `value`: replaced in place, or added at the end.
pub open spec fn put<V>(entries: Seq<(Seq<char>, V)>, key: Seq<char>, value: V) -> Seq<
    (Seq<char>, V),
> {
    if has_key(entries, key) {
        entries.update(position(entries, key), (key, value))
    } else {
        entries.push((key, value))
    }
}

/// No key occurs twice.
pub open spec fn distinct_keys<V>(entries: Seq<(Seq<char>, V)>) -> bool {
    forall|i: int, j: int|
        0 <= i < j < entries.len() ==> (#[trigger] entries[i]).0 != (#[trigger] entries[j]).0
}

/// Where the keys are distinct, a key found at `i` has position `i`.
pub proof fn lemma_position_unique<V>(entries: Seq<(Seq<char>, V)>, i: int)
    requires
        distinct_keys(entries),
        0 <= i < entries.len(),
    ensures
        has_key(entries, entries[i].0),
        position(entries, entries[i].0) == i,
        lookup(entries, entries[i].0) == Some(entries[i].1),
{
    let key = entries[i].0;
    let p = position(entries, key);
    assert(0 <= p < entries.len() && entries[p].0 == key);
    if p < i {
        assert(entries[p].0 != entries[i].0);
    } else if i < p {
        assert(entries[i].0 != entries[p].0);
    }
}

/// Putting a binding keeps the keys distinct, and the binding can be read back.
pub proof fn lemma_put<V>(entries: Seq<(Seq<char>, V)>, key: Seq<char>, value: V)
    requires
        distinct_keys(entries),
    ensures
        distinct_keys(put(entries, key, value)),
        lookup(put(entries, key, value), key) == Some(value),
        forall|other: Seq<char>|
            other != key ==> lookup(put(entries, key, value), other) == lookup(entries, other),
        forall|other: Seq<char>|
            has_key(put(entries, key, value), other) <==> (other == key || has_key(entries, other)),
{
    let after = put(entries, key, value);
    if has_key(entries, key) {
        let p = position(entries, key);
        assert(0 <= p < entries.len() && entries[p].0 == key);
        assert forall|i: int, j: int| 0 <= i < j < after.len() implies (#[trigger] after[i]).0 != (
        #[trigger] after[j]).0 by {
            assert(after[i].0 == entries[i].0);
            assert(after[j].0 == entries[j].0);
        }
        lemma_position_unique(after, p);
        assert forall|other: Seq<char>| has_key(after, other) <==> (other == key || has_key(
            entries,
            other,
        )) by {
            if has_key(after, other) {
                let q = position(after, other);
                assert(entries[q].0 == after[q].0);
            }
            if has_key(entries, other) {
                let q = position(entries, other);
                assert(after[q].0 == entries[q].0);
            }
        }
        assert forall|other: Seq<char>| other != key implies lookup(after, other) == lookup(
            entries,
            other,
        ) by {
            if has_key(entries, other) {
                let q = position(entries, other);
                assert(0 <= q < entries.len() && entries[q].0 == other);
                lemma_position_unique(entries, q);
                assert(after[q] == entries[q]);
                lemma_position_unique(after, q);
            }
        }
    } else {
        let n = entries.len() as int;
        assert forall|i: int, j: int| 0 <= i < j < after.len() implies (#[trigger] after[i]).0 != (
        #[trigger] after[j]).0 by {
            if j < n {
                assert(after[i].0 == entries[i].0 && after[j].0 == entries[j].0);
            } else {
                assert(after[i] == entries[i]);
                assert(entries[i].0 != key);
            }
        }
        lemma_position_unique(after, n);
        assert forall|other: Seq<char>| has_key(after, other) <==> (other == key || has_key(
            entries,
            other,
        )) by {
            if has_key(after, other) {
                let q = position(after, other);
                if q < n {
                    assert(entries[q].0 == after[q].0);
                }
            }
            if has_key(entries, other) {
                let q = position(entries, other);
                assert(after[q].0 == entries[q].0);
            }
        }
        assert forall|other: Seq<char>| other != key implies lookup(after, other) == lookup(
            entries,
            other,
        ) by {
            if has_key(entries, other) {
                let q = position(entries, other);
                assert(0 <= q < entries.len() && entries[q].0 == other);
                lemma_position_unique(entries, q);
                assert(after[q] == entries[q]);
                lemma_position_unique(after, q);
            }
        }
    }
}

} // verus!
