//! Association lists.
//!
//! A small map with text keys is kept as a list of keys and a list of values
//! of the same length, in which no key stands twice. Contracts speak of the
//! map that such a pair of lists stands for.

use vstd::prelude::*;

verus! {

/// The map that takes `keys[i]` to `values[i]`.
pub open spec fn assoc<V>(keys: Seq<Seq<char>>, values: Seq<V>) -> Map<Seq<char>, V> {
    Map::new(|key: Seq<char>| keys.contains(key), |key: Seq<char>| values[keys.index_of(key)])
}

/// Where no key stands twice, a key is found at its own index.
pub proof fn lemma_index_of(keys: Seq<Seq<char>>, i: int)
    requires
        keys.no_duplicates(),
        0 <= i < keys.len(),
    ensures
        keys.contains(keys[i]),
        keys.index_of(keys[i]) == i,
{
    let j = keys.index_of(keys[i]);
    assert(0 <= j < keys.len() && keys[j] == keys[i]);
}

/// The map holds each key with the value at the key's index.
pub proof fn lemma_assoc_at<V>(keys: Seq<Seq<char>>, values: Seq<V>, i: int)
    requires
        keys.no_duplicates(),
        keys.len() == values.len(),
        0 <= i < keys.len(),
    ensures
        assoc(keys, values).contains_key(keys[i]),
        assoc(keys, values)[keys[i]] == values[i],
{
    lemma_index_of(keys, i);
}

/// A key that stands at no index is not in the map.
pub proof fn lemma_assoc_absent<V>(keys: Seq<Seq<char>>, values: Seq<V>, key: Seq<char>)
    requires
        forall|i: int| 0 <= i < keys.len() ==> keys[i] != key,
    ensures
        !assoc(keys, values).contains_key(key),
{
    if keys.contains(key) {
        let j = keys.index_of(key);
        assert(0 <= j < keys.len() && keys[j] == key);
    }
}

/// Putting a new key and its value into the lists at `at` inserts the pair
/// into the map.
pub proof fn lemma_assoc_insert<V>(
    keys: Seq<Seq<char>>,
    values: Seq<V>,
    at: int,
    key: Seq<char>,
    value: V,
)
    requires
        keys.len() == values.len(),
        0 <= at <= keys.len(),
        keys.no_duplicates(),
        !keys.contains(key),
    ensures
        keys.insert(at, key).no_duplicates(),
        assoc(keys.insert(at, key), values.insert(at, value)) == assoc(keys, values).insert(
            key,
            value,
        ),
{
    let keys2 = keys.insert(at, key);
    let values2 = values.insert(at, value);
    let lhs = assoc(keys2, values2);
    let rhs = assoc(keys, values).insert(key, value);
    assert forall|i: int, j: int| 0 <= i < keys2.len() && 0 <= j < keys2.len() && i != j implies
        keys2[i] != keys2[j] by {
        let a = if i < at {
            i
        } else {
            i - 1
        };
        let b = if j < at {
            j
        } else {
            j - 1
        };
        if i != at {
            assert(keys2[i] == keys[a]);
            assert(keys.contains(keys[a]));
        }
        if j != at {
            assert(keys2[j] == keys[b]);
            assert(keys.contains(keys[b]));
        }
    }
    assert(keys2[at] == key);
    lemma_index_of(keys2, at);
    assert forall|k: Seq<char>| lhs.dom().contains(k) == rhs.dom().contains(k) by {
        if keys2.contains(k) {
            let j = keys2.index_of(k);
            assert(0 <= j < keys2.len() && keys2[j] == k);
            if j < at {
                assert(keys[j] == k);
            } else if j > at {
                assert(keys[j - 1] == k);
            }
        }
        if keys.contains(k) {
            let j = keys.index_of(k);
            assert(0 <= j < keys.len() && keys[j] == k);
            if j < at {
                assert(keys2[j] == k);
            } else {
                assert(keys2[j + 1] == k);
            }
        }
    }
    assert forall|k: Seq<char>| lhs.dom().contains(k) implies lhs[k] == rhs[k] by {
        let j = keys2.index_of(k);
        assert(0 <= j < keys2.len() && keys2[j] == k);
        lemma_index_of(keys2, j);
        if j < at {
            assert(keys[j] == k);
            lemma_index_of(keys, j);
        } else if j > at {
            assert(keys[j - 1] == k);
            lemma_index_of(keys, j - 1);
        }
    }
    assert(lhs =~= rhs);
}

/// Replacing the value at the index of a key inserts the key with the new
/// value into the map.
pub proof fn lemma_assoc_update<V>(keys: Seq<Seq<char>>, values: Seq<V>, at: int, value: V)
    requires
        keys.len() == values.len(),
        0 <= at < keys.len(),
        keys.no_duplicates(),
    ensures
        assoc(keys, values.update(at, value)) == assoc(keys, values).insert(keys[at], value),
{
    let lhs = assoc(keys, values.update(at, value));
    let rhs = assoc(keys, values).insert(keys[at], value);
    lemma_index_of(keys, at);
    assert forall|k: Seq<char>| lhs.dom().contains(k) implies lhs[k] == rhs[k] by {
        let j = keys.index_of(k);
        assert(0 <= j < keys.len() && keys[j] == k);
        lemma_index_of(keys, j);
    }
    assert(lhs =~= rhs);
}

/// Where no key stands twice, the map has as many entries as the lists.
pub proof fn lemma_assoc_len<V>(keys: Seq<Seq<char>>, values: Seq<V>)
    requires
        keys.no_duplicates(),
    ensures
        assoc(keys, values).dom().finite(),
        assoc(keys, values).len() == keys.len(),
{
    keys.unique_seq_to_set();
    assert(assoc(keys, values).dom() =~= keys.to_set());
}

} // verus!
