//! Lists of entries under 32-byte keys: what a key holds, and how an entry is
//! put in place.
//!
//! Both the storage of a contract and the store of all contracts are such
//! lists. A key holds the value of the first entry that has it; an entry that
//! is put under a key takes the place of that one.

use crate::contract::H256;
use vstd::prelude::*;

verus! {

/// The keys of `entries`, in order.
pub open spec fn keys_of<V>(entries: Seq<(Seq<u8>, V)>) -> Seq<Seq<u8>> {
    entries.map_values(|e: (Seq<u8>, V)| e.0)
}

/// What a list of entries holds under `key`: the value of the first entry
/// with that key.
pub open spec fn lookup<V>(entries: Seq<(Seq<u8>, V)>, key: Seq<u8>) -> Option<V> {
    match keys_of(entries).index_of_first(key) {
        Some(i) => Some(entries[i].1),
        None => None,
    }
}

/// The list after `value` is put under `key`: it takes the place of the
/// first entry with that key, or goes to the end where there is none.
pub open spec fn put<V>(entries: Seq<(Seq<u8>, V)>, key: Seq<u8>, value: V) -> Seq<(Seq<u8>, V)> {
    match keys_of(entries).index_of_first(key) {
        Some(i) => entries.update(i, (key, value)),
        None => entries.push((key, value)),
    }
}

/// The entry at `i` is the first one under `key`.
pub open spec fn first_at<V>(entries: Seq<(Seq<u8>, V)>, key: Seq<u8>, i: int) -> bool {
    &&& 0 <= i < entries.len()
    &&& entries[i].0 == key
    &&& forall|j: int| 0 <= j < i ==> entries[j].0 != key
}

/// Where the first entry under `key` is at `i`, a search finds it there.
pub proof fn lemma_found<V>(entries: Seq<(Seq<u8>, V)>, key: Seq<u8>, i: int)
    requires
        first_at(entries, key, i),
    ensures
        keys_of(entries).index_of_first(key) == Some(i),
        lookup(entries, key) == Some(entries[i].1),
{
    let keys = keys_of(entries);
    assert(keys[i] == key);
    assert(keys.contains(key));
    keys.index_of_first_ensures(key);
    let found = keys.index_of_first(key).unwrap();
    assert(keys[found] == key);
    if found < i {
        assert(entries[found].0 != key);
    }
    if i < found {
        assert(keys[i] != key);
    }
}

/// Where no entry is under `key`, a search finds nothing.
pub proof fn lemma_absent<V>(entries: Seq<(Seq<u8>, V)>, key: Seq<u8>)
    requires
        forall|j: int| 0 <= j < entries.len() ==> entries[j].0 != key,
    ensures
        keys_of(entries).index_of_first(key) is None,
        lookup(entries, key) is None,
{
    let keys = keys_of(entries);
    keys.index_of_first_ensures(key);
    if keys.contains(key) {
        let i = choose|i: int| 0 <= i < keys.len() && keys[i] == key;
        assert(entries[i].0 != key);
    }
}

/// A search that finds an entry finds the first one under the key, and one
/// that finds nothing means that no entry has it.
pub proof fn lemma_search<V>(entries: Seq<(Seq<u8>, V)>, key: Seq<u8>)
    ensures
        match keys_of(entries).index_of_first(key) {
            Some(i) => first_at(entries, key, i),
            None => forall|j: int| 0 <= j < entries.len() ==> entries[j].0 != key,
        },
{
    let keys = keys_of(entries);
    keys.index_of_first_ensures(key);
    match keys.index_of_first(key) {
        Some(i) => {
            assert(keys[i] == key);
            assert forall|j: int| 0 <= j < i implies entries[j].0 != key by {
                assert(keys[j] != key);
            }
        },
        None => {
            assert forall|j: int| 0 <= j < entries.len() implies entries[j].0 != key by {
                assert(keys[j] == entries[j].0);
                if entries[j].0 == key {
                    assert(keys.contains(key));
                }
            }
        },
    }
}

/// After `value` is put under `key` it is found there, and every other key
/// holds what it held.
pub proof fn lemma_put<V>(entries: Seq<(Seq<u8>, V)>, key: Seq<u8>, value: V, other: Seq<u8>)
    ensures
        lookup(put(entries, key, value), key) == Some(value),
        other != key ==> lookup(put(entries, key, value), other) == lookup(entries, other),
{
    let after = put(entries, key, value);
    lemma_search(entries, key);
    match keys_of(entries).index_of_first(key) {
        Some(i) => {
            assert(first_at(after, key, i));
            lemma_found(after, key, i);
        },
        None => {
            assert(first_at(after, key, entries.len() as int));
            lemma_found(after, key, entries.len() as int);
        },
    }
    if other != key {
        lemma_search(entries, other);
        match keys_of(entries).index_of_first(other) {
            Some(k) => {
                assert(first_at(after, other, k));
                lemma_found(after, other, k);
            },
            None => {
                assert forall|j: int| 0 <= j < after.len() implies after[j].0 != other by {
                    if j < entries.len() {
                        assert(entries[j].0 != other);
                    }
                }
                lemma_absent(after, other);
            },
        }
    }
}

/// Putting a value under a key that is there changes no key and adds no
/// entry; under a key that is not there, it adds that key at the end.
pub proof fn lemma_put_keys<V>(entries: Seq<(Seq<u8>, V)>, key: Seq<u8>, value: V)
    ensures
        lookup(entries, key) is Some ==> keys_of(put(entries, key, value)) == keys_of(entries),
        lookup(entries, key) is None ==> keys_of(put(entries, key, value)) == keys_of(
            entries,
        ).push(key),
{
    let after = put(entries, key, value);
    lemma_search(entries, key);
    match keys_of(entries).index_of_first(key) {
        Some(k) => {
            assert(keys_of(after) =~= keys_of(entries));
        },
        None => {
            assert(keys_of(after) =~= keys_of(entries).push(key));
        },
    }
}

/// No key occurs twice in `entries`.
pub open spec fn unique<V>(entries: Seq<(Seq<u8>, V)>) -> bool {
    forall|i: int, j: int| 0 <= i < j < entries.len() ==> entries[i].0 != entries[j].0
}

/// Putting a value under a key keeps the keys apart: where no key occurred
/// twice, none does afterwards.
pub proof fn lemma_put_unique<V>(entries: Seq<(Seq<u8>, V)>, key: Seq<u8>, value: V)
    requires
        unique(entries),
    ensures
        unique(put(entries, key, value)),
{
    let after = put(entries, key, value);
    lemma_search(entries, key);
    match keys_of(entries).index_of_first(key) {
        Some(k) => {
            assert forall|i: int, j: int| 0 <= i < j < after.len() implies after[i].0
                != after[j].0 by {
                assert(after[i].0 == entries[i].0);
                assert(after[j].0 == entries[j].0);
            }
        },
        None => {
            assert forall|i: int, j: int| 0 <= i < j < after.len() implies after[i].0
                != after[j].0 by {
                if j < entries.len() {
                    assert(after[i].0 == entries[i].0);
                    assert(after[j].0 == entries[j].0);
                } else {
                    assert(entries[i].0 != key);
                }
            }
        },
    }
}

/// Where no key occurs twice, the entry that a search finds is the only one
/// under its key.
pub proof fn lemma_unique_entry<V>(entries: Seq<(Seq<u8>, V)>, key: Seq<u8>, i: int, j: int)
    requires
        unique(entries),
        0 <= i < entries.len(),
        0 <= j < entries.len(),
        entries[i].0 == key,
        entries[j].0 == key,
    ensures
        i == j,
        lookup(entries, key) == Some(entries[i].1),
{
    if i < j {
        assert(entries[i].0 != entries[j].0);
    }
    if j < i {
        assert(entries[j].0 != entries[i].0);
    }
    assert(first_at(entries, key, i)) by {
        assert forall|k: int| 0 <= k < i implies entries[k].0 != key by {
            assert(entries[k].0 != entries[i].0);
        }
    }
    lemma_found(entries, key, i);
}

/// Whether no identifier occurs twice in `ids`.
pub fn distinct(ids: &Vec<H256>) -> (r: bool)
    ensures
        r == (forall|i: int, j: int| 0 <= i < j < ids@.len() ==> ids@[i]@ != ids@[j]@),
{
    let mut j: usize = 0;
    while j < ids.len()
        invariant
            j <= ids@.len(),
            forall|a: int, b: int| 0 <= a < b < j ==> ids@[a]@ != ids@[b]@,
        decreases ids@.len() - j,
    {
        let mut i: usize = 0;
        while i < j
            invariant
                i <= j < ids@.len(),
                forall|a: int| 0 <= a < i ==> ids@[a]@ != ids@[j as int]@,
            decreases j - i,
        {
            if ids[i].same(&ids[j]) {
                return false;
            }
            i = i + 1;
        }
        j = j + 1;
    }
    true
}

} // verus!
