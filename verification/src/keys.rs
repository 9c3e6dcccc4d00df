//! Tests on a list of fingerprints before a filter is built from it.

use vstd::prelude::*;
use std::collections::HashSet;

verus! {

broadcast use vstd::std_specs::hash::group_hash_axioms;

/// Whether each key is greater than the one before it.
pub open spec fn ascending(keys: Seq<u64>) -> bool {
    forall|i: int, j: int| 0 <= i < j < keys.len() ==> keys[i] < keys[j]
}

/// Keys in ascending order are distinct.
pub proof fn lemma_ascending_distinct(keys: Seq<u64>)
    requires
        ascending(keys),
    ensures
        keys.no_duplicates(),
{
    assert forall|i: int, j: int| 0 <= i < keys.len() && 0 <= j < keys.len() && i != j implies keys[i]
        != keys[j] by {
        if i < j {
            assert(keys[i] < keys[j]);
        } else {
            assert(keys[j] < keys[i]);
        }
    }
}

/// Whether each key is greater than the one before it, in one pass.
pub fn strictly_ascending(keys: &Vec<u64>) -> (r: bool)
    ensures
        r == ascending(keys@),
{
    let mut i: usize = 1;
    while i < keys.len()
        invariant
            1 <= i,
            ascending(keys@.subrange(0, if i <= keys@.len() { i as int } else { keys@.len() as int })),
        decreases keys.len() - i,
    {
        if keys[i - 1] >= keys[i] {
            return false;
        }
        proof {
            let before = keys@.subrange(0, i as int);
            let after = keys@.subrange(0, i + 1);
            assert forall|a: int, b: int| 0 <= a < b < after.len() implies after[a] < after[b] by {
                if b < i {
                    assert(before[a] < before[b]);
                } else if a < i - 1 {
                    assert(before[a] < before[i - 1]);
                }
            }
        }
        i = i + 1;
    }
    proof {
        if keys@.len() >= 1 {
            assert(keys@.subrange(0, keys@.len() as int) =~= keys@);
        }
    }
    true
}

/// Whether no key occurs twice. A list in ascending order, as a sorted
/// corpus gives it, is passed in one walk and without memory of its own;
/// any other list is entered into a set key by key.
pub fn all_distinct(keys: &Vec<u64>) -> (r: bool)
    ensures
        r == keys@.no_duplicates(),
{
    if strictly_ascending(keys) {
        proof {
            lemma_ascending_distinct(keys@);
        }
        return true;
    }
    let mut seen: HashSet<u64> = HashSet::new();
    let mut i: usize = 0;
    while i < keys.len()
        invariant
            i <= keys.len(),
            keys@.subrange(0, i as int).no_duplicates(),
            forall|k: u64| seen@.contains(k) <==> exists|j: int| 0 <= j < i && keys@[j] == k,
        decreases keys.len() - i,
    {
        let key: u64 = keys[i];
        let fresh: bool = seen.insert(key);
        if !fresh {
            proof {
                let j = choose|j: int| 0 <= j < i && keys@[j] == key;
                assert(keys@[j] == keys@[i as int] && j != i);
            }
            return false;
        }
        proof {
            let before = keys@.subrange(0, i as int);
            let after = keys@.subrange(0, i + 1);
            assert forall|a: int, b: int|
                0 <= a < after.len() && 0 <= b < after.len() && a != b implies after[a]
                != after[b] by {
                if a < i && b < i {
                    assert(before[a] != before[b]);
                }
            }
            assert forall|k: u64| seen@.contains(k) <==> exists|j: int|
                0 <= j < i + 1 && keys@[j] == k by {
                if k == key {
                    assert(keys@[i as int] == k);
                }
            }
        }
        i = i + 1;
    }
    proof {
        assert(keys@.subrange(0, keys@.len() as int) =~= keys@);
    }
    true
}

} // verus!
