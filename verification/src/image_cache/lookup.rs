//! The first place of a key in a sequence.

use vstd::prelude::*;

verus! {

/// The index of the first occurrence of `key` in `keys`, or the length of
/// `keys` where it does not occur.
pub open spec fn first_index<K>(keys: Seq<K>, key: K) -> int
    decreases keys.len(),
{
    if keys.len() == 0 {
        0
    } else if keys[0] == key {
        0
    } else {
        1 + first_index(keys.drop_first(), key)
    }
}

/// `first_index` stays within the sequence, points at the key where it
/// points at anything, and passes no occurrence of the key.
pub proof fn lemma_first_index<K>(keys: Seq<K>, key: K)
    ensures
        0 <= first_index(keys, key) <= keys.len(),
        first_index(keys, key) < keys.len() ==> keys[first_index(keys, key)] == key,
        forall|j: int| 0 <= j < first_index(keys, key) ==> keys[j] != key,
    decreases keys.len(),
{
    if keys.len() > 0 && keys[0] != key {
        let rest = keys.drop_first();
        lemma_first_index(rest, key);
        assert forall|j: int| 0 <= j < first_index(keys, key) implies keys[j] != key by {
            if j > 0 {
                assert(rest[j - 1] == keys[j]);
            }
        }
    }
}

/// An index that no occurrence of the key precedes, and that holds the key
/// or ends the sequence, is the first index of the key.
pub proof fn lemma_first_index_is<K>(keys: Seq<K>, key: K, at: int)
    requires
        0 <= at <= keys.len(),
        forall|j: int| 0 <= j < at ==> keys[j] != key,
        at < keys.len() ==> keys[at] == key,
    ensures
        first_index(keys, key) == at,
{
    lemma_first_index(keys, key);
}

} // verus!
