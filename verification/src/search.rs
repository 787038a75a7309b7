//! Search by halving among keys.

use vstd::prelude::*;

verus! {

/// Whether each key is larger than the one before it.
pub open spec fn increasing(keys: Seq<nat>) -> bool {
    forall|i: int, j: int| 0 <= i < j < keys.len() ==> keys[i] < keys[j]
}

/// Where a search for `key` by halving the range `lo..hi` of `keys` ends:
/// at the middle of the range if the key is there, in the upper half if the
/// middle is smaller, in the lower half if it is larger, and nowhere in an
/// empty range.
pub open spec fn halving(keys: Seq<nat>, key: nat, lo: int, hi: int) -> Option<int>
    decreases hi - lo,
{
    if lo >= hi {
        None
    } else {
        let mid = lo + (hi - lo) / 2;
        if keys[mid] < key {
            halving(keys, key, mid + 1, hi)
        } else if keys[mid] > key {
            halving(keys, key, lo, mid)
        } else {
            Some(mid)
        }
    }
}

/// A place that halving ends at holds the key. Among increasing keys it is
/// the only such place, and halving ends nowhere only if the range does not
/// hold the key.
pub proof fn lemma_halving(keys: Seq<nat>, key: nat, lo: int, hi: int)
    requires
        0 <= lo <= hi <= keys.len(),
    ensures
        halving(keys, key, lo, hi) matches Some(i) ==> lo <= i < hi && keys[i] == key,
        increasing(keys) ==> forall|i: int|
            lo <= i < hi && keys[i] == key ==> halving(keys, key, lo, hi) == Some(i),
    decreases hi - lo,
{
    if lo < hi {
        let mid = lo + (hi - lo) / 2;
        if keys[mid] < key {
            lemma_halving(keys, key, mid + 1, hi);
        } else if keys[mid] > key {
            lemma_halving(keys, key, lo, mid);
        }
    }
}

} // verus!
