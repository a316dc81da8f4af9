//! Grouping of benchmark results for the conclusions: which results share a
//! given dimension or window size.

use vstd::prelude::*;

verus! {

/// The positions `i < upto` with `keys[i] == key`, in increasing order.
pub open spec fn positions_of(keys: Seq<usize>, key: usize, upto: int) -> Seq<usize>
    decreases upto,
{
    if upto <= 0 {
        Seq::empty()
    } else {
        let rest = positions_of(keys, key, upto - 1);
        if keys[upto - 1] == key {
            rest.push((upto - 1) as usize)
        } else {
            rest
        }
    }
}

/// The positions of the results whose key (a dimension or a window size)
/// equals `key`, in increasing order.
pub fn positions_with(keys: &Vec<usize>, key: usize) -> (positions: Vec<usize>)
    ensures
        positions@ == positions_of(keys@, key, keys@.len() as int),
{
    let mut positions: Vec<usize> = Vec::new();
    let mut i: usize = 0;
    while i < keys.len()
        invariant
            i <= keys@.len(),
            positions@ == positions_of(keys@, key, i as int),
        decreases keys@.len() - i,
    {
        if keys[i] == key {
            positions.push(i);
        }
        i = i + 1;
    }
    positions
}

/// A position is listed exactly when its key matches, and the list is strictly
/// increasing, so no result is counted twice.
pub proof fn lemma_positions_exact(keys: Seq<usize>, key: usize, upto: int)
    requires
        0 <= upto <= keys.len(),
        keys.len() <= usize::MAX,
    ensures
        forall|i: int|
            0 <= i < upto ==> (positions_of(keys, key, upto).contains(i as usize) <==> keys[i]
                == key),
        forall|a: int, b: int|
            0 <= a < b < positions_of(keys, key, upto).len() ==> positions_of(keys, key, upto)[a]
                < positions_of(keys, key, upto)[b],
        forall|a: int|
            0 <= a < positions_of(keys, key, upto).len() ==> positions_of(keys, key, upto)[a]
                < upto,
    decreases upto,
{
    if upto > 0 {
        lemma_positions_exact(keys, key, upto - 1);
        let rest = positions_of(keys, key, upto - 1);
        let all = positions_of(keys, key, upto);
        assert forall|i: int| 0 <= i < upto implies (all.contains(i as usize) <==> keys[i]
            == key) by {
            if i < upto - 1 {
                if all.contains(i as usize) {
                    let k = choose|k: int| 0 <= k < all.len() && all[k] == i as usize;
                    if k < rest.len() {
                        assert(all[k] == rest[k]);
                    }
                }
                if rest.contains(i as usize) {
                    let k = choose|k: int| 0 <= k < rest.len() && rest[k] == i as usize;
                    assert(all[k] == rest[k]);
                }
            } else {
                if keys[i] == key {
                    assert(all[rest.len() as int] == i as usize);
                } else if all.contains(i as usize) {
                    let k = choose|k: int| 0 <= k < all.len() && all[k] == i as usize;
                    assert(all[k] == rest[k]);
                }
            }
        }
    }
}

} // verus!
