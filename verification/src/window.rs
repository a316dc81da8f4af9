//! The rolling window of the moving-average predictor: the positions, most
//! recent first, of the perceptions that the next prediction averages.

use vstd::prelude::*;

verus! {

/// How many perceptions a window of `width` covers in a column of `len` entries.
pub open spec fn window_len(len: int, width: int) -> int {
    if width < len {
        width
    } else {
        len
    }
}

/// The positions the window covers, most recent first: `len - 1`, `len - 2`, ...
pub open spec fn window_positions(len: int, width: int) -> Seq<int> {
    Seq::new(window_len(len, width) as nat, |k: int| len - 1 - k)
}

/// The positions, most recent first, of the last `width` entries of a column of
/// `len` entries (all of them when there are fewer).
pub fn window_indices(len: usize, width: usize) -> (positions: Vec<usize>)
    ensures
        positions@.len() == window_len(len as int, width as int),
        forall|k: int|
            0 <= k < positions@.len() ==> positions@[k] as int == window_positions(
                len as int,
                width as int,
            )[k],
        width <= len ==> positions@.len() == width,
        len <= width ==> positions@.len() == len,
        forall|k: int| 0 <= k < positions@.len() ==> positions@[k] as int == len - 1 - k,
{
    let count = if width < len {
        width
    } else {
        len
    };
    let mut positions: Vec<usize> = Vec::new();
    let mut k: usize = 0;
    while k < count
        invariant
            count == window_len(len as int, width as int),
            count <= len,
            k <= count,
            positions@.len() == k,
            forall|j: int| 0 <= j < k ==> positions@[j] as int == len - 1 - j,
        decreases count - k,
    {
        positions.push(len - 1 - k);
        k = k + 1;
    }
    positions
}

/// The window is empty exactly when the column is empty or the width is zero;
/// the predictor then falls back to the zero vector.
pub proof fn lemma_window_empty(len: int, width: int)
    requires
        0 <= len,
        0 <= width,
    ensures
        (window_positions(len, width).len() == 0) <==> (len == 0 || width == 0),
{
}

/// The window covers exactly the most recent `min(width, len)` positions of
/// the column, each once, and never more than `width` of them.
pub proof fn lemma_window_is_suffix(len: int, width: int)
    requires
        0 <= len,
        0 <= width,
    ensures
        window_positions(len, width).len() <= width,
        window_positions(len, width).len() <= len,
        forall|i: int|
            window_positions(len, width).contains(i) <==> len - window_len(len, width) <= i < len,
        forall|a: int, b: int|
            0 <= a < b < window_positions(len, width).len() ==> window_positions(len, width)[a]
                > window_positions(len, width)[b],
{
    let w = window_positions(len, width);
    assert forall|i: int| w.contains(i) <==> len - window_len(len, width) <= i < len by {
        if len - window_len(len, width) <= i < len {
            assert(w[len - 1 - i] == i);
        }
    }
}

/// The window covers `min(width, len)` positions: all `width` most recent
/// ones when the column holds at least that many, the whole column otherwise;
/// the positions are exactly `len - min(width, len)` to `len - 1`.
pub proof fn lemma_window_covers_min(len: int, width: int)
    requires
        0 <= len,
        0 <= width,
    ensures
        width <= len ==> window_positions(len, width).len() == width,
        len <= width ==> window_positions(len, width).len() == len,
        width <= len ==> forall|i: int|
            window_positions(len, width).contains(i) <==> len - width <= i < len,
        len <= width ==> forall|i: int|
            window_positions(len, width).contains(i) <==> 0 <= i < len,
        forall|k: int|
            0 <= k < window_positions(len, width).len() ==> #[trigger] window_positions(
                len,
                width,
            )[k] == len - 1 - k,
{
    lemma_window_is_suffix(len, width);
}

} // verus!
