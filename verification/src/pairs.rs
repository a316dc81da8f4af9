//! The room pairs over which vibe convergence is averaged: every unordered
//! pair of distinct rooms, once, in the order of the nested scan `i < j`.

use vstd::prelude::*;

verus! {

/// Row `i` of the scan: `(i, i + 1)`, `(i, i + 2)`, ..., `(i, n - 1)`.
pub open spec fn pair_row(i: int, n: int) -> Seq<(int, int)> {
    if i + 1 < n {
        Seq::new((n - i - 1) as nat, |k: int| (i, i + 1 + k))
    } else {
        Seq::empty()
    }
}

/// Rows `0` to `rows - 1` of the scan, one after the other.
pub open spec fn pairs_below(rows: int, n: int) -> Seq<(int, int)>
    decreases rows,
{
    if rows <= 0 {
        Seq::empty()
    } else {
        pairs_below(rows - 1, n) + pair_row(rows - 1, n)
    }
}

/// All pairs of `n` rooms in scan order.
pub open spec fn room_pair_seq(n: int) -> Seq<(int, int)> {
    pairs_below(n, n)
}

/// `listed` holds the pairs of `expected`, element by element.
pub open spec fn lists_pairs(listed: Seq<(usize, usize)>, expected: Seq<(int, int)>) -> bool {
    &&& listed.len() == expected.len()
    &&& forall|k: int|
        0 <= k < listed.len() ==> #[trigger] listed[k].0 as int == expected[k].0
            && listed[k].1 as int == expected[k].1
}

/// The pairs `(i, j)` with `i < j < rooms`, in the order `(0, 1), (0, 2), ...,
/// (0, rooms - 1), (1, 2), ...`.
pub fn room_pairs(rooms: usize) -> (pairs: Vec<(usize, usize)>)
    ensures
        lists_pairs(pairs@, room_pair_seq(rooms as int)),
        pairs@.len() == rooms * (rooms - 1) / 2,
        forall|k: int|
            0 <= k < pairs@.len() ==> #[trigger] pairs@[k].0 < pairs@[k].1 && pairs@[k].1 < rooms,
        forall|i: usize, j: usize| i < j < rooms ==> #[trigger] pairs@.contains((i, j)),
{
    let mut pairs: Vec<(usize, usize)> = Vec::new();
    let mut i: usize = 0;
    while i < rooms
        invariant
            i <= rooms,
            lists_pairs(pairs@, pairs_below(i as int, rooms as int)),
        decreases rooms - i,
    {
        let ghost before = pairs_below(i as int, rooms as int);
        let ghost row = pair_row(i as int, rooms as int);
        let mut j: usize = i + 1;
        assert(row.take(0) =~= Seq::<(int, int)>::empty());
        assert(before + row.take(0) =~= before);
        while j < rooms
            invariant
                i < rooms,
                i + 1 <= j <= rooms,
                before == pairs_below(i as int, rooms as int),
                row == pair_row(i as int, rooms as int),
                lists_pairs(pairs@, before + row.take(j - i - 1)),
            decreases rooms - j,
        {
            let ghost old_pairs = pairs@;
            pairs.push((i, j));
            proof {
                assert(row[j - i - 1] == (i as int, j as int));
                assert((before + row.take(j - i - 1)).push(row[j - i - 1]) =~= before + row.take(
                    j - i,
                ));
                assert forall|k: int| 0 <= k < pairs@.len() implies #[trigger] pairs@[k].0 as int
                    == (before + row.take(j - i))[k].0 && pairs@[k].1 as int == (before + row.take(
                    j - i,
                ))[k].1 by {
                    let old_expected = before + row.take(j - i - 1);
                    let new_expected = before + row.take(j - i);
                    if k < old_pairs.len() {
                        assert(pairs@[k] == old_pairs[k]);
                        assert(new_expected[k] == old_expected[k]);
                        assert(old_pairs[k].0 as int == old_expected[k].0);
                    } else {
                        assert(new_expected[k] == row[j - i - 1]);
                    }
                }
                assert(lists_pairs(pairs@, before + row.take(j - i)));
            }
            j = j + 1;
        }
        proof {
            assert(row.take(rooms - i - 1) =~= row);
            assert(pairs_below(i + 1, rooms as int) == before + row);
        }
        i = i + 1;
    }
    proof {
        let expected = room_pair_seq(rooms as int);
        assert(lists_pairs(pairs@, expected));
        lemma_pair_count(rooms as int);
        assert forall|k: int| 0 <= k < pairs@.len() implies #[trigger] pairs@[k].0 < pairs@[k].1
            && pairs@[k].1 < rooms by {
            assert(expected.contains(expected[k]));
            lemma_pair_members(rooms as int, expected[k].0, expected[k].1);
        }
        assert forall|i: usize, j: usize| i < j < rooms implies #[trigger] pairs@.contains(
            (i, j),
        ) by {
            lemma_pair_members(rooms as int, i as int, j as int);
            let k = choose|k: int| 0 <= k < expected.len() && expected[k] == (i as int, j as int);
            assert(pairs@[k].0 as int == expected[k].0 && pairs@[k].1 as int == expected[k].1);
            assert(pairs@[k] == (i, j));
        }
    }
    pairs
}

proof fn lemma_pairs_below_len(rows: int, n: int)
    requires
        0 <= rows <= n,
    ensures
        2 * pairs_below(rows, n).len() == rows * (2 * n - rows - 1),
    decreases rows,
{
    if rows > 0 {
        lemma_pairs_below_len(rows - 1, n);
        let r = rows - 1;
        assert(pair_row(r, n).len() == n - r - 1);
        assert(pairs_below(rows, n) == pairs_below(r, n) + pair_row(r, n));
        assert(pairs_below(rows, n).len() == pairs_below(r, n).len() + n - r - 1);
        let h = pairs_below(r, n).len() as int;
        let l = pairs_below(rows, n).len() as int;
        assert(2 * l == rows * (2 * n - rows - 1)) by (nonlinear_arith)
            requires
                rows == r + 1,
                2 * h == r * (2 * n - r - 1),
                l == h + n - r - 1,
        ;
    } else {
        assert(rows * (2 * n - rows - 1) == 0) by (nonlinear_arith)
            requires
                rows == 0,
        ;
    }
}

/// There are `n (n - 1) / 2` pairs of `n` rooms.
pub proof fn lemma_pair_count(n: int)
    requires
        0 <= n,
    ensures
        room_pair_seq(n).len() == n * (n - 1) / 2,
{
    lemma_pairs_below_len(n, n);
    let l = room_pair_seq(n).len() as int;
    assert(n * (2 * n - n - 1) == n * (n - 1)) by (nonlinear_arith);
    assert(l == n * (n - 1) / 2) by (nonlinear_arith)
        requires
            2 * l == n * (n - 1),
    ;
}

proof fn lemma_pairs_below_members(rows: int, n: int, i: int, j: int)
    requires
        0 <= rows <= n,
    ensures
        pairs_below(rows, n).contains((i, j)) <==> (0 <= i < rows && i < j < n),
    decreases rows,
{
    if rows > 0 {
        let r = rows - 1;
        let head = pairs_below(r, n);
        let row = pair_row(r, n);
        lemma_pairs_below_members(r, n, i, j);
        let all = head + row;
        if all.contains((i, j)) {
            let k = choose|k: int| 0 <= k < all.len() && all[k] == (i, j);
            if k >= head.len() {
                assert(row[k - head.len()] == (i, j));
            } else {
                assert(head[k] == (i, j));
            }
        }
        if 0 <= i < rows && i < j < n {
            if i < r {
                let k = choose|k: int| 0 <= k < head.len() && head[k] == (i, j);
                assert(all[k] == (i, j));
            } else {
                let k = j - i - 1;
                assert(row[k] == (i, j));
                assert(all[head.len() + k] == (i, j));
            }
        }
    }
}

/// A pair is listed exactly when it names two distinct rooms, the smaller first.
pub proof fn lemma_pair_members(n: int, i: int, j: int)
    requires
        0 <= n,
    ensures
        room_pair_seq(n).contains((i, j)) <==> 0 <= i < j < n,
{
    lemma_pairs_below_members(n, n, i, j);
}

/// With fewer than two rooms there is no pair to compare (vibe convergence is
/// then reported as zero); with two or more there is at least one.
pub proof fn lemma_no_pairs(n: int)
    requires
        0 <= n,
    ensures
        (room_pair_seq(n).len() == 0) <==> n <= 1,
{
    lemma_pair_count(n);
    let l = room_pair_seq(n).len() as int;
    assert((l == 0) <==> n <= 1) by (nonlinear_arith)
        requires
            0 <= n,
            l == n * (n - 1) / 2,
    ;
}

} // verus!
