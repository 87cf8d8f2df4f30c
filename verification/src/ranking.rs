//! Ranking by a number: the largest first, and equal ones in the order they came.

use vstd::prelude::*;

verus! {

/// The item at `i` ranks before the one at `j`: it is larger, or as large and
/// came first.
pub open spec fn before(keys: Seq<u128>, i: int, j: int) -> bool {
    keys[j] < keys[i] || (keys[i] == keys[j] && i < j)
}

/// Every index of `order` ranks before those that follow it.
pub open spec fn ordered(order: Seq<usize>, keys: Seq<u128>) -> bool {
    forall|a: int, b: int|
        0 <= a < b < order.len() ==> before(
            keys,
            #[trigger] order[a] as int,
            #[trigger] order[b] as int,
        )
}

/// `order` holds every index from `lo` up to `hi` and no others.
pub open spec fn covers(order: Seq<usize>, lo: int, hi: int) -> bool {
    &&& order.len() == hi - lo
    &&& forall|a: int| 0 <= a < order.len() ==> lo <= #[trigger] order[a] < hi
    &&& forall|i: int| lo <= i < hi ==> order.contains(#[trigger] (i as usize))
}

/// `order` is the ranking of `keys`: every index once, in rank.
pub open spec fn is_ranking(order: Seq<usize>, keys: Seq<u128>) -> bool {
    covers(order, 0, keys.len() as int) && ordered(order, keys)
}

proof fn lemma_transitive(keys: Seq<u128>, i: int, j: int, k: int)
    requires
        before(keys, i, j),
        before(keys, j, k),
    ensures
        before(keys, i, k),
{
}

/// The ranking of `keys`.
pub fn rank(keys: &Vec<u128>) -> (out: Vec<usize>)
    ensures
        is_ranking(out@, keys@),
{
    rank_part(keys, 0, keys.len())
}

/// The ranking of the keys from `lo` up to `hi`, by merging those of its halves.
fn rank_part(keys: &Vec<u128>, lo: usize, hi: usize) -> (out: Vec<usize>)
    requires
        lo <= hi <= keys@.len(),
    ensures
        covers(out@, lo as int, hi as int),
        ordered(out@, keys@),
    decreases hi - lo,
{
    let mut out: Vec<usize> = Vec::new();
    if hi - lo == 0 {
        return out;
    }
    if hi - lo == 1 {
        out.push(lo);
        assert(out@[0] == lo);
        return out;
    }
    let mid: usize = lo + (hi - lo) / 2;
    let left = rank_part(keys, lo, mid);
    let right = rank_part(keys, mid, hi);
    let (mut i, mut j): (usize, usize) = (0, 0);
    while i < left.len() || j < right.len()
        invariant
            lo <= mid <= hi <= keys@.len(),
            i <= left.len(),
            j <= right.len(),
            covers(left@, lo as int, mid as int),
            covers(right@, mid as int, hi as int),
            ordered(left@, keys@),
            ordered(right@, keys@),
            out.len() == i + j,
            ordered(out@, keys@),
            forall|a: int| 0 <= a < out.len() ==> lo <= #[trigger] out@[a] < hi,
            forall|a: int| 0 <= a < i ==> out@.contains(#[trigger] left@[a]),
            forall|a: int| 0 <= a < j ==> out@.contains(#[trigger] right@[a]),
            forall|a: int, p: int|
                0 <= a < out.len() && i <= p < left.len() ==> before(
                    keys@,
                    #[trigger] out@[a] as int,
                    #[trigger] left@[p] as int,
                ),
            forall|a: int, p: int|
                0 <= a < out.len() && j <= p < right.len() ==> before(
                    keys@,
                    #[trigger] out@[a] as int,
                    #[trigger] right@[p] as int,
                ),
        decreases left.len() - i + right.len() - j,
    {
        let from_left = if j == right.len() {
            true
        } else if i == left.len() {
            false
        } else {
            keys[left[i]] >= keys[right[j]]
        };
        let ghost was = out@;
        if from_left {
            let next = left[i];
            proof {
                if j < right.len() {
                    assert(before(keys@, next as int, right@[j as int] as int));
                    assert forall|p: int| j <= p < right.len() implies before(
                        keys@,
                        next as int,
                        #[trigger] right@[p] as int,
                    ) by {
                        if p > j {
                            lemma_transitive(
                                keys@,
                                next as int,
                                right@[j as int] as int,
                                right@[p] as int,
                            );
                        }
                    }
                }
            }
            out.push(next);
            i += 1;
        } else {
            let next = right[j];
            proof {
                if i < left.len() {
                    assert(before(keys@, next as int, left@[i as int] as int));
                    assert forall|p: int| i <= p < left.len() implies before(
                        keys@,
                        next as int,
                        #[trigger] left@[p] as int,
                    ) by {
                        if p > i {
                            lemma_transitive(
                                keys@,
                                next as int,
                                left@[i as int] as int,
                                left@[p] as int,
                            );
                        }
                    }
                }
            }
            out.push(next);
            j += 1;
        }
        proof {
            let last = out@.len() - 1;
            assert(forall|x: usize| was.contains(x) ==> out@.contains(x)) by {
                assert forall|x: usize| was.contains(x) implies out@.contains(x) by {
                    let a = choose|a: int| 0 <= a < was.len() && was[a] == x;
                    assert(out@[a] == x);
                }
            }
            assert(out@[last] == out@.last());
        }
    }
    proof {
        assert forall|x: int| lo <= x < hi implies out@.contains(#[trigger] (x as usize)) by {
            if x < mid {
                let a = choose|a: int| 0 <= a < left.len() && left@[a] == x as usize;
                assert(out@.contains(left@[a]));
            } else {
                let a = choose|a: int| 0 <= a < right.len() && right@[a] == x as usize;
                assert(out@.contains(right@[a]));
            }
        }
    }
    out
}

// ── Laws ─────────────────────────────────────────────────────────────────────

/// A ranking holds no index twice.
pub proof fn a_ranking_repeats_nothing(order: Seq<usize>, keys: Seq<u128>)
    requires
        ordered(order, keys),
    ensures
        order.no_duplicates(),
{
    assert forall|a: int, b: int| 0 <= a < order.len() && 0 <= b < order.len() && a != b implies
        order[a] != order[b] by {
        if a < b {
            assert(before(keys, order[a] as int, order[b] as int));
        } else {
            assert(before(keys, order[b] as int, order[a] as int));
        }
    }
}

/// There is one ranking only: two lists of all indices in rank are the same.
pub proof fn the_ranking_is_unique(a: Seq<usize>, b: Seq<usize>, keys: Seq<u128>)
    requires
        keys.len() <= usize::MAX,
        is_ranking(a, keys),
        is_ranking(b, keys),
    ensures
        a == b,
{
    lemma_unique(a, b, keys, keys.len() as int);
    assert(a.take(keys.len() as int) == a && b.take(keys.len() as int) == b);
}

proof fn lemma_unique(a: Seq<usize>, b: Seq<usize>, keys: Seq<u128>, n: int)
    requires
        keys.len() <= usize::MAX,
        is_ranking(a, keys),
        is_ranking(b, keys),
        0 <= n <= keys.len(),
    ensures
        a.take(n) == b.take(n),
    decreases n,
{
    if n > 0 {
        lemma_unique(a, b, keys, n - 1);
        a_ranking_repeats_nothing(a, keys);
        a_ranking_repeats_nothing(b, keys);
        let i = n - 1;
        let (x, y) = (a[i], b[i]);
        if x != y {
            // Each occurs in the other list, and not among the first i.
            assert(b.contains((x as int) as usize));
            assert(a.contains((y as int) as usize));
            let p = choose|p: int| 0 <= p < b.len() && b[p] == x;
            let q = choose|q: int| 0 <= q < a.len() && a[q] == y;
            if p < i {
                assert(a.take(i)[p] == b.take(i)[p]);
                assert(a[p] == a[i]);
                assert(false);
            }
            if q < i {
                assert(a.take(i)[q] == b.take(i)[q]);
                assert(b[q] == b[i]);
                assert(false);
            }
            assert(before(keys, b[i] as int, b[p] as int));
            assert(before(keys, a[i] as int, a[q] as int));
            assert(false);
        }
        assert(a.take(n) == a.take(i).push(x));
        assert(b.take(n) == b.take(i).push(y));
    }
}

/// Down a ranking the keys never rise, and among equal ones the earlier comes first;
/// every index is in it once.
pub proof fn a_ranking_never_rises(order: Seq<usize>, keys: Seq<u128>, a: int, b: int)
    requires
        is_ranking(order, keys),
        0 <= a < b < order.len(),
    ensures
        order.len() == keys.len(),
        order[a] < keys.len() && order[b] < keys.len(),
        keys[order[a] as int] >= keys[order[b] as int],
        keys[order[a] as int] == keys[order[b] as int] ==> order[a] < order[b],
{
    assert(before(keys, order[a] as int, order[b] as int));
}

} // verus!
