//! The score engine.
//!
//! The score of a point layout is the sum of the distances between every
//! unordered pair of stored points, scaled by the current recursion depth.
//! Distances are Euclidean, rounded down to whole normalized ticks (the
//! integer square root of the squared distance).  The score of an empty or
//! one-point layout is zero, and the score does not depend on the storage
//! order of the points — only on their multiset.

use vstd::prelude::*;

use crate::geometry::Pos;
use crate::render::{NORM_LIMIT, anchors_in_range};
use crate::store::spec_dist2;

verus! {

/// No distance between two in-range positions exceeds this many ticks.
pub const DIST_LIMIT: u64 = 2_000_000;

/// The integer square root: the largest `r` with `r * r <= v` (zero for a
/// nonpositive argument).
pub open spec fn isqrt_spec(v: int) -> int
    decreases v,
{
    if v <= 0 {
        0
    } else {
        let r = isqrt_spec(v - 1);
        if (r + 1) * (r + 1) <= v {
            r + 1
        } else {
            r
        }
    }
}

/// The integer square root is nonnegative and brackets its argument between
/// two consecutive squares.
pub proof fn lemma_isqrt_bounds(v: int)
    requires
        v >= 0,
    ensures
        isqrt_spec(v) >= 0,
        isqrt_spec(v) * isqrt_spec(v) <= v,
        v < (isqrt_spec(v) + 1) * (isqrt_spec(v) + 1),
    decreases v,
{
    if v > 0 {
        lemma_isqrt_bounds(v - 1);
        let r = isqrt_spec(v - 1);
        let s = isqrt_spec(v);
        if (r + 1) * (r + 1) <= v {
            assert(s == r + 1);
            assert(s * s <= v && v < (s + 1) * (s + 1)) by (nonlinear_arith)
                requires
                    r >= 0,
                    s == r + 1,
                    (r + 1) * (r + 1) <= v,
                    v - 1 < (r + 1) * (r + 1),
            ;
        } else {
            assert(s == r);
            assert(s * s <= v && v < (s + 1) * (s + 1)) by (nonlinear_arith)
                requires
                    r >= 0,
                    s == r,
                    r * r <= v - 1,
                    !((r + 1) * (r + 1) <= v),
            ;
        }
    }
}

/// Two consecutive squares bracket `v` around only one integer: anything
/// bracketing `v` is the integer square root.
pub proof fn lemma_isqrt_unique(v: int, r: int)
    requires
        0 <= r,
        r * r <= v,
        v < (r + 1) * (r + 1),
    ensures
        r == isqrt_spec(v),
{
    lemma_isqrt_bounds(v);
    let s = isqrt_spec(v);
    assert(r == s) by (nonlinear_arith)
        requires
            0 <= r,
            0 <= s,
            r * r <= v,
            v < (r + 1) * (r + 1),
            s * s <= v,
            v < (s + 1) * (s + 1),
    ;
}

/// Computes the integer square root by bisection.
pub fn isqrt(v: u64) -> (r: u64)
    ensures
        r as int == isqrt_spec(v as int),
        r * r <= v,
{
    let mut lo: u64 = 0;
    let mut hi: u64 = 4_294_967_296;
    proof {
        assert((4_294_967_296 as int) * (4_294_967_296 as int) > u64::MAX) by (nonlinear_arith);
    }
    while hi - lo > 1
        invariant
            lo < hi,
            hi <= 4_294_967_296,
            lo * lo <= v,
            (v as int) < (hi as int) * (hi as int),
        decreases hi - lo,
    {
        let mid = lo + (hi - lo) / 2;
        proof {
            assert((mid as int) * (mid as int) <= (4_294_967_295 as int) * (4_294_967_295 as int)
                && (4_294_967_295 as int) * (4_294_967_295 as int) < u64::MAX) by (nonlinear_arith)
                requires
                    mid <= 4_294_967_295,
            ;
        }
        if mid * mid <= v {
            lo = mid;
        } else {
            hi = mid;
        }
    }
    proof {
        assert(hi == lo + 1);
        lemma_isqrt_unique(v as int, lo as int);
    }
    lo
}

/// The distance between two positions: the integer square root of their
/// squared distance.
pub open spec fn spec_dist(a: Pos, b: Pos) -> int {
    isqrt_spec(spec_dist2(a, b))
}

/// The distance is symmetric in its two positions.
pub proof fn lemma_dist_symmetric(a: Pos, b: Pos)
    ensures
        spec_dist(a, b) == spec_dist(b, a),
{
    assert(spec_dist2(a, b) == spec_dist2(b, a)) by (nonlinear_arith);
}

/// Distances between in-range positions stay under `DIST_LIMIT`.
proof fn lemma_dist_bound(a: Pos, b: Pos)
    requires
        a.x <= NORM_LIMIT,
        a.y <= NORM_LIMIT,
        b.x <= NORM_LIMIT,
        b.y <= NORM_LIMIT,
    ensures
        0 <= spec_dist2(a, b) <= 2 * NORM_LIMIT * NORM_LIMIT,
        0 <= spec_dist(a, b) <= DIST_LIMIT,
{
    assert(0 <= spec_dist2(a, b) <= 2 * NORM_LIMIT * NORM_LIMIT) by (nonlinear_arith)
        requires
            a.x <= NORM_LIMIT,
            a.y <= NORM_LIMIT,
            b.x <= NORM_LIMIT,
            b.y <= NORM_LIMIT,
    ;
    let v = spec_dist2(a, b);
    lemma_isqrt_bounds(v);
    let r = isqrt_spec(v);
    assert(r <= DIST_LIMIT) by (nonlinear_arith)
        requires
            r * r <= v,
            v <= 2 * NORM_LIMIT * NORM_LIMIT,
            NORM_LIMIT == 1_000_000,
            DIST_LIMIT == 2_000_000,
    ;
}

/// Computes the distance between two in-range positions.
pub fn dist(a: Pos, b: Pos) -> (r: u64)
    requires
        a.x <= NORM_LIMIT,
        a.y <= NORM_LIMIT,
        b.x <= NORM_LIMIT,
        b.y <= NORM_LIMIT,
    ensures
        r as int == spec_dist(a, b),
        r <= DIST_LIMIT,
{
    let dx = if a.x >= b.x {
        a.x - b.x
    } else {
        b.x - a.x
    };
    let dy = if a.y >= b.y {
        a.y - b.y
    } else {
        b.y - a.y
    };
    proof {
        assert(dx * dx == (a.x - b.x) * (a.x - b.x) && dy * dy == (a.y - b.y) * (a.y - b.y) && dx
            * dx <= NORM_LIMIT * NORM_LIMIT && dy * dy <= NORM_LIMIT * NORM_LIMIT)
            by (nonlinear_arith)
            requires
                dx == if a.x >= b.x {
                    a.x - b.x
                } else {
                    b.x - a.x
                },
                dy == if a.y >= b.y {
                    a.y - b.y
                } else {
                    b.y - a.y
                },
                a.x <= NORM_LIMIT,
                a.y <= NORM_LIMIT,
                b.x <= NORM_LIMIT,
                b.y <= NORM_LIMIT,
        ;
        lemma_dist_bound(a, b);
    }
    let dot = dx * dx + dy * dy;
    isqrt(dot)
}

/// The sum of the distances from `p` to every point of the sequence.
pub open spec fn spec_row_sum(points: Seq<Pos>, p: Pos) -> int
    decreases points.len(),
{
    if points.len() == 0 {
        0
    } else {
        spec_row_sum(points.drop_last(), p) + spec_dist(p, points.last())
    }
}

/// The sum of the distances between every unordered pair of points.
pub open spec fn spec_pair_sum(points: Seq<Pos>) -> int
    decreases points.len(),
{
    if points.len() == 0 {
        0
    } else {
        spec_pair_sum(points.drop_last()) + spec_row_sum(points.drop_last(), points.last())
    }
}

/// The score: the pairwise distance sum scaled by the recursion depth.
pub open spec fn spec_score(points: Seq<Pos>, levels: u32) -> int {
    spec_pair_sum(points) * levels
}


/// Removing one point splits a row sum: the distance to that point plus the
/// row over the rest.
proof fn lemma_row_remove(points: Seq<Pos>, p: Pos, j: int)
    requires
        0 <= j < points.len(),
    ensures
        spec_row_sum(points, p) == spec_dist(p, points[j]) + spec_row_sum(points.remove(j), p),
    decreases points.len(),
{
    let n = points.len() as int;
    if j == n - 1 {
        assert(points.remove(j) =~= points.drop_last());
    } else {
        let dl = points.drop_last();
        lemma_row_remove(dl, p, j);
        assert(points.remove(j).drop_last() =~= dl.remove(j));
        assert(points.remove(j).last() == points.last());
        assert(spec_row_sum(points.remove(j), p) == spec_row_sum(dl.remove(j), p) + spec_dist(
            p,
            points.last(),
        ));
    }
}

/// A row sum does not depend on the order of the points: equal multisets
/// give equal row sums.
proof fn lemma_row_perm(s1: Seq<Pos>, s2: Seq<Pos>, p: Pos)
    requires
        s1.to_multiset() == s2.to_multiset(),
    ensures
        spec_row_sum(s1, p) == spec_row_sum(s2, p),
    decreases s1.len(),
{
    broadcast use vstd::seq_lib::group_to_multiset_ensures;

    if s1.len() == 0 {
        vstd::seq_lib::to_multiset_len(s1);
        vstd::seq_lib::to_multiset_len(s2);
        assert(s2.len() == 0);
    } else {
        let n1 = s1.len() as int;
        let x = s1.last();
        assert(s1.contains(x));
        assert(s1.to_multiset().count(x) > 0);
        assert(s2.to_multiset().count(x) > 0);
        assert(s2.contains(x));
        let j = choose|j: int| 0 <= j < s2.len() && s2[j] == x;
        lemma_row_remove(s2, p, j);
        assert(s1.drop_last() =~= s1.remove(n1 - 1));
        assert(s1.remove(n1 - 1).to_multiset() == s1.to_multiset().remove(x));
        assert(s2.remove(j).to_multiset() == s2.to_multiset().remove(x));
        lemma_row_perm(s1.drop_last(), s2.remove(j), p);
    }
}

/// Removing one point splits a pair sum: the pairs among the rest plus the
/// removed point's row over the rest.
proof fn lemma_pair_remove(points: Seq<Pos>, j: int)
    requires
        0 <= j < points.len(),
    ensures
        spec_pair_sum(points) == spec_pair_sum(points.remove(j)) + spec_row_sum(
            points.remove(j),
            points[j],
        ),
    decreases points.len(),
{
    let n = points.len() as int;
    if j == n - 1 {
        assert(points.remove(j) =~= points.drop_last());
    } else {
        let dl = points.drop_last();
        let y = points.last();
        lemma_pair_remove(dl, j);
        lemma_row_remove(dl, y, j);
        assert(points.remove(j).drop_last() =~= dl.remove(j));
        assert(points.remove(j).last() == y);
        assert(spec_pair_sum(points.remove(j)) == spec_pair_sum(dl.remove(j)) + spec_row_sum(
            dl.remove(j),
            y,
        ));
        assert(spec_row_sum(points.remove(j), points[j]) == spec_row_sum(dl.remove(j), points[j])
            + spec_dist(points[j], y));
        lemma_dist_symmetric(y, points[j]);
        assert(dl[j] == points[j]);
    }
}

/// A pair sum does not depend on the order of the points: equal multisets
/// give equal pair sums.
proof fn lemma_pair_perm(s1: Seq<Pos>, s2: Seq<Pos>)
    requires
        s1.to_multiset() == s2.to_multiset(),
    ensures
        spec_pair_sum(s1) == spec_pair_sum(s2),
    decreases s1.len(),
{
    broadcast use vstd::seq_lib::group_to_multiset_ensures;

    if s1.len() == 0 {
        vstd::seq_lib::to_multiset_len(s1);
        vstd::seq_lib::to_multiset_len(s2);
        assert(s2.len() == 0);
    } else {
        let n1 = s1.len() as int;
        let x = s1.last();
        assert(s1.contains(x));
        assert(s1.to_multiset().count(x) > 0);
        assert(s2.to_multiset().count(x) > 0);
        assert(s2.contains(x));
        let j = choose|j: int| 0 <= j < s2.len() && s2[j] == x;
        lemma_pair_remove(s2, j);
        assert(s1.drop_last() =~= s1.remove(n1 - 1));
        assert(s1.remove(n1 - 1).to_multiset() == s1.to_multiset().remove(x));
        assert(s2.remove(j).to_multiset() == s2.to_multiset().remove(x));
        lemma_pair_perm(s1.drop_last(), s2.remove(j));
        lemma_row_perm(s1.drop_last(), s2.remove(j), x);
    }
}

/// Law: the score of no points, and of a single point, is zero — there are
/// no pairs to sum.
pub proof fn lemma_score_degenerate(p: Pos, levels: u32)
    ensures
        spec_score(Seq::<Pos>::empty(), levels) == 0,
        spec_score(seq![p], levels) == 0,
{
    assert(spec_pair_sum(Seq::<Pos>::empty()) == 0);
    assert(spec_row_sum(Seq::<Pos>::empty(), p) == 0);
    assert(seq![p].drop_last() =~= Seq::<Pos>::empty());
    assert(spec_pair_sum(seq![p]) == 0);
    assert(spec_pair_sum(Seq::<Pos>::empty()) * levels == 0) by (nonlinear_arith)
        requires
            spec_pair_sum(Seq::<Pos>::empty()) == 0,
    ;
    assert(spec_pair_sum(seq![p]) * levels == 0) by (nonlinear_arith)
        requires
            spec_pair_sum(seq![p]) == 0,
    ;
}

/// Law: the score is symmetric under reordering of the points — any two
/// sequences with the same multiset of points, at the same depth, score the
/// same (the pairwise-sum invariant).
pub proof fn lemma_score_permutation(s1: Seq<Pos>, s2: Seq<Pos>, levels: u32)
    requires
        s1.to_multiset() == s2.to_multiset(),
    ensures
        spec_score(s1, levels) == spec_score(s2, levels),
{
    lemma_pair_perm(s1, s2);
}

/// Law: depth zero zeroes the score entirely.
pub proof fn lemma_score_depth_zero(points: Seq<Pos>)
    ensures
        spec_score(points, 0) == 0,
{
    assert(spec_pair_sum(points) * 0 == 0) by (nonlinear_arith);
}

/// Row sums over in-range points are nonnegative and bounded.
proof fn lemma_row_sum_bound(points: Seq<Pos>, p: Pos)
    requires
        anchors_in_range(points),
        p.x <= NORM_LIMIT,
        p.y <= NORM_LIMIT,
    ensures
        0 <= spec_row_sum(points, p) <= points.len() * DIST_LIMIT,
    decreases points.len(),
{
    if points.len() == 0 {
    } else {
        let dl = points.drop_last();
        assert(anchors_in_range(dl)) by {
            assert(forall|k: int| 0 <= k < dl.len() ==> dl[k] == points[k]);
        }
        lemma_row_sum_bound(dl, p);
        assert(points[points.len() - 1] == points.last());
        lemma_dist_bound(p, points.last());
        assert(0 <= spec_row_sum(points, p) <= points.len() * DIST_LIMIT) by (nonlinear_arith)
            requires
                spec_row_sum(points, p) == spec_row_sum(dl, p) + spec_dist(p, points.last()),
                0 <= spec_row_sum(dl, p) <= dl.len() * DIST_LIMIT,
                0 <= spec_dist(p, points.last()) <= DIST_LIMIT,
                dl.len() == points.len() - 1,
        ;
    }
}

/// Pair sums over in-range points are nonnegative and bounded.
proof fn lemma_pair_sum_bound(points: Seq<Pos>)
    requires
        anchors_in_range(points),
    ensures
        0 <= spec_pair_sum(points) <= points.len() * points.len() * DIST_LIMIT,
    decreases points.len(),
{
    if points.len() == 0 {
    } else {
        let dl = points.drop_last();
        assert(anchors_in_range(dl)) by {
            assert(forall|k: int| 0 <= k < dl.len() ==> dl[k] == points[k]);
        }
        lemma_pair_sum_bound(dl);
        assert(points[points.len() - 1] == points.last());
        lemma_row_sum_bound(dl, points.last());
        assert(0 <= spec_pair_sum(points) <= points.len() * points.len() * DIST_LIMIT)
            by (nonlinear_arith)
            requires
                spec_pair_sum(points) == spec_pair_sum(dl) + spec_row_sum(dl, points.last()),
                0 <= spec_pair_sum(dl) <= dl.len() * dl.len() * DIST_LIMIT,
                0 <= spec_row_sum(dl, points.last()) <= dl.len() * DIST_LIMIT,
                dl.len() == points.len() - 1,
                DIST_LIMIT >= 0,
        ;
    }
}

/// Upper bound on the point count accepted by `compute_score`, so that the
/// scaled pairwise sum fits a `u64`.
pub const SCORE_POINTS_LIMIT: usize = 1000;

/// Upper bound on the depth accepted by `compute_score`, for the same reason.
pub const SCORE_LEVELS_LIMIT: u32 = 1_000_000;

/// Computes the score of the layout: the sum of the distances between every
/// unordered pair of stored points, scaled by the recursion depth.  The
/// count and depth bounds are machine limits keeping the result inside a
/// `u64`; interactive layouts stay far below them.
pub fn compute_score(circles: &Vec<Pos>, levels: u32) -> (score: u64)
    requires
        anchors_in_range(circles@),
        circles@.len() <= SCORE_POINTS_LIMIT,
        levels <= SCORE_LEVELS_LIMIT,
    ensures
        score as int == spec_score(circles@, levels),
{
    let n = circles.len();
    let mut sum: u64 = 0;
    let mut j: usize = 0;
    proof {
        assert(circles@.take(0) =~= Seq::<Pos>::empty());
    }
    while j < n
        invariant
            anchors_in_range(circles@),
            n == circles@.len() <= SCORE_POINTS_LIMIT,
            j <= n,
            sum as int == spec_pair_sum(circles@.take(j as int)),
            sum as int <= j * j * (DIST_LIMIT as int),
        decreases n - j,
    {
        let pj = circles[j];
        let ghost prefix = circles@.take(j as int);
        proof {
            assert(anchors_in_range(prefix)) by {
                assert(forall|k: int| 0 <= k < prefix.len() ==> prefix[k] == circles@[k]);
            }
            lemma_pair_sum_bound(prefix);
            lemma_row_sum_bound(prefix, pj);
        }
        let mut row: u64 = 0;
        let mut i: usize = 0;
        proof {
            assert(prefix.take(0) =~= Seq::<Pos>::empty());
        }
        while i < j
            invariant
                anchors_in_range(circles@),
                n == circles@.len() <= SCORE_POINTS_LIMIT,
                i <= j < n,
                pj == circles@[j as int],
                prefix == circles@.take(j as int),
                row as int == spec_row_sum(prefix.take(i as int), pj),
                row as int <= i * (DIST_LIMIT as int),
            decreases j - i,
        {
            let d = dist(circles[i], pj);
            proof {
                lemma_dist_symmetric(pj, circles@[i as int]);
                assert(prefix.take(i as int + 1).drop_last() =~= prefix.take(i as int));
                assert(prefix.take(i as int + 1).last() == circles@[i as int]);
                assert(row as int + d <= (i + 1) * (DIST_LIMIT as int) && row as int + d
                    <= u64::MAX) by (nonlinear_arith)
                    requires
                        row as int <= i * (DIST_LIMIT as int),
                        0 <= d <= DIST_LIMIT,
                        0 <= i < 1000,
                        DIST_LIMIT == 2_000_000,
                ;
            }
            row = row + d;
            i = i + 1;
        }
        proof {
            assert(prefix.take(j as int) =~= prefix);
            assert(circles@.take(j as int + 1).drop_last() =~= prefix);
            assert(circles@.take(j as int + 1).last() == circles@[j as int]);
            assert(sum as int + row <= (j + 1) * (j + 1) * (DIST_LIMIT as int) && sum as int
                + row <= u64::MAX) by (nonlinear_arith)
                requires
                    sum as int <= j * j * (DIST_LIMIT as int),
                    row as int <= j * (DIST_LIMIT as int),
                    0 <= sum as int,
                    0 <= row as int,
                    0 <= j < 1000,
                    DIST_LIMIT == 2_000_000,
            ;
        }
        sum = sum + row;
        j = j + 1;
    }
    proof {
        assert(circles@.take(n as int) =~= circles@);
        assert(sum as int * levels as int <= u64::MAX) by (nonlinear_arith)
            requires
                0 <= sum as int,
                sum as int <= n * n * (DIST_LIMIT as int),
                n <= 1000,
                levels <= 1_000_000,
                DIST_LIMIT == 2_000_000,
        ;
    }
    sum * (levels as u64)
}

} // verus!
