//! Exact integer geometry: squared Euclidean distance and the separation
//! predicate that every pair of accepted points must satisfy.

use vstd::prelude::*;

use crate::{COORD_LIMIT, RADIUS_LIMIT};

verus! {

/// The mathematical view of a coordinate vector.
pub open spec fn ints(s: Seq<i64>) -> Seq<int> {
    s.map_values(|x: i64| x as int)
}

/// Squared Euclidean distance between two positions of equal dimension.
pub open spec fn dist_sq(a: Seq<int>, b: Seq<int>) -> int
    recommends
        a.len() == b.len(),
    decreases a.len(),
{
    if a.len() == 0 {
        0
    } else {
        let d = a.last() - b.last();
        d * d + dist_sq(a.drop_last(), b.drop_last())
    }
}

/// Every coordinate lies in the box the sampler works in.
pub open spec fn pos_in_bounds(p: Seq<int>) -> bool {
    forall|i: int| 0 <= i < p.len() ==> -(COORD_LIMIT as int) <= #[trigger] p[i] <= COORD_LIMIT as int
}

/// An exclusion radius the sampler can work with.
pub open spec fn radius_ok(r: int) -> bool {
    0 < r <= RADIUS_LIMIT as int
}

/// Two points, each with its exclusion radius, keep the required separation:
/// their distance is at least the sum of the two radii.  Stated on squared
/// values, which is equivalent since both sides are non-negative.
pub open spec fn sep_ok(p: Seq<int>, rp: int, q: Seq<int>, rq: int) -> bool {
    dist_sq(p, q) >= (rp + rq) * (rp + rq)
}

/// Distance is symmetric in its arguments.
pub proof fn lemma_dist_sq_sym(a: Seq<int>, b: Seq<int>)
    requires
        a.len() == b.len(),
    ensures
        dist_sq(a, b) == dist_sq(b, a),
    decreases a.len(),
{
    if a.len() > 0 {
        lemma_dist_sq_sym(a.drop_last(), b.drop_last());
        let d = a.last() - b.last();
        let e = b.last() - a.last();
        assert(d * d == e * e) by (nonlinear_arith)
            requires d == -e;
    }
}

/// Computes the squared distance between two equal-dimension positions.
pub fn distance_squared(lhs: &Vec<i64>, rhs: &Vec<i64>) -> (d: u128)
    requires
        lhs@.len() == rhs@.len(),
        pos_in_bounds(ints(lhs@)),
        pos_in_bounds(ints(rhs@)),
    ensures
        d as int == dist_sq(ints(lhs@), ints(rhs@)),
{
    let n = lhs.len();
    let mut acc: u128 = 0;
    let mut i: usize = 0;
    proof {
        assert(ints(lhs@).take(0) =~= Seq::<int>::empty());
        assert(ints(rhs@).take(0) =~= Seq::<int>::empty());
    }
    while i < n
        invariant
            i <= n,
            n == lhs@.len() == rhs@.len(),
            pos_in_bounds(ints(lhs@)),
            pos_in_bounds(ints(rhs@)),
            acc as int == dist_sq(ints(lhs@).take(i as int), ints(rhs@).take(i as int)),
            acc <= (i as int) * 4_000_000_000_000_000_000,
        decreases n - i,
    {
        assert(ints(lhs@)[i as int] == lhs@[i as int] as int);
        assert(ints(rhs@)[i as int] == rhs@[i as int] as int);
        let d: i64 = lhs[i] - rhs[i];
        proof {
            assert(d * d <= 4_000_000_000_000_000_000) by (nonlinear_arith)
                requires -2_000_000_000 <= d <= 2_000_000_000;
            assert(d * d >= 0) by (nonlinear_arith);
            assert((i + 1) as int * 4_000_000_000_000_000_000 <= 0x10000_0000_0000_0000 * 4_000_000_000_000_000_000) by (nonlinear_arith)
                requires i + 1 <= 0x10000_0000_0000_0000;
            let la = ints(lhs@).take(i + 1);
            let lb = ints(rhs@).take(i + 1);
            assert(la.drop_last() =~= ints(lhs@).take(i as int));
            assert(lb.drop_last() =~= ints(rhs@).take(i as int));
            assert(la.last() == lhs@[i as int] as int);
            assert(lb.last() == rhs@[i as int] as int);
        }
        let sq: i64 = d * d;
        acc = acc + (sq as u128);
        i = i + 1;
    }
    proof {
        assert(ints(lhs@).take(n as int) =~= ints(lhs@));
        assert(ints(rhs@).take(n as int) =~= ints(rhs@));
    }
    acc
}

/// Two coordinate vectors with the same mathematical view are equal.
pub proof fn lemma_ints_injective(a: Seq<i64>, b: Seq<i64>)
    requires
        ints(a) == ints(b),
    ensures
        a == b,
{
    assert(ints(a).len() == a.len());
    assert(ints(b).len() == b.len());
    assert forall|i: int| 0 <= i < a.len() implies a[i] == b[i] by {
        assert(ints(a)[i] == a[i] as int);
        assert(ints(b)[i] == b[i] as int);
    }
    assert(a =~= b);
}

/// Checks that every coordinate lies in the box the sampler works in.
pub fn in_bounds_vec(p: &Vec<i64>) -> (b: bool)
    ensures
        b == pos_in_bounds(ints(p@)),
{
    let n = p.len();
    let mut i: usize = 0;
    while i < n
        invariant
            i <= n,
            n == p@.len(),
            forall|j: int|
                0 <= j < i ==> -(COORD_LIMIT as int) <= #[trigger] ints(p@)[j] <= COORD_LIMIT as int,
        decreases n - i,
    {
        if p[i] < -COORD_LIMIT || p[i] > COORD_LIMIT {
            assert(!(-(COORD_LIMIT as int) <= ints(p@)[i as int] <= COORD_LIMIT as int));
            return false;
        }
        assert(ints(p@)[i as int] == p@[i as int] as int);
        i = i + 1;
    }
    true
}

/// Decides whether a point at `p` with radius `rp` and a point at `q` with
/// radius `rq` keep the required separation.  Equality is acceptable: only a
/// strictly smaller distance violates the exclusion rule.
pub fn separated(p: &Vec<i64>, rp: i64, q: &Vec<i64>, rq: i64) -> (b: bool)
    requires
        p@.len() == q@.len(),
        pos_in_bounds(ints(p@)),
        pos_in_bounds(ints(q@)),
        radius_ok(rp as int),
        radius_ok(rq as int),
    ensures
        b == sep_ok(ints(p@), rp as int, ints(q@), rq as int),
{
    let d = distance_squared(p, q);
    let s: i64 = rp + rq;
    proof {
        assert(s * s <= 4_000_000_000_000_000_000) by (nonlinear_arith)
            requires 0 <= s <= 2_000_000_000;
        assert(s * s >= 0) by (nonlinear_arith);
    }
    let ssq: i64 = s * s;
    d >= (ssq as u128)
}

} // verus!
