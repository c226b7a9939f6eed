//! The point arena: append-only storage of accepted points, each holding the
//! position and the exclusion radius it was accepted with.

use vstd::prelude::*;

use crate::geometry::{ints, lemma_dist_sq_sym, pos_in_bounds, radius_ok, sep_ok, separated};

verus! {

/// An accepted sample: a position together with the exclusion radius the
/// density oracle returned for it at acceptance time.
pub struct Point {
    pub pos: Vec<i64>,
    pub radius: i64,
}

/// The mathematical view of an accepted sample.
pub struct PointModel {
    pub pos: Seq<int>,
    pub radius: int,
}

impl View for Point {
    type V = PointModel;

    open spec fn view(&self) -> PointModel {
        PointModel { pos: ints(self.pos@), radius: self.radius as int }
    }
}

/// The mathematical view of a whole arena.
pub open spec fn models(pts: Seq<Point>) -> Seq<PointModel> {
    pts.map_values(|p: Point| p@)
}

/// Every point has the given dimension, lies in the coordinate box, and
/// carries a radius the sampler accepts.
pub open spec fn points_wf(pts: Seq<PointModel>, dim: nat) -> bool {
    forall|i: int|
        0 <= i < pts.len() ==> {
            &&& (#[trigger] pts[i]).pos.len() == dim
            &&& pos_in_bounds(pts[i].pos)
            &&& radius_ok(pts[i].radius)
        }
}

/// The separation invariant: any two distinct points are at least the sum of
/// their exclusion radii apart.
pub open spec fn pairwise_separated(pts: Seq<PointModel>) -> bool {
    forall|i: int, j: int|
        0 <= i < pts.len() && 0 <= j < pts.len() && i != j ==> sep_ok(
            (#[trigger] pts[i]).pos,
            pts[i].radius,
            (#[trigger] pts[j]).pos,
            pts[j].radius,
        )
}

/// Every radius in the arena lies within the given bounds.
pub open spec fn radii_within(pts: Seq<PointModel>, min: int, max: int) -> bool {
    forall|i: int| 0 <= i < pts.len() ==> min <= (#[trigger] pts[i]).radius <= max
}

/// A candidate at `cand` with radius `r` keeps the required separation from
/// every point already in the arena.
pub open spec fn sep_from_all(pts: Seq<PointModel>, cand: Seq<int>, r: int) -> bool {
    forall|i: int|
        0 <= i < pts.len() ==> sep_ok((#[trigger] pts[i]).pos, pts[i].radius, cand, r)
}

/// Appending a candidate that keeps its distance from every stored point
/// preserves the separation invariant.
pub proof fn lemma_push_separated(pts: Seq<PointModel>, cand: Seq<int>, r: int, dim: nat)
    requires
        points_wf(pts, dim),
        pairwise_separated(pts),
        sep_from_all(pts, cand, r),
        cand.len() == dim,
    ensures
        pairwise_separated(pts.push(PointModel { pos: cand, radius: r })),
    decreases pts.len(),
{
    let whole = pts.push(PointModel { pos: cand, radius: r });
    assert forall|i: int, j: int|
        0 <= i < whole.len() && 0 <= j < whole.len() && i != j implies sep_ok(
        (#[trigger] whole[i]).pos,
        whole[i].radius,
        (#[trigger] whole[j]).pos,
        whole[j].radius,
    ) by {
        if i < pts.len() && j < pts.len() {
            assert(sep_ok(pts[i].pos, pts[i].radius, pts[j].pos, pts[j].radius));
        } else if i < pts.len() && j == pts.len() {
            assert(sep_ok(pts[i].pos, pts[i].radius, cand, r));
        } else {
            assert(sep_ok(pts[j].pos, pts[j].radius, cand, r));
            lemma_dist_sq_sym(pts[j].pos, cand);
        }
    }
}

/// The per-candidate rejection test of the brute-force strategy: scans the
/// whole arena and accepts the candidate only if no stored point is closer to
/// it than the sum of the two exclusion radii.
pub fn check_all_points(pts: &Vec<Point>, cand: &Vec<i64>, r: i64) -> (ok: bool)
    requires
        points_wf(models(pts@), cand@.len() as nat),
        pos_in_bounds(ints(cand@)),
        radius_ok(r as int),
    ensures
        ok == sep_from_all(models(pts@), ints(cand@), r as int),
{
    let n = pts.len();
    let mut i: usize = 0;
    while i < n
        invariant
            i <= n,
            n == pts@.len(),
            points_wf(models(pts@), cand@.len() as nat),
            pos_in_bounds(ints(cand@)),
            radius_ok(r as int),
            forall|j: int|
                0 <= j < i ==> sep_ok(
                    (#[trigger] models(pts@)[j]).pos,
                    models(pts@)[j].radius,
                    ints(cand@),
                    r as int,
                ),
        decreases n - i,
    {
        assert(models(pts@)[i as int] == pts@[i as int]@);
        if !separated(&pts[i].pos, pts[i].radius, cand, r) {
            return false;
        }
        i = i + 1;
    }
    true
}

} // verus!
