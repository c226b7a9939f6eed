//! The grid-accelerated spatial index for two-dimensional runs.
//!
//! Space is split into square cells whose side is the declared minimum
//! radius.  Any two accepted points are then at least two cell sides apart,
//! so a cell holds at most one point and a hash map from cell key to arena
//! index suffices.  A neighbor query scans the bounded window of cells that
//! could hold a conflicting point, and is proved to reach the very same
//! verdict as the brute-force scan of the whole arena.

use std::collections::HashMap;
use vstd::prelude::*;

use vstd::arithmetic::div_mod::{
    lemma_div_is_ordered, lemma_div_nonincreasing, lemma_div_pos_is_pos,
    lemma_fundamental_div_mod, lemma_fundamental_div_mod_converse,
};

use crate::{COORD_LIMIT, RADIUS_LIMIT};
use crate::engine::{run_model, sample_points_with, SpatialIndex};
use crate::geometry::{dist_sq, ints, pos_in_bounds, radius_ok, sep_ok, separated};
use crate::oracle::{accepted_radius_bounded, oracle_within, DensityOracle};
use crate::points::{
    models, pairwise_separated, points_wf, radii_within, sep_from_all, Point, PointModel,
};
use crate::source::RandomSource;

verus! {

broadcast use vstd::std_specs::hash::group_hash_axioms;

/// The factor that packs a pair of cell coordinates into one map key.
pub const KEY_STRIDE: u64 = 0x1_0000_0000;

/// The cell coordinate of `x` on one axis, for cell side `c`: coordinates
/// are shifted to be non-negative, then floor-divided.
pub open spec fn cell_of(x: int, c: int) -> int
    recommends
        c >= 1,
{
    (x + COORD_LIMIT) / c
}

/// The packed map key of a two-dimensional position.
pub open spec fn key_of(p: Seq<int>, c: int) -> int
    recommends
        p.len() == 2,
        c >= 1,
{
    cell_of(p[0], c) * (KEY_STRIDE as int) + cell_of(p[1], c)
}

proof fn lemma_cell_range(x: int, c: int)
    requires
        -(COORD_LIMIT as int) <= x <= COORD_LIMIT as int,
        c >= 1,
    ensures
        0 <= cell_of(x, c) <= 2 * COORD_LIMIT,
{
    lemma_div_pos_is_pos(x + COORD_LIMIT, c);
    lemma_div_nonincreasing(x + COORD_LIMIT, c);
}

proof fn lemma_key_range(p: Seq<int>, c: int)
    requires
        p.len() == 2,
        pos_in_bounds(p),
        c >= 1,
    ensures
        0 <= key_of(p, c) < 0x1_0000_0000_0000_0000,
{
    lemma_cell_range(p[0], c);
    lemma_cell_range(p[1], c);
    assert(cell_of(p[0], c) * (KEY_STRIDE as int) <= 2 * COORD_LIMIT * (KEY_STRIDE as int))
        by (nonlinear_arith)
        requires
            0 <= cell_of(p[0], c) <= 2 * COORD_LIMIT;
    assert(cell_of(p[0], c) * (KEY_STRIDE as int) >= 0) by (nonlinear_arith)
        requires
            0 <= cell_of(p[0], c);
}

/// The packed key determines both cell coordinates.
proof fn lemma_key_unpack(p: Seq<int>, q: Seq<int>, c: int)
    requires
        p.len() == 2,
        q.len() == 2,
        pos_in_bounds(p),
        pos_in_bounds(q),
        c >= 1,
        key_of(p, c) == key_of(q, c),
    ensures
        cell_of(p[0], c) == cell_of(q[0], c),
        cell_of(p[1], c) == cell_of(q[1], c),
{
    lemma_cell_range(p[0], c);
    lemma_cell_range(p[1], c);
    lemma_cell_range(q[0], c);
    lemma_cell_range(q[1], c);
    let s = KEY_STRIDE as int;
    lemma_fundamental_div_mod_converse(key_of(p, c), s, cell_of(p[0], c), cell_of(p[1], c));
    lemma_fundamental_div_mod_converse(key_of(q, c), s, cell_of(q[0], c), cell_of(q[1], c));
}

/// Two coordinates in the same cell are less than one cell side apart.
proof fn lemma_same_cell_close(x: int, y: int, c: int)
    requires
        c >= 1,
        cell_of(x, c) == cell_of(y, c),
    ensures
        -(c - 1) <= x - y <= c - 1,
{
    lemma_fundamental_div_mod(x + COORD_LIMIT, c);
    lemma_fundamental_div_mod(y + COORD_LIMIT, c);
}

/// Floor division almost distributes over addition: the quotient of a sum
/// overshoots the sum of the quotients by at most one.
proof fn lemma_div_add_le(a: int, b: int, c: int)
    requires
        a >= 0,
        b >= 0,
        c >= 1,
    ensures
        (a + b) / c <= a / c + b / c + 1,
{
    lemma_fundamental_div_mod(a, c);
    lemma_fundamental_div_mod(b, c);
    let qa = a / c;
    let ra = a % c;
    let qb = b / c;
    let rb = b % c;
    if ra + rb < c {
        assert(a + b == (qa + qb) * c + (ra + rb)) by (nonlinear_arith)
            requires
                a == c * qa + ra,
                b == c * qb + rb;
        lemma_fundamental_div_mod_converse(a + b, c, qa + qb, ra + rb);
    } else {
        assert(a + b == (qa + qb + 1) * c + (ra + rb - c)) by (nonlinear_arith)
            requires
                a == c * qa + ra,
                b == c * qb + rb;
        lemma_fundamental_div_mod_converse(a + b, c, qa + qb + 1, ra + rb - c);
    }
}

/// Coordinates at most `dd` apart land in cells at most `dd / c + 1` apart.
proof fn lemma_cell_window(x: int, y: int, c: int, dd: int)
    requires
        c >= 1,
        dd >= 0,
        -(COORD_LIMIT as int) <= x <= COORD_LIMIT as int,
        -(COORD_LIMIT as int) <= y <= COORD_LIMIT as int,
        -dd <= x - y <= dd,
    ensures
        cell_of(y, c) - (dd / c + 1) <= cell_of(x, c) <= cell_of(y, c) + dd / c + 1,
{
    let ux = x + COORD_LIMIT;
    let uy = y + COORD_LIMIT;
    lemma_div_is_ordered(ux, uy + dd, c);
    lemma_div_add_le(uy, dd, c);
    lemma_div_is_ordered(uy, ux + dd, c);
    lemma_div_add_le(ux, dd, c);
}

/// In two dimensions the squared distance is the sum of the two squared
/// coordinate differences.
proof fn lemma_dist_sq_2d(p: Seq<int>, q: Seq<int>)
    requires
        p.len() == 2,
        q.len() == 2,
    ensures
        dist_sq(p, q) == (p[0] - q[0]) * (p[0] - q[0]) + (p[1] - q[1]) * (p[1] - q[1]),
{
    reveal_with_fuel(dist_sq, 4);
    let p0 = p.drop_last();
    let q0 = q.drop_last();
    assert(p0.last() == p[0]);
    assert(q0.last() == q[0]);
    assert(dist_sq(p0.drop_last(), q0.drop_last()) == 0);
}

/// A number whose square is below another's is itself below it in magnitude.
proof fn lemma_abs_lt(d: int, m: int)
    requires
        d * d < m * m,
        m > 0,
    ensures
        -m < d < m,
{
    assert(-m < d < m) by (nonlinear_arith)
        requires
            d * d < m * m,
            m > 0;
}

/// The hashed grid: cell side (the declared minimum radius), the declared
/// maximum radius, and the map from packed cell key to the arena index of
/// the point in that cell.
pub struct GridIndex {
    pub cell: i64,
    pub max: i64,
    pub map: HashMap<u64, usize>,
}

/// The grid faithfully mirrors the arena: every stored key leads to the
/// arena point sitting in that cell, and every arena point is reachable
/// under the key of its own cell.
pub open spec fn grid_wf(cell: int, m: Map<u64, usize>, arena: Seq<PointModel>) -> bool {
    &&& 1 <= cell <= RADIUS_LIMIT as int
    &&& forall|kk: u64| #[trigger]
        m.contains_key(kk) ==> (m[kk] as int) < arena.len() && key_of(
            arena[m[kk] as int].pos,
            cell,
        ) == kk as int
    &&& forall|i: int|
        0 <= i < arena.len() ==> {
            let kk = key_of((#[trigger] arena[i]).pos, cell) as u64;
            m.contains_key(kk) && m[kk] as int == i
        }
}

/// Computes the packed cell key of a two-dimensional position.
fn key_for(p: &Vec<i64>, cell: i64) -> (kk: u64)
    requires
        p@.len() == 2,
        pos_in_bounds(ints(p@)),
        1 <= cell,
    ensures
        kk as int == key_of(ints(p@), cell as int),
{
    proof {
        assert(ints(p@)[0] == p@[0] as int);
        assert(ints(p@)[1] == p@[1] as int);
        lemma_cell_range(ints(p@)[0], cell as int);
        lemma_cell_range(ints(p@)[1], cell as int);
        lemma_key_range(ints(p@), cell as int);
    }
    let ux: u64 = ((p[0] + COORD_LIMIT) as u64) / (cell as u64);
    let uy: u64 = ((p[1] + COORD_LIMIT) as u64) / (cell as u64);
    ux * KEY_STRIDE + uy
}

impl GridIndex {
    /// A fresh, empty grid for the declared radius bounds; the cell side is
    /// the declared minimum radius.
    pub fn new(cell: i64, max: i64) -> (g: GridIndex)
        requires
            1 <= cell <= max,
            max <= RADIUS_LIMIT,
        ensures
            g.cell == cell,
            g.max == max,
            grid_wf(cell as int, g.map@, Seq::<PointModel>::empty()),
    {
        GridIndex { cell, max, map: HashMap::new() }
    }

    /// Registers the point just appended to the arena under its cell key.
    /// Separation guarantees its cell was empty, so nothing is displaced.
    pub fn insert(
        &mut self,
        p: &Vec<i64>,
        r: i64,
        idx: usize,
        Ghost(arena): Ghost<Seq<PointModel>>,
    )
        requires
            grid_wf(old(self).cell as int, old(self).map@, arena),
            points_wf(arena, 2),
            pairwise_separated(arena),
            radii_within(arena, old(self).cell as int, RADIUS_LIMIT as int),
            idx == arena.len(),
            p@.len() == 2,
            pos_in_bounds(ints(p@)),
            radius_ok(r as int),
            r >= old(self).cell,
            sep_from_all(arena, ints(p@), r as int),
        ensures
            final(self).cell == old(self).cell,
            final(self).max == old(self).max,
            grid_wf(
                final(self).cell as int,
                final(self).map@,
                arena.push(PointModel { pos: ints(p@), radius: r as int }),
            ),
    {
        let kk = key_for(p, self.cell);
        let ghost c = self.cell as int;
        let ghost pm = PointModel { pos: ints(p@), radius: r as int };
        let ghost arena2 = arena.push(pm);
        proof {
            // No arena point shares this cell: it would sit closer than the
            // two minimum radii allow.
            if self.map@.contains_key(kk) {
                let j = self.map@[kk] as int;
                assert(key_of(arena[j].pos, c) == kk as int);
                lemma_key_unpack(arena[j].pos, pm.pos, c);
                lemma_same_cell_close(arena[j].pos[0], pm.pos[0], c);
                lemma_same_cell_close(arena[j].pos[1], pm.pos[1], c);
                lemma_dist_sq_2d(arena[j].pos, pm.pos);
                assert(sep_ok(arena[j].pos, arena[j].radius, pm.pos, pm.radius));
                let d0 = arena[j].pos[0] - pm.pos[0];
                let d1 = arena[j].pos[1] - pm.pos[1];
                let rsum = arena[j].radius + pm.radius;
                assert(d0 * d0 + d1 * d1 >= rsum * rsum);
                assert(false) by (nonlinear_arith)
                    requires
                        -(c - 1) <= d0 <= c - 1,
                        -(c - 1) <= d1 <= c - 1,
                        d0 * d0 + d1 * d1 >= rsum * rsum,
                        rsum >= 2 * c,
                        c >= 1;
            }
        }
        self.map.insert(kk, idx);
        proof {
            assert forall|i: int| 0 <= i < arena2.len() implies {
                let k2 = key_of((#[trigger] arena2[i]).pos, c) as u64;
                self.map@.contains_key(k2) && self.map@[k2] as int == i
            } by {
                if i < arena.len() {
                    assert(arena2[i] == arena[i]);
                    let k2 = key_of(arena[i].pos, c) as u64;
                    lemma_key_range(arena[i].pos, c);
                    assert(k2 != kk);
                } else {
                    assert(arena2[i] == pm);
                }
            }
            assert forall|kk2: u64| #[trigger]
                self.map@.contains_key(kk2) implies (self.map@[kk2] as int) < arena2.len()
                && key_of(arena2[self.map@[kk2] as int].pos, c) == kk2 as int by {
                if kk2 != kk {
                    assert(old(self).map@.contains_key(kk2));
                    assert(arena2[old(self).map@[kk2] as int] == arena[old(self).map@[kk2] as int]);
                } else {
                    assert(arena2[idx as int] == pm);
                }
            }
        }
    }

    /// The per-candidate rejection test of the grid strategy: scans the
    /// window of cells a conflicting point could occupy and reaches the same
    /// verdict as the brute-force scan of the whole arena.
    pub fn query(&self, pts: &Vec<Point>, cand: &Vec<i64>, r: i64) -> (ok: bool)
        requires
            grid_wf(self.cell as int, self.map@, models(pts@)),
            points_wf(models(pts@), 2),
            radii_within(models(pts@), self.cell as int, self.max as int),
            cand@.len() == 2,
            pos_in_bounds(ints(cand@)),
            radius_ok(r as int),
            radius_ok(self.max as int),
        ensures
            ok == sep_from_all(models(pts@), ints(cand@), r as int),
    {
        let max_radius = self.max;
        let ghost arena = models(pts@);
        let ghost c = self.cell as int;
        let ghost cs = ints(cand@);
        proof {
            assert(cs[0] == cand@[0] as int);
            assert(cs[1] == cand@[1] as int);
            lemma_cell_range(cs[0], c);
            lemma_cell_range(cs[1], c);
        }
        let ux: u64 = ((cand[0] + COORD_LIMIT) as u64) / (self.cell as u64);
        let uy: u64 = ((cand[1] + COORD_LIMIT) as u64) / (self.cell as u64);
        // The window: a conflicting neighbor is nearer than its own radius
        // (at most `max_radius`) plus the candidate's.
        let w: u64 = (((r + max_radius) as u64) / (self.cell as u64)) + 1;
        let ghost wg = (r + max_radius) as int / c + 1;
        proof {
            lemma_div_pos_is_pos((r + max_radius) as int, c);
            lemma_div_nonincreasing((r + max_radius) as int, c);
            assert(w as int <= (r + max_radius) as int + 1);
        }
        let kx_lo: u64 = if ux > w {
            ux - w
        } else {
            0
        };
        let kx_hi: u64 = ux + w;
        let ky_lo: u64 = if uy > w {
            uy - w
        } else {
            0
        };
        let ky_hi: u64 = uy + w;
        let mut kx: u64 = kx_lo;
        while kx <= kx_hi
            invariant
                arena == models(pts@),
                grid_wf(c, self.map@, arena),
                points_wf(arena, 2),
                radii_within(arena, c, max_radius as int),
                cand@.len() == 2,
                cs == ints(cand@),
                pos_in_bounds(cs),
                radius_ok(r as int),
                radius_ok(max_radius as int),
                c == self.cell as int,
                ux as int == cell_of(cs[0], c),
                uy as int == cell_of(cs[1], c),
                w as int == wg,
                kx_lo as int == if ux as int - wg >= 0 {
                    ux as int - wg
                } else {
                    0
                },
                ky_lo as int == if uy as int - wg >= 0 {
                    uy as int - wg
                } else {
                    0
                },
                kx_hi as int == ux as int + wg,
                ky_hi as int == uy as int + wg,
                kx_hi < KEY_STRIDE,
                ky_hi < KEY_STRIDE,
                kx_lo <= kx,
                kx <= kx_hi + 1,
                forall|i: int|
                    0 <= i < arena.len() && kx_lo as int <= cell_of(
                        (#[trigger] arena[i]).pos[0],
                        c,
                    ) < kx as int && ky_lo as int <= cell_of(arena[i].pos[1], c) <= ky_hi as int
                        ==> sep_ok(arena[i].pos, arena[i].radius, cs, r as int),
            decreases kx_hi + 1 - kx,
        {
            let mut ky: u64 = ky_lo;
            while ky <= ky_hi
                invariant
                    arena == models(pts@),
                    grid_wf(c, self.map@, arena),
                    points_wf(arena, 2),
                    radii_within(arena, c, max_radius as int),
                    cand@.len() == 2,
                    cs == ints(cand@),
                    pos_in_bounds(cs),
                    radius_ok(r as int),
                    radius_ok(max_radius as int),
                    c == self.cell as int,
                    kx < KEY_STRIDE,
                    ky_lo <= ky,
                    ky <= ky_hi + 1,
                    ky_hi < KEY_STRIDE,
                    forall|i: int|
                        0 <= i < arena.len() && cell_of((#[trigger] arena[i]).pos[0], c) == kx as int
                            && ky_lo as int <= cell_of(arena[i].pos[1], c) < ky as int ==> sep_ok(
                            arena[i].pos,
                            arena[i].radius,
                            cs,
                            r as int,
                        ),
                decreases ky_hi + 1 - ky,
            {
                let key: u64 = kx * KEY_STRIDE + ky;
                match self.map.get(&key) {
                    Some(idx_ref) => {
                        let idx: usize = *idx_ref;
                        proof {
                            assert(self.map@.contains_key(key));
                            assert(self.map@[key] == idx);
                            assert((self.map@[key] as int) < arena.len());
                            assert(arena == models(pts@));
                            assert(models(pts@).len() == pts@.len());
                            assert(idx < pts@.len());
                            assert(models(pts@)[idx as int] == pts@[idx as int]@);
                        }
                        if !separated(&pts[idx].pos, pts[idx].radius, cand, r) {
                            proof {
                                assert(!sep_ok(arena[idx as int].pos, arena[idx as int].radius, cs, r as int));
                            }
                            return false;
                        }
                        proof {
                            assert forall|i: int|
                                0 <= i < arena.len() && cell_of((#[trigger] arena[i]).pos[0], c)
                                    == kx as int && cell_of(arena[i].pos[1], c) == ky as int
                                implies sep_ok(arena[i].pos, arena[i].radius, cs, r as int) by {
                                lemma_cell_range(arena[i].pos[0], c);
                                lemma_cell_range(arena[i].pos[1], c);
                                assert(key_of(arena[i].pos, c) == kx as int * (KEY_STRIDE as int)
                                    + ky as int);
                                assert(key_of(arena[i].pos, c) as u64 == key);
                                assert(self.map@[key] as int == i);
                                assert(i == idx as int);
                            }
                        }
                    },
                    None => {
                        proof {
                            assert(!self.map@.contains_key(key));
                            assert forall|i: int|
                                0 <= i < arena.len() && cell_of((#[trigger] arena[i]).pos[0], c)
                                    == kx as int && cell_of(arena[i].pos[1], c) == ky as int
                                implies sep_ok(arena[i].pos, arena[i].radius, cs, r as int) by {
                                lemma_cell_range(arena[i].pos[0], c);
                                lemma_cell_range(arena[i].pos[1], c);
                                assert(key_of(arena[i].pos, c) == kx as int * (KEY_STRIDE as int)
                                    + ky as int);
                                assert(key_of(arena[i].pos, c) as u64 == key);
                                assert(self.map@.contains_key(key));
                                assert(false);
                            }
                        }
                    },
                }
                ky = ky + 1;
            }
            kx = kx + 1;
        }
        proof {
            assert forall|i: int| 0 <= i < arena.len() implies sep_ok(
                (#[trigger] arena[i]).pos,
                arena[i].radius,
                cs,
                r as int,
            ) by {
                if !sep_ok(arena[i].pos, arena[i].radius, cs, r as int) {
                    let rr = arena[i].radius;
                    let rsum = rr + r;
                    let dd = (r + max_radius) as int;
                    lemma_dist_sq_2d(arena[i].pos, cs);
                    let d0 = arena[i].pos[0] - cs[0];
                    let d1 = arena[i].pos[1] - cs[1];
                    assert(d0 * d0 + d1 * d1 < rsum * rsum);
                    assert(d0 * d0 >= 0) by (nonlinear_arith);
                    assert(d1 * d1 >= 0) by (nonlinear_arith);
                    assert(d0 * d0 < (dd + 1) * (dd + 1)) by (nonlinear_arith)
                        requires
                            d0 * d0 + d1 * d1 < rsum * rsum,
                            d1 * d1 >= 0,
                            0 < rsum <= dd;
                    assert(d1 * d1 < (dd + 1) * (dd + 1)) by (nonlinear_arith)
                        requires
                            d0 * d0 + d1 * d1 < rsum * rsum,
                            d0 * d0 >= 0,
                            0 < rsum <= dd;
                    lemma_abs_lt(d0, dd + 1);
                    lemma_abs_lt(d1, dd + 1);
                    lemma_cell_window(arena[i].pos[0], cs[0], c, dd);
                    lemma_cell_window(arena[i].pos[1], cs[1], c, dd);
                    lemma_cell_range(arena[i].pos[0], c);
                    lemma_cell_range(arena[i].pos[1], c);
                    assert(false);
                }
            }
        }
        true
    }
}


impl SpatialIndex for GridIndex {
    open spec fn inv(&self, arena: Seq<PointModel>, dim: nat) -> bool {
        &&& dim == 2
        &&& self.cell <= self.max <= RADIUS_LIMIT
        &&& grid_wf(self.cell as int, self.map@, arena)
    }

    open spec fn min_radius(&self) -> int {
        self.cell as int
    }

    open spec fn max_radius(&self) -> int {
        self.max as int
    }

    proof fn lemma_band(&self, arena: Seq<PointModel>, dim: nat) {
    }

    fn radius_in_band(&self, r: i64) -> (b: bool) {
        self.cell <= r && r <= self.max
    }

    fn check(&self, pts: &Vec<Point>, cand: &Vec<i64>, r: i64) -> (ok: bool) {
        self.query(pts, cand, r)
    }

    fn record(&mut self, cand: &Vec<i64>, r: i64, idx: usize, Ghost(arena): Ghost<Seq<PointModel>>) {
        proof {
            assert(radii_within(arena, self.cell as int, RADIUS_LIMIT as int));
        }
        self.insert(cand, r, idx, Ghost(arena));
    }
}

/// Runs the sampler with the grid-accelerated neighbor check and returns the
/// arena of accepted points, radii included.
///
/// The caller declares in advance that the oracle's radii lie in
/// `[min_distance, max_distance]`; an answer outside those bounds is treated
/// as a rejection.  Every pair of returned points keeps the separation
/// invariant.  Under a deterministic oracle and source, and an oracle that
/// honours the declared bounds, the result equals `run_model` on the
/// source's stream: exactly what the brute-force strategy returns.
pub fn sample_points_with_min_max<O: DensityOracle, R: RandomSource>(
    k: u32,
    first_pos: Vec<i64>,
    min_distance: i64,
    max_distance: i64,
    rng: &mut R,
    density_func: &O,
) -> (pts: Vec<Point>)
    requires
        first_pos@.len() == 2,
        pos_in_bounds(ints(first_pos@)),
        1 <= min_distance <= max_distance,
        max_distance <= RADIUS_LIMIT,
        (k as int) * 2 + 1 <= usize::MAX as int,
    ensures
        points_wf(models(pts@), 2),
        pairwise_separated(models(pts@)),
        radii_within(models(pts@), min_distance as int, max_distance as int),
        pts@.len() >= 1 ==> models(pts@)[0].pos == ints(first_pos@),
        k == 0 ==> pts@.len() <= 1,
        density_func.deterministic() ==> {
            &&& (pts@.len() == 0 <==> accepted_radius_bounded(
                density_func,
                ints(first_pos@),
                min_distance as int,
                max_distance as int,
            ) is None)
            &&& forall|i: int|
                0 <= i < pts@.len() ==> accepted_radius_bounded(
                    density_func,
                    (#[trigger] models(pts@)[i]).pos,
                    min_distance as int,
                    max_distance as int,
                ) == Some(models(pts@)[i].radius)
        },
        density_func.deterministic() && old(rng).deterministic() && oracle_within(
            density_func,
            min_distance as int,
            max_distance as int,
        ) ==> models(pts@) == run_model(
            density_func,
            ints(first_pos@),
            k as nat,
            old(rng).stream(),
        ),
{
    let mut index = GridIndex::new(min_distance, max_distance);
    sample_points_with(k, first_pos, rng, density_func, &mut index)
}

/// Returns the points generated by a run of the variable-density sampler,
/// using the grid-accelerated neighbor check.  This is faster than
/// `get_points` but less permissive: the minimum and maximum exclusion
/// radius must be declared in advance, and an oracle answer outside those
/// bounds is treated as a rejection.
///
/// Driven by the same deterministic source and a bound-honouring oracle, it
/// returns exactly the points `get_points` returns: the grid is a pure
/// acceleration, not a behavior change.
pub fn get_2d_points_with_min_max<O: DensityOracle, R: RandomSource>(
    k: u32,
    first_pos: Vec<i64>,
    min_distance: i64,
    max_distance: i64,
    rng: &mut R,
    density_func: &O,
) -> (res: Vec<Vec<i64>>)
    requires
        first_pos@.len() == 2,
        pos_in_bounds(ints(first_pos@)),
        1 <= min_distance <= max_distance,
        max_distance <= RADIUS_LIMIT,
        (k as int) * 2 + 1 <= usize::MAX as int,
    ensures
        exists|ms: Seq<PointModel>|
            {
                &&& #[trigger] crate::engine::positions_of(ms) == crate::engine::posints(res@)
                &&& points_wf(ms, 2)
                &&& pairwise_separated(ms)
                &&& radii_within(ms, min_distance as int, max_distance as int)
            },
        res@.len() >= 1 ==> res@[0]@ == first_pos@,
        k == 0 ==> res@.len() <= 1,
        density_func.deterministic() ==> (res@.len() == 0 <==> accepted_radius_bounded(
            density_func,
            ints(first_pos@),
            min_distance as int,
            max_distance as int,
        ) is None),
        density_func.deterministic() && old(rng).deterministic() && oracle_within(
            density_func,
            min_distance as int,
            max_distance as int,
        ) ==> crate::engine::posints(res@) == crate::engine::positions_of(
            run_model(density_func, ints(first_pos@), k as nat, old(rng).stream()),
        ),
{
    let ghost seed_view = first_pos@;
    let mut pts = sample_points_with_min_max(
        k,
        first_pos,
        min_distance,
        max_distance,
        rng,
        density_func,
    );
    let ghost total = pts@;
    let mut res: Vec<Vec<i64>> = Vec::new();
    while pts.len() != 0
        invariant
            res@.len() + pts@.len() == total.len(),
            pts@ == total.skip(res@.len() as int),
            forall|j: int| 0 <= j < res@.len() ==> #[trigger] res@[j] == total[j].pos,
        decreases pts@.len(),
    {
        let ghost i = res@.len() as int;
        let p = pts.remove(0);
        proof {
            assert(p == total[i]);
            assert(total.skip(i).remove(0) =~= total.skip(i + 1));
        }
        res.push(p.pos);
    }
    proof {
        assert(crate::engine::posints(res@) =~= crate::engine::positions_of(models(total)));
        if res@.len() >= 1 {
            assert(ints(res@[0]@) == models(total)[0].pos);
            crate::geometry::lemma_ints_injective(res@[0]@, seed_view);
        }
        assert(points_wf(models(total), 2) && pairwise_separated(models(total)) && radii_within(
            models(total),
            min_distance as int,
            max_distance as int,
        ) && crate::engine::positions_of(models(total)) == crate::engine::posints(res@));
    }
    res
}

} // verus!
