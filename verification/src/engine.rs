//! The sample generator: the active-list expansion loop.
//!
//! The whole run is mirrored by a mathematical model, `run_model`: the exact
//! sequence of points the loop accepts, as a function of the oracle, the seed,
//! the attempt budget and the random source's word stream.  A run driven by a
//! deterministic oracle and source is proved equal to that model, which is
//! what makes runs replayable and lets the grid-accelerated strategy be
//! proved equivalent to the brute-force one.

use vstd::prelude::*;

use crate::{COORD_LIMIT, RADIUS_LIMIT};
use crate::geometry::{in_bounds_vec, ints, lemma_ints_injective, pos_in_bounds, radius_ok};
use crate::oracle::{
    DensityOracle, accepted_radius, accepted_radius_bounded, lemma_bounded_radius_agrees,
    lemma_full_band_radius, lemma_oracle_within_full, opt_to_int, oracle_within,
};
use crate::points::{
    Point, PointModel, check_all_points, lemma_push_separated, models, pairwise_separated,
    points_wf, radii_within, sep_from_all,
};
use crate::source::{
    RandomSource, drop_words, lemma_drop_words_len, offset_decode, pick_decode, rest_words,
};

verus! {

/// Coordinate-wise sum of a position and an offset.
pub open spec fn seq_add(a: Seq<int>, b: Seq<int>) -> Seq<int>
    recommends
        a.len() == b.len(),
{
    Seq::new(a.len(), |i: int| a[i] + b[i])
}

/// Every entry is a valid index into an arena of `n` points.
pub open spec fn active_ok(active: Seq<int>, n: int) -> bool {
    forall|i: int| 0 <= i < active.len() ==> 0 <= #[trigger] active[i] < n
}

/// The state a sampling run moves through: the arena of accepted points, the
/// indices still eligible to spawn children, and the words the random source
/// has not yet handed out.
#[verifier::ext_equal]
pub struct RunState {
    pub arena: Seq<PointModel>,
    pub active: Seq<int>,
    pub words: Seq<u64>,
}

/// One candidate attempt around the point `cur`: draw an offset, ask the
/// oracle, check the separation against the whole arena, and accept or
/// reject.  Exactly `cur.pos.len()` words are consumed either way.
pub open spec fn attempt_once<O: DensityOracle>(o: &O, cur: PointModel, st: RunState) -> RunState {
    let dim = cur.pos.len();
    let off = offset_decode(st.words, dim, 3 * cur.radius);
    let cand = seq_add(cur.pos, off);
    let words2 = drop_words(st.words, dim);
    let accept = {
        &&& pos_in_bounds(cand)
        &&& match accepted_radius(o, cand) {
            Some(r) => sep_from_all(st.arena, cand, r),
            None => false,
        }
    };
    if accept {
        let r = accepted_radius(o, cand)->Some_0;
        RunState {
            arena: st.arena.push(PointModel { pos: cand, radius: r }),
            active: st.active.push(st.arena.len() as int),
            words: words2,
        }
    } else {
        RunState { arena: st.arena, active: st.active, words: words2 }
    }
}

/// `j` successive candidate attempts around `cur`.
pub open spec fn attempts<O: DensityOracle>(o: &O, cur: PointModel, st: RunState, j: nat) -> RunState
    decreases j,
{
    if j == 0 {
        st
    } else {
        attempts(o, cur, attempt_once(o, cur, st), (j - 1) as nat)
    }
}

/// The words one expansion round consumes: one pick plus `k` attempts of
/// `dim` words each.
pub open spec fn round_words(k: nat, dim: nat) -> nat {
    1 + k * dim
}

pub proof fn lemma_drop_words_add(s: Seq<u64>, a: nat, b: nat)
    ensures
        drop_words(drop_words(s, a), b) == drop_words(s, (a + b) as nat),
    decreases a,
{
    if a > 0 {
        lemma_drop_words_add(rest_words(s), (a - 1) as nat, b);
    }
}

/// A round of attempts consumes exactly `j * dim` words (or the whole
/// stream, whichever is less).
pub proof fn lemma_attempts_words<O: DensityOracle>(o: &O, cur: PointModel, st: RunState, j: nat)
    ensures
        attempts(o, cur, st, j).words == drop_words(st.words, (j * cur.pos.len()) as nat),
    decreases j,
{
    let dim = cur.pos.len();
    if j == 0 {
        assert(drop_words(st.words, 0nat) == st.words);
    } else {
        let st1 = attempt_once(o, cur, st);
        lemma_attempts_words(o, cur, st1, (j - 1) as nat);
        lemma_drop_words_add(st.words, dim, ((j - 1) * dim) as nat);
        assert(dim + (j - 1) * dim == j * dim) by (nonlinear_arith);
    }
}

/// The expansion loop: while some point is still active and enough words
/// remain for a full round, pick an active point at random, give it `k`
/// candidate attempts, then retire it.
pub open spec fn expand<O: DensityOracle>(o: &O, k: nat, dim: nat, st: RunState) -> Seq<PointModel>
    decreases st.words.len(),
    via expand_decreases::<O>
{
    if st.active.len() == 0 || st.words.len() < round_words(k, dim) {
        st.arena
    } else {
        let ri = pick_decode(st.words, st.active.len() as int);
        let ci = st.active[ri];
        let cur = st.arena[ci];
        let st1 = RunState { arena: st.arena, active: st.active, words: rest_words(st.words) };
        let st2 = attempts(o, cur, st1, k);
        let st3 = RunState { arena: st2.arena, active: st2.active.remove(ri), words: st2.words };
        expand(o, k, dim, st3)
    }
}

#[via_fn]
proof fn expand_decreases<O: DensityOracle>(o: &O, k: nat, dim: nat, st: RunState) {
    if !(st.active.len() == 0 || st.words.len() < round_words(k, dim)) {
        let ri = pick_decode(st.words, st.active.len() as int);
        let cur = st.arena[st.active[ri]];
        let st1 = RunState { arena: st.arena, active: st.active, words: rest_words(st.words) };
        lemma_attempts_words(o, cur, st1, k);
        lemma_drop_words_len(st1.words, (k * cur.pos.len()) as nat);
        assert(st1.words.len() < st.words.len());
    }
}

/// The state right after the seed point has been accepted.
pub open spec fn initial_state(seed: Seq<int>, r: int, words: Seq<u64>) -> RunState {
    RunState {
        arena: seq![PointModel { pos: seed, radius: r }],
        active: seq![0int],
        words,
    }
}

/// The entire sampling run as a mathematical function: the arena the loop
/// terminates with, given the oracle, the seed position, the attempt budget
/// and the source's word stream.  A rejected seed yields the empty arena.
pub open spec fn run_model<O: DensityOracle>(
    o: &O,
    seed: Seq<int>,
    k: nat,
    words: Seq<u64>,
) -> Seq<PointModel> {
    match accepted_radius(o, seed) {
        Some(r) => expand(o, k, seed.len(), initial_state(seed, r, words)),
        None => Seq::empty(),
    }
}

/// The integer view of a sequence of arena indices.
pub open spec fn active_ints(a: Seq<usize>) -> Seq<int> {
    a.map_values(|x: usize| x as int)
}

/// A neighbor-query strategy: decides, for each candidate, whether it keeps
/// the required separation from every accepted point.  The sampler is
/// parameterized over this: the brute-force fallback scans the whole arena,
/// the hashed grid prunes the scan to a bounded window of cells.
///
/// A strategy accepts points only within its radius band
/// `[min_radius, max_radius]`; the sampler treats an oracle answer outside
/// the band as a rejection.  The fallback's band is the sampler's whole
/// radius range, so it restricts nothing.
pub trait SpatialIndex: Sized {
    /// The strategy's internal invariant, relative to the arena it mirrors.
    spec fn inv(&self, arena: Seq<PointModel>, dim: nat) -> bool;

    spec fn min_radius(&self) -> int;

    spec fn max_radius(&self) -> int;

    /// The radius band is sane whenever the invariant holds.
    proof fn lemma_band(&self, arena: Seq<PointModel>, dim: nat)
        requires
            self.inv(arena, dim),
        ensures
            1 <= self.min_radius() <= self.max_radius(),
            self.max_radius() <= RADIUS_LIMIT as int,
    ;

    /// Whether the strategy accepts points of this radius.
    fn radius_in_band(&self, r: i64) -> (b: bool)
        ensures
            b == (self.min_radius() <= r as int && r as int <= self.max_radius()),
    ;

    /// The per-candidate rejection test: exactly the verdict of a scan of
    /// the whole arena.
    fn check(&self, pts: &Vec<Point>, cand: &Vec<i64>, r: i64) -> (ok: bool)
        requires
            self.inv(models(pts@), cand@.len() as nat),
            points_wf(models(pts@), cand@.len() as nat),
            radii_within(models(pts@), self.min_radius(), self.max_radius()),
            pos_in_bounds(ints(cand@)),
            radius_ok(r as int),
            self.min_radius() <= r as int <= self.max_radius(),
        ensures
            ok == sep_from_all(models(pts@), ints(cand@), r as int),
    ;

    /// Registers the point about to be appended to the arena.
    fn record(&mut self, cand: &Vec<i64>, r: i64, idx: usize, Ghost(arena): Ghost<Seq<PointModel>>)
        requires
            old(self).inv(arena, cand@.len() as nat),
            points_wf(arena, cand@.len() as nat),
            pairwise_separated(arena),
            radii_within(arena, old(self).min_radius(), old(self).max_radius()),
            idx == arena.len(),
            pos_in_bounds(ints(cand@)),
            radius_ok(r as int),
            old(self).min_radius() <= r as int <= old(self).max_radius(),
            sep_from_all(arena, ints(cand@), r as int),
        ensures
            final(self).inv(
                arena.push(PointModel { pos: ints(cand@), radius: r as int }),
                cand@.len() as nat,
            ),
            final(self).min_radius() == old(self).min_radius(),
            final(self).max_radius() == old(self).max_radius(),
    ;
}

/// The brute-force fallback strategy: no radius bounds need to be declared,
/// and the rejection test scans the whole arena.
pub struct FullScan;

impl SpatialIndex for FullScan {
    open spec fn inv(&self, arena: Seq<PointModel>, dim: nat) -> bool {
        true
    }

    open spec fn min_radius(&self) -> int {
        1
    }

    open spec fn max_radius(&self) -> int {
        RADIUS_LIMIT as int
    }

    proof fn lemma_band(&self, arena: Seq<PointModel>, dim: nat) {
    }

    fn radius_in_band(&self, r: i64) -> (b: bool) {
        1 <= r && r <= RADIUS_LIMIT
    }

    fn check(&self, pts: &Vec<Point>, cand: &Vec<i64>, r: i64) -> (ok: bool) {
        check_all_points(pts, cand, r)
    }

    fn record(&mut self, cand: &Vec<i64>, r: i64, idx: usize, Ghost(arena): Ghost<Seq<PointModel>>) {
    }
}

/// Asks the oracle for the radius at `pos` and validates the answer against
/// the strategy's radius band.
fn eval_radius_indexed<O: DensityOracle, S: SpatialIndex>(
    o: &O,
    index: &S,
    pos: &Vec<i64>,
) -> (r: Option<i64>)
    ensures
        r matches Some(v) ==> index.min_radius() <= v as int <= index.max_radius(),
        o.deterministic() ==> opt_to_int(r) == accepted_radius_bounded(
            o,
            ints(pos@),
            index.min_radius(),
            index.max_radius(),
        ),
{
    match o.eval(pos) {
        Some(v) => if index.radius_in_band(v) {
            Some(v)
        } else {
            None
        },
        None => None,
    }
}

/// The sample generator, parameterized over the neighbor-query strategy, as
/// one engine for any dimension: runs the active-list expansion loop and
/// returns the arena of accepted points, radii included.
///
/// Every pair of returned points keeps the separation invariant, and every
/// radius lies in the strategy's band.  Under a deterministic oracle each
/// returned radius is exactly the oracle's validated answer at the point's
/// position, and the result is empty exactly when that answer rejects the
/// seed; under a deterministic source as well, and an oracle that honours
/// the band, the whole result equals `run_model` on the source's stream --
/// whatever the strategy, which is what makes the strategies equivalent.
pub fn sample_points_with<O: DensityOracle, R: RandomSource, S: SpatialIndex>(
    k: u32,
    first_pos: Vec<i64>,
    rng: &mut R,
    density_func: &O,
    index: &mut S,
) -> (pts: Vec<Point>)
    requires
        old(index).inv(Seq::<PointModel>::empty(), first_pos@.len() as nat),
        pos_in_bounds(ints(first_pos@)),
        (k as int) * (first_pos@.len() as int) + 1 <= usize::MAX as int,
    ensures
        points_wf(models(pts@), first_pos@.len()),
        pairwise_separated(models(pts@)),
        radii_within(models(pts@), old(index).min_radius(), old(index).max_radius()),
        pts@.len() >= 1 ==> models(pts@)[0].pos == ints(first_pos@),
        k == 0 ==> pts@.len() <= 1,
        density_func.deterministic() ==> {
            &&& (pts@.len() == 0 <==> accepted_radius_bounded(
                density_func,
                ints(first_pos@),
                old(index).min_radius(),
                old(index).max_radius(),
            ) is None)
            &&& forall|i: int|
                0 <= i < pts@.len() ==> accepted_radius_bounded(
                    density_func,
                    (#[trigger] models(pts@)[i]).pos,
                    old(index).min_radius(),
                    old(index).max_radius(),
                ) == Some(models(pts@)[i].radius)
        },
        density_func.deterministic() && old(rng).deterministic() && oracle_within(
            density_func,
            old(index).min_radius(),
            old(index).max_radius(),
        ) ==> models(pts@) == run_model(
            density_func,
            ints(first_pos@),
            k as nat,
            old(rng).stream(),
        ),
{
    let ghost seed = ints(first_pos@);
    let ghost s0 = rng.stream();
    let ghost rng_det = rng.deterministic();
    let ghost o_det = density_func.deterministic();
    let ghost lo = index.min_radius();
    let ghost hi = index.max_radius();
    let ghost within = oracle_within(density_func, lo, hi);
    let ghost pinned = o_det && rng_det && within;
    let dim = first_pos.len();
    proof {
        index.lemma_band(Seq::<PointModel>::empty(), dim as nat);
    }

    let mut pts: Vec<Point> = Vec::new();
    let mut active: Vec<usize> = Vec::new();

    let seed_rad: i64 = match eval_radius_indexed(density_func, index, &first_pos) {
        None => {
            proof {
                assert(models(pts@) =~= Seq::<PointModel>::empty());
                if pinned {
                    lemma_bounded_radius_agrees(density_func, seed, lo, hi);
                }
            }
            return pts;
        },
        Some(r) => r,
    };
    proof {
        assert(models(pts@) =~= Seq::<PointModel>::empty());
    }
    index.record(&first_pos, seed_rad, 0, Ghost(models(pts@)));
    pts.push(Point { pos: first_pos, radius: seed_rad });
    active.push(0);
    let ghost target = run_model(density_func, seed, k as nat, s0);
    proof {
        assert(models(pts@) =~= seq![PointModel { pos: seed, radius: seed_rad as int }]);
        assert(active_ints(active@) =~= seq![0int]);
        if o_det {
            assert(accepted_radius_bounded(density_func, seed, lo, hi) == Some(seed_rad as int));
        }
        if pinned {
            lemma_bounded_radius_agrees(density_func, seed, lo, hi);
            assert(accepted_radius(density_func, seed) == Some(seed_rad as int));
            assert(initial_state(seed, seed_rad as int, s0) =~= RunState {
                arena: models(pts@),
                active: active_ints(active@),
                words: rng.stream(),
            });
        }
    }
    let needed: usize = (k as usize) * dim + 1;
    let mut more = true;

    while more && active.len() != 0
        invariant
            needed as int == 1 + (k as int) * (dim as int),
            points_wf(models(pts@), dim as nat),
            pairwise_separated(models(pts@)),
            radii_within(models(pts@), lo, hi),
            index.inv(models(pts@), dim as nat),
            index.min_radius() == lo,
            index.max_radius() == hi,
            1 <= lo <= hi,
            hi <= RADIUS_LIMIT as int,
            pts@.len() >= 1,
            models(pts@)[0].pos == seed,
            seed.len() == dim,
            active_ok(active_ints(active@), pts@.len() as int),
            active@.len() <= pts@.len(),
            k == 0 ==> pts@.len() == 1,
            o_det == density_func.deterministic(),
            within == oracle_within(density_func, lo, hi),
            pinned == (o_det && rng_det && within),
            o_det ==> forall|i: int|
                0 <= i < pts@.len() ==> accepted_radius_bounded(
                    density_func,
                    (#[trigger] models(pts@)[i]).pos,
                    lo,
                    hi,
                ) == Some(models(pts@)[i].radius),
            pinned ==> rng.deterministic(),
            pinned ==> expand(
                density_func,
                k as nat,
                dim as nat,
                RunState { arena: models(pts@), active: active_ints(active@), words: rng.stream() },
            ) == target,
            !more ==> (pinned ==> rng.stream().len() < needed),
        decreases (if more { 1int } else { 0int }), rng.capacity(),
    {
        if !rng.has_words(needed) {
            more = false;
        } else {
            let ghost st_entry = RunState {
                arena: models(pts@),
                active: active_ints(active@),
                words: rng.stream(),
            };
            let ri = rng.pick_index(active.len());
            let ci = active[ri];
            proof {
                assert(active_ints(active@)[ri as int] == active@[ri as int] as int);
                assert(0 <= active_ints(active@)[ri as int] < pts@.len() as int);
            }
            let ghost cur_model = models(pts@)[ci as int];
            let cur_rad = pts[ci].radius;
            proof {
                assert(cur_model == pts@[ci as int]@);
                assert(radius_ok(cur_rad as int));
                assert(cur_model.pos.len() == dim);
            }
            let ghost cap1 = rng.capacity();
            let ghost st1 = RunState {
                arena: st_entry.arena,
                active: st_entry.active,
                words: rng.stream(),
            };
            let ghost target_inner = attempts(density_func, cur_model, st1, k as nat);
            proof {
                if pinned {
                    assert(st1.words == rest_words(st_entry.words));
                }
            }

            let mut j: u32 = 0;
            while j < k
                invariant
                    j <= k,
                    needed as int == 1 + (k as int) * (dim as int),
                    points_wf(models(pts@), dim as nat),
                    pairwise_separated(models(pts@)),
                    radii_within(models(pts@), lo, hi),
                    index.inv(models(pts@), dim as nat),
                    index.min_radius() == lo,
                    index.max_radius() == hi,
                    1 <= lo <= hi,
                    hi <= RADIUS_LIMIT as int,
                    pts@.len() >= 1,
                    models(pts@)[0].pos == seed,
                    seed.len() == dim,
                    active_ok(active_ints(active@), pts@.len() as int),
                    active@.len() <= pts@.len(),
                    ri < active@.len(),
                    ci < pts@.len(),
                    k == 0 ==> pts@.len() == 1,
                    models(pts@)[ci as int] == cur_model,
                    cur_model.radius == cur_rad as int,
                    cur_model.pos.len() == dim,
                    radius_ok(cur_rad as int),
                    o_det == density_func.deterministic(),
                    within == oracle_within(density_func, lo, hi),
                    pinned == (o_det && rng_det && within),
                    o_det ==> forall|i: int|
                        0 <= i < pts@.len() ==> accepted_radius_bounded(
                            density_func,
                            (#[trigger] models(pts@)[i]).pos,
                            lo,
                            hi,
                        ) == Some(models(pts@)[i].radius),
                    pinned ==> rng.deterministic(),
                    pinned ==> attempts(
                        density_func,
                        cur_model,
                        RunState {
                            arena: models(pts@),
                            active: active_ints(active@),
                            words: rng.stream(),
                        },
                        (k - j) as nat,
                    ) == target_inner,
                    rng.capacity() <= cap1,
                decreases k - j,
            {
                let maxl: i64 = 3 * cur_rad;
                let ghost st_before = RunState {
                    arena: models(pts@),
                    active: active_ints(active@),
                    words: rng.stream(),
                };
                let off = rng.offset_vector(dim, cur_rad, maxl);

                let mut cand: Vec<i64> = Vec::new();
                let mut t: usize = 0;
                while t < dim
                    invariant
                        t <= dim,
                        cand@.len() == t,
                        off@.len() == dim,
                        forall|i: int| 0 <= i < dim ==> -maxl <= #[trigger] off@[i] <= maxl,
                        maxl == 3 * (cur_rad as int),
                        radius_ok(cur_rad as int),
                        ci < pts@.len(),
                        points_wf(models(pts@), dim as nat),
                        models(pts@)[ci as int] == cur_model,
                        cur_model.pos.len() == dim,
                        forall|i: int|
                            0 <= i < t ==> #[trigger] cand@[i] as int == cur_model.pos[i]
                                + off@[i] as int,
                    decreases dim - t,
                {
                    proof {
                        assert(pos_in_bounds(cur_model.pos));
                        assert(cur_model.pos[t as int] == pts@[ci as int].pos@[t as int] as int);
                        assert(-(COORD_LIMIT as int) <= cur_model.pos[t as int] <= COORD_LIMIT
                            as int);
                    }
                    let base: i64 = pts[ci].pos[t];
                    let c: i64 = base + off[t];
                    cand.push(c);
                    t = t + 1;
                }
                proof {
                    assert(ints(cand@) =~= seq_add(cur_model.pos, ints(off@)));
                }

                let inb = in_bounds_vec(&cand);
                let ghost pts_before = pts@;
                let ghost active_before = active@;
                if inb {
                    match eval_radius_indexed(density_func, index, &cand) {
                        Some(rad) => {
                            if index.check(&pts, &cand, rad) {
                                proof {
                                    lemma_push_separated(
                                        models(pts@),
                                        ints(cand@),
                                        rad as int,
                                        dim as nat,
                                    );
                                }
                                let ghost cand_model = PointModel {
                                    pos: ints(cand@),
                                    radius: rad as int,
                                };
                                let idx = pts.len();
                                index.record(&cand, rad, idx, Ghost(models(pts@)));
                                pts.push(Point { pos: cand, radius: rad });
                                active.push(idx);
                                proof {
                                    assert(models(pts@) =~= models(pts_before).push(cand_model));
                                    assert(active_ints(active@) =~= active_ints(
                                        active_before,
                                    ).push(idx as int));
                                }
                            }
                        },
                        None => {},
                    }
                }
                j = j + 1;
                proof {
                    if pinned {
                        lemma_bounded_radius_agrees(density_func, ints(cand@), lo, hi);
                        let st_after = RunState {
                            arena: models(pts@),
                            active: active_ints(active@),
                            words: rng.stream(),
                        };
                        assert(attempt_once(density_func, cur_model, st_before) =~= st_after);
                        assert(attempts(density_func, cur_model, st_before, (k - j + 1) as nat)
                            == attempts(density_func, cur_model, st_after, (k - j) as nat));
                    }
                }
            }

            let ghost active_mid = active@;
            active.remove(ri);
            proof {
                assert(active_ints(active@) =~= active_ints(active_mid).remove(ri as int));
                assert forall|i: int|
                    0 <= i < active_ints(active@).len() implies 0 <= #[trigger] active_ints(
                    active@,
                )[i] < pts@.len() as int by {
                    if i < ri {
                        assert(active_ints(active@)[i] == active_ints(active_mid)[i]);
                    } else {
                        assert(active_ints(active@)[i] == active_ints(active_mid)[i + 1]);
                    }
                }
                if pinned {
                    let st_now = RunState {
                        arena: models(pts@),
                        active: active_ints(active@),
                        words: rng.stream(),
                    };
                    let st2 = attempts(density_func, cur_model, st1, k as nat);
                    assert(st2 == target_inner);
                    let st3 = RunState {
                        arena: st2.arena,
                        active: st2.active.remove(ri as int),
                        words: st2.words,
                    };
                    assert(st_now =~= st3);
                    assert(st_entry.words.len() >= round_words(k as nat, dim as nat));
                    assert(ri as int == pick_decode(st_entry.words, st_entry.active.len() as int));
                    assert(st_entry.active[ri as int] == ci as int);
                    assert(st_entry.arena[ci as int] == cur_model);
                    assert(expand(density_func, k as nat, dim as nat, st_entry) == expand(
                        density_func,
                        k as nat,
                        dim as nat,
                        st3,
                    ));
                }
            }
        }
    }
    proof {
        if pinned {
            let st_final = RunState {
                arena: models(pts@),
                active: active_ints(active@),
                words: rng.stream(),
            };
            assert(expand(density_func, k as nat, dim as nat, st_final) == st_final.arena);
        }
    }
    pts
}

/// Runs the sampler with the brute-force neighbor-check fallback: no radius
/// bounds need to be known in advance.
///
/// Every pair of returned points keeps the separation invariant.  Under a
/// deterministic oracle each returned radius is exactly the oracle's answer
/// at the point's position, and the result is empty exactly when the oracle
/// rejects the seed; under a deterministic source as well, the whole result
/// equals `run_model` on the source's stream.
pub fn sample_points<O: DensityOracle, R: RandomSource>(
    k: u32,
    first_pos: Vec<i64>,
    rng: &mut R,
    density_func: &O,
) -> (pts: Vec<Point>)
    requires
        pos_in_bounds(ints(first_pos@)),
        (k as int) * (first_pos@.len() as int) + 1 <= usize::MAX as int,
    ensures
        points_wf(models(pts@), first_pos@.len()),
        pairwise_separated(models(pts@)),
        pts@.len() >= 1 ==> models(pts@)[0].pos == ints(first_pos@),
        k == 0 ==> pts@.len() <= 1,
        density_func.deterministic() ==> {
            &&& (pts@.len() == 0 <==> accepted_radius(density_func, ints(first_pos@)) is None)
            &&& forall|i: int|
                0 <= i < pts@.len() ==> accepted_radius(
                    density_func,
                    (#[trigger] models(pts@)[i]).pos,
                ) == Some(models(pts@)[i].radius)
        },
        density_func.deterministic() && old(rng).deterministic() ==> models(pts@) == run_model(
            density_func,
            ints(first_pos@),
            k as nat,
            old(rng).stream(),
        ),
{
    let ghost seed = ints(first_pos@);
    let mut index = FullScan;
    let pts = sample_points_with(k, first_pos, rng, density_func, &mut index);
    proof {
        if density_func.deterministic() {
            lemma_full_band_radius(density_func, seed);
            assert forall|i: int| 0 <= i < pts@.len() implies accepted_radius(
                density_func,
                (#[trigger] models(pts@)[i]).pos,
            ) == Some(models(pts@)[i].radius) by {
                lemma_full_band_radius(density_func, models(pts@)[i].pos);
            }
        }
        lemma_oracle_within_full(density_func);
    }
    pts
}

/// The positions of a modelled arena, radii dropped.
pub open spec fn positions_of(ms: Seq<PointModel>) -> Seq<Seq<int>> {
    ms.map_values(|m: PointModel| m.pos)
}

/// The mathematical view of a list of coordinate vectors.
pub open spec fn posints(r: Seq<Vec<i64>>) -> Seq<Seq<int>> {
    r.map_values(|v: Vec<i64>| ints(v@))
}

/// Returns the points generated by a run of the variable-density sampler,
/// using the brute-force neighbor check: no radius bounds need to be known
/// in advance.
///
/// `density_func` maps each candidate position to the exclusion radius a
/// point there must keep, or rejects the position; a rejected seed yields an
/// empty result.  `k` is the number of candidates generated and checked
/// around each accepted point before it is retired; higher values pack
/// tighter and cost more time.  The result holds the accepted positions
/// only; the exclusion radii are internal bookkeeping.
pub fn get_points<O: DensityOracle, R: RandomSource>(
    k: u32,
    first_pos: Vec<i64>,
    rng: &mut R,
    density_func: &O,
) -> (res: Vec<Vec<i64>>)
    requires
        pos_in_bounds(ints(first_pos@)),
        (k as int) * (first_pos@.len() as int) + 1 <= usize::MAX as int,
    ensures
        exists|ms: Seq<PointModel>|
            {
                &&& #[trigger] positions_of(ms) == posints(res@)
                &&& points_wf(ms, first_pos@.len())
                &&& pairwise_separated(ms)
            },
        res@.len() >= 1 ==> res@[0]@ == first_pos@,
        k == 0 ==> res@.len() <= 1,
        density_func.deterministic() ==> (res@.len() == 0 <==> accepted_radius(
            density_func,
            ints(first_pos@),
        ) is None),
        density_func.deterministic() && old(rng).deterministic() ==> posints(res@) == positions_of(
            run_model(density_func, ints(first_pos@), k as nat, old(rng).stream()),
        ),
{
    let ghost seed = ints(first_pos@);
    let mut pts = sample_points(k, first_pos, rng, density_func);
    let ghost total = pts@;
    let mut res: Vec<Vec<i64>> = Vec::new();
    while pts.len() != 0
        invariant
            res@.len() + pts@.len() == total.len(),
            pts@ == total.skip(res@.len() as int),
            forall|j: int| 0 <= j < res@.len() ==> #[trigger] res@[j] == total[j].pos,
        decreases pts@.len(),
    {
        let ghost i = res@.len() as int;
        let p = pts.remove(0);
        proof {
            assert(p == total[i]);
            assert(total.skip(i).remove(0) =~= total.skip(i + 1));
        }
        res.push(p.pos);
    }
    proof {
        assert(posints(res@) =~= positions_of(models(total)));
        if res@.len() >= 1 {
            assert(ints(res@[0]@) == models(total)[0].pos);
            lemma_ints_injective(res@[0]@, first_pos@);
        }
        assert(points_wf(models(total), first_pos@.len()) && pairwise_separated(models(total))
            && positions_of(models(total)) == posints(res@));
    }
    res
}

} // verus!
