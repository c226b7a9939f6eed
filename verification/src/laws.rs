//! The laws of the sampler, stated over the run model and the contracts of
//! the two sampling strategies.

use vstd::prelude::*;

use crate::geometry::{dist_sq, ints};
use crate::engine::{expand, initial_state, run_model, RunState};
use crate::oracle::{accepted_radius, in_box, ConstantOracle, DensityOracle};
use crate::points::{pairwise_separated, PointModel};
use crate::source::pick_decode;

verus! {

/// The separation invariant: any two distinct points of a returned arena
/// are at least the sum of their exclusion radii apart.  Both sampling
/// strategies guarantee `pairwise_separated` of their result.
pub proof fn lemma_separation_invariant(pts: Seq<PointModel>, i: int, j: int)
    requires
        pairwise_separated(pts),
        0 <= i < pts.len(),
        0 <= j < pts.len(),
        i != j,
    ensures
        dist_sq(pts[i].pos, pts[j].pos) >= (pts[i].radius + pts[j].radius) * (pts[i].radius
            + pts[j].radius),
{
}

/// The empty-seed law: if the oracle rejects the seed position, the run
/// yields the empty collection, whatever the attempt budget and whatever
/// the random words.
pub proof fn lemma_empty_seed<O: DensityOracle>(o: &O, seed: Seq<int>, k: nat, words: Seq<u64>)
    requires
        accepted_radius(o, seed) is None,
    ensures
        run_model(o, seed, k, words).len() == 0,
{
}

proof fn lemma_expand_zero_budget<O: DensityOracle>(o: &O, dim: nat, st: RunState)
    requires
        st.active.len() <= 1,
    ensures
        expand(o, 0nat, dim, st) == st.arena,
    decreases st.words.len(),
{
    assert(crate::engine::round_words(0nat, dim) == 1);
    if !(st.active.len() == 0 || st.words.len() < 1) {
        let ri = pick_decode(st.words, st.active.len() as int);
        assert(ri == 0);
        let st1 = RunState {
            arena: st.arena,
            active: st.active,
            words: crate::source::rest_words(st.words),
        };
        assert(crate::engine::attempts(o, st.arena[st.active[0]], st1, 0nat) == st1);
        let st3 = RunState { arena: st1.arena, active: st1.active.remove(0), words: st1.words };
        lemma_expand_zero_budget(o, dim, st3);
        assert(expand(o, 0nat, dim, st) == expand(o, 0nat, dim, st3));
    }
}

/// The single-point law: with an attempt budget of zero, a run whose seed
/// the oracle accepts yields exactly one point, the seed itself.
pub proof fn lemma_single_point<O: DensityOracle>(o: &O, seed: Seq<int>, words: Seq<u64>)
    requires
        accepted_radius(o, seed) is Some,
    ensures
        run_model(o, seed, 0nat, words).len() == 1,
        run_model(o, seed, 0nat, words)[0].pos == seed,
        run_model(o, seed, 0nat, words)[0].radius == accepted_radius(o, seed)->Some_0,
{
    let r = accepted_radius(o, seed)->Some_0;
    lemma_expand_zero_budget(o, seed.len(), initial_state(seed, r, words));
}

/// The bounded-domain law: under an oracle that returns one constant radius
/// inside a box and rejects everything outside, every accepted point lies in
/// the box, and any two accepted points are at least twice that radius
/// apart.  The hypotheses are exactly what the samplers' contracts give for
/// a run driven by a `ConstantOracle`.
pub proof fn lemma_bounded_domain(o: &ConstantOracle, pts: Seq<PointModel>)
    requires
        pairwise_separated(pts),
        forall|i: int|
            0 <= i < pts.len() ==> accepted_radius(o, (#[trigger] pts[i]).pos) == Some(
                pts[i].radius,
            ),
    ensures
        forall|i: int|
            0 <= i < pts.len() ==> in_box((#[trigger] pts[i]).pos, ints(o.low@), ints(o.high@)),
        forall|i: int, j: int|
            0 <= i < pts.len() && 0 <= j < pts.len() && i != j ==> dist_sq(
                (#[trigger] pts[i]).pos,
                (#[trigger] pts[j]).pos,
            ) >= (2 * o.radius) * (2 * o.radius),
{
    assert forall|i: int| 0 <= i < pts.len() implies in_box(
        (#[trigger] pts[i]).pos,
        ints(o.low@),
        ints(o.high@),
    ) by {
        assert(accepted_radius(o, pts[i].pos) == Some(pts[i].radius));
    }
    assert forall|i: int, j: int|
        0 <= i < pts.len() && 0 <= j < pts.len() && i != j implies dist_sq(
        (#[trigger] pts[i]).pos,
        (#[trigger] pts[j]).pos,
    ) >= (2 * o.radius) * (2 * o.radius) by {
        assert(accepted_radius(o, pts[i].pos) == Some(pts[i].radius));
        assert(accepted_radius(o, pts[j].pos) == Some(pts[j].radius));
        assert(pts[i].radius == o.radius as int);
        assert(pts[j].radius == o.radius as int);
    }
}

/// The determinism law: the run model is a function of the oracle, the
/// seed, the budget and the word stream alone, so two runs with identical
/// inputs accept identical ordered point sequences.  Each sampling strategy
/// ensures its result equals the run model whenever its oracle and source
/// are deterministic.
pub proof fn lemma_determinism<O: DensityOracle>(
    o: &O,
    seed: Seq<int>,
    k: nat,
    words: Seq<u64>,
    a: Seq<PointModel>,
    b: Seq<PointModel>,
)
    requires
        a == run_model(o, seed, k, words),
        b == run_model(o, seed, k, words),
    ensures
        a == b,
{
}

/// The fallback-equivalence law: the brute-force strategy and the
/// grid-accelerated strategy, driven by the same oracle and the same word
/// stream, accept exactly the same points.  Each strategy's contract pins
/// its result to the one run model; this law records that those two
/// pinnings coincide.
pub proof fn lemma_fallback_equivalence<O: DensityOracle>(
    o: &O,
    seed: Seq<int>,
    k: nat,
    words: Seq<u64>,
    brute: Seq<PointModel>,
    grid: Seq<PointModel>,
)
    requires
        brute == run_model(o, seed, k, words),
        grid == run_model(o, seed, k, words),
    ensures
        brute == grid,
{
}

} // verus!
