//! The density oracle capability: maps a position to the exclusion radius
//! required there, or rejects the position.  Two ready-made oracles are
//! provided: a constant radius over a box, and a raster table of radii.

use vstd::prelude::*;

use crate::{COORD_LIMIT, RADIUS_LIMIT};
use crate::geometry::{ints, radius_ok};

verus! {

/// The mathematical view of an exec-level oracle answer.
pub open spec fn opt_to_int(r: Option<i64>) -> Option<int> {
    match r {
        Some(v) => Some(v as int),
        None => None,
    }
}

/// A caller-supplied density function: given a position, either the
/// exclusion radius a point accepted there must keep, or a rejection.
///
/// A `deterministic` oracle answers as its mathematical model `radius_model`
/// says; the sampler's result is then pinned exactly.  An oracle that is not
/// deterministic (one that draws randomness of its own, say) may answer
/// anything, and the sampler still maintains the separation invariant.
pub trait DensityOracle: Sized {
    spec fn deterministic(&self) -> bool;

    spec fn radius_model(&self, pos: Seq<int>) -> Option<int>;

    fn eval(&self, pos: &Vec<i64>) -> (r: Option<i64>)
        ensures
            self.deterministic() ==> opt_to_int(r) == self.radius_model(ints(pos@)),
    ;
}

/// The oracle's answer after the sampler's own validation: a radius is used
/// only if it is positive and within the machine limit, anything else counts
/// as a rejection of the position.
pub open spec fn accepted_radius<O: DensityOracle>(o: &O, pos: Seq<int>) -> Option<int> {
    match o.radius_model(pos) {
        Some(r) => if radius_ok(r) {
            Some(r)
        } else {
            None
        },
        None => None,
    }
}

/// The oracle never answers with a radius outside `[min, max]`: the
/// precondition for declaring those bounds to the grid-accelerated sampler.
pub open spec fn oracle_within<O: DensityOracle>(o: &O, min: int, max: int) -> bool {
    forall|pos: Seq<int>|
        match #[trigger] accepted_radius(o, pos) {
            Some(r) => min <= r <= max,
            None => true,
        }
}

/// The oracle's answer validated against declared radius bounds: a radius
/// outside `[min, max]` counts as a rejection of the position.
pub open spec fn accepted_radius_bounded<O: DensityOracle>(
    o: &O,
    pos: Seq<int>,
    min: int,
    max: int,
) -> Option<int> {
    match o.radius_model(pos) {
        Some(r) => if min <= r <= max {
            Some(r)
        } else {
            None
        },
        None => None,
    }
}

/// For an oracle that honours declared bounds, validating against those
/// bounds changes nothing.
pub proof fn lemma_bounded_radius_agrees<O: DensityOracle>(
    o: &O,
    pos: Seq<int>,
    min: int,
    max: int,
)
    requires
        oracle_within(o, min, max),
        1 <= min <= max,
        max <= RADIUS_LIMIT as int,
    ensures
        accepted_radius_bounded(o, pos, min, max) == accepted_radius(o, pos),
{
    assert(match accepted_radius(o, pos) {
        Some(r) => min <= r <= max,
        None => true,
    });
}

/// Validating against the sampler's own full radius band changes nothing:
/// it is exactly the validation `accepted_radius` already performs.
pub proof fn lemma_full_band_radius<O: DensityOracle>(o: &O, pos: Seq<int>)
    ensures
        accepted_radius_bounded(o, pos, 1, RADIUS_LIMIT as int) == accepted_radius(o, pos),
{
}

/// Every oracle honours the sampler's full radius band.
pub proof fn lemma_oracle_within_full<O: DensityOracle>(o: &O)
    ensures
        oracle_within(o, 1, RADIUS_LIMIT as int),
{
}

/// Whether `pos` lies in the half-open box `[low, high)`.
pub open spec fn in_box(pos: Seq<int>, low: Seq<int>, high: Seq<int>) -> bool {
    &&& pos.len() == low.len()
    &&& pos.len() == high.len()
    &&& forall|i: int| 0 <= i < pos.len() ==> low[i] <= #[trigger] pos[i] < high[i]
}

/// A density oracle returning one constant radius inside a half-open box and
/// rejecting every position outside it.
pub struct ConstantOracle {
    pub low: Vec<i64>,
    pub high: Vec<i64>,
    pub radius: i64,
}

impl DensityOracle for ConstantOracle {
    open spec fn deterministic(&self) -> bool {
        true
    }

    open spec fn radius_model(&self, pos: Seq<int>) -> Option<int> {
        if in_box(pos, ints(self.low@), ints(self.high@)) {
            Some(self.radius as int)
        } else {
            None
        }
    }

    fn eval(&self, pos: &Vec<i64>) -> (r: Option<i64>) {
        let ghost p = ints(pos@);
        let ghost lo = ints(self.low@);
        let ghost hi = ints(self.high@);
        if pos.len() != self.low.len() || pos.len() != self.high.len() {
            return None;
        }
        let n = pos.len();
        let mut i: usize = 0;
        while i < n
            invariant
                i <= n,
                n == pos@.len() == self.low@.len() == self.high@.len(),
                p == ints(pos@),
                lo == ints(self.low@),
                hi == ints(self.high@),
                forall|j: int| 0 <= j < i ==> lo[j] <= #[trigger] p[j] < hi[j],
            decreases n - i,
        {
            if pos[i] < self.low[i] || pos[i] >= self.high[i] {
                assert(!(lo[i as int] <= p[i as int] < hi[i as int]));
                return None;
            }
            i = i + 1;
        }
        Some(self.radius)
    }
}

/// A density oracle backed by a raster of radii: the domain is the box
/// `[0, width * cell) x [0, height * cell)`, split into `cell`-sized square
/// tiles, and the radius required at a position is the entry of the tile it
/// falls in, row by row.  A non-positive entry rejects the tile.  This is the
/// shape in which an externally produced scalar field (a noise map, an image)
/// is handed to the sampler.
pub struct TableOracle {
    pub width: usize,
    pub height: usize,
    pub cell: i64,
    pub radii: Vec<i64>,
}

impl TableOracle {
    /// The raster is well-formed: one entry per tile and a domain that stays
    /// inside the coordinate box.
    pub open spec fn wf(&self) -> bool {
        &&& 1 <= self.width
        &&& 1 <= self.height
        &&& 1 <= self.cell
        &&& self.width * self.height == self.radii@.len()
        &&& self.width * self.cell <= COORD_LIMIT
        &&& self.height * self.cell <= COORD_LIMIT
    }

    /// Checks well-formedness at run time.
    pub fn check_wf(&self) -> (b: bool)
        ensures
            b == self.wf(),
    {
        if self.width < 1 || self.height < 1 || self.cell < 1 {
            return false;
        }
        let w = self.width as u128;
        let h = self.height as u128;
        let c = self.cell as u128;
        proof {
            let top = 0xffff_ffff_ffff_ffffu128 as int;
            assert((w as int) * (h as int) <= top * top) by (nonlinear_arith)
                requires
                    0 <= w as int <= top,
                    0 <= h as int <= top;
            assert((w as int) * (c as int) <= top * top) by (nonlinear_arith)
                requires
                    0 <= w as int <= top,
                    0 <= c as int <= top;
            assert((h as int) * (c as int) <= top * top) by (nonlinear_arith)
                requires
                    0 <= h as int <= top,
                    0 <= c as int <= top;
        }
        w * h == (self.radii.len() as u128) && w * c <= (COORD_LIMIT as u128) && h * c <= (
        COORD_LIMIT as u128)
    }
}

impl DensityOracle for TableOracle {
    open spec fn deterministic(&self) -> bool {
        true
    }

    open spec fn radius_model(&self, pos: Seq<int>) -> Option<int> {
        if {
            &&& self.wf()
            &&& pos.len() == 2
            &&& 0 <= pos[0] < self.width * self.cell
            &&& 0 <= pos[1] < self.height * self.cell
        } {
            let col = pos[0] / (self.cell as int);
            let row = pos[1] / (self.cell as int);
            let r = self.radii@[row * self.width + col];
            if r > 0 {
                Some(r as int)
            } else {
                None
            }
        } else {
            None
        }
    }

    fn eval(&self, pos: &Vec<i64>) -> (r: Option<i64>) {
        if !self.check_wf() || pos.len() != 2 {
            return None;
        }
        let x = pos[0];
        let y = pos[1];
        proof {
            assert(self.width as int <= (self.width as int) * (self.cell as int))
                by (nonlinear_arith)
                requires
                    self.cell >= 1,
                    self.width >= 0;
            assert(self.height as int <= (self.height as int) * (self.cell as int))
                by (nonlinear_arith)
                requires
                    self.cell >= 1,
                    self.height >= 0;
        }
        let w = self.width as i64;
        let h = self.height as i64;
        if x < 0 || y < 0 {
            return None;
        }
        let wc: i64 = w * self.cell;
        let hc: i64 = h * self.cell;
        if x >= wc || y >= hc {
            return None;
        }
        let col: i64 = ((x as u64) / (self.cell as u64)) as i64;
        let row: i64 = ((y as u64) / (self.cell as u64)) as i64;
        proof {
            assert(col == (x as int) / (self.cell as int));
            assert(row == (y as int) / (self.cell as int));
            assert(0 <= col && (col as int) < self.width as int) by (nonlinear_arith)
                requires
                    col == (x as int) / (self.cell as int),
                    0 <= x as int,
                    (x as int) < (self.width as int) * (self.cell as int),
                    self.cell >= 1;
            assert(0 <= row && (row as int) < self.height as int) by (nonlinear_arith)
                requires
                    row == (y as int) / (self.cell as int),
                    0 <= y as int,
                    (y as int) < (self.height as int) * (self.cell as int),
                    self.cell >= 1;
            assert((row as int) * (self.width as int) + (col as int) < (self.width as int) * (
            self.height as int)) by (nonlinear_arith)
                requires
                    0 <= col as int,
                    (col as int) < self.width as int,
                    0 <= row as int,
                    (row as int) < self.height as int;
            assert((self.width as int) * (self.height as int) == self.radii@.len());
            assert((row as usize) as int == row as int);
            assert((col as usize) as int == col as int);
        }
        let n: usize = self.radii.len();
        assert((row as usize as int) * (self.width as int) + (col as usize as int) < n as int);
        let idx: usize = (row as usize) * self.width + (col as usize);
        let r = self.radii[idx];
        if r > 0 {
            Some(r)
        } else {
            None
        }
    }
}

} // verus!
