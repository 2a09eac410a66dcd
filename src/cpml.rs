//! Geometry of the convolutional perfectly matched layer (CPML).
//!
//! The layer is `thickness = min(20, width / 4, height / 4)` cells deep on
//! each side. Each of the eight corrections (four sides, for the E-side and
//! for the H-side update) visits a band of cells in row-major order. For each
//! visited cell a [`CpmlTap`] names the field entry that is corrected, the two
//! entries whose difference drives the correction, the slot of the auxiliary
//! memory array, and the layer whose coefficients apply. Layer `0` is always
//! the cell at the physical edge; layer `thickness - 1` borders the interior.

use vstd::prelude::*;
use vstd::arithmetic::div_mod::lemma_fundamental_div_mod_converse;
use crate::lattice::{flat_index, lemma_index_in_range, span};

verus! {

/// Deepest layer allowed on any side.
pub const MAX_THICKNESS: usize = 20;

/// One of the eight boundary corrections.
#[derive(Clone, Copy, Debug, PartialEq, Eq, Structural)]
pub enum CpmlSide {
    /// Ez near `x = 0`, driven by the x-difference of Hy.
    EzLeft,
    /// Ez near `x = width - 1`, driven by the x-difference of Hy.
    EzRight,
    /// Ez near `y = 0`, driven by the y-difference of Hx.
    EzBottom,
    /// Ez near `y = height - 1`, driven by the y-difference of Hx.
    EzTop,
    /// Hy near `x = 0`, driven by the x-difference of Ez.
    HyLeft,
    /// Hy near `x = width - 1`, driven by the x-difference of Ez.
    HyRight,
    /// Hx near `y = 0`, driven by the y-difference of Ez.
    HxBottom,
    /// Hx near `y = height - 1`, driven by the y-difference of Ez.
    HxTop,
}

impl CpmlSide {
    /// Corrections of the left and right bands, stretched along x.
    pub open spec fn is_x_band(self) -> bool {
        self is EzLeft || self is EzRight || self is HyLeft || self is HyRight
    }

    /// Corrections applied to the electric field.
    pub open spec fn is_e_side(self) -> bool {
        self is EzLeft || self is EzRight || self is EzBottom || self is EzTop
    }
}

/// One correction step: `d = src[ahead] - src[behind]` updates
/// `psi[psi]` with the coefficients of `layer`, and the result is added
/// into `field[cell]`.
#[derive(Clone, Copy, Debug, PartialEq, Eq, Structural)]
pub struct CpmlTap {
    pub cell: usize,
    pub ahead: usize,
    pub behind: usize,
    pub psi: usize,
    pub layer: usize,
}

/// The abstract shape of a CPML boundary.
pub struct CpmlModel {
    pub width: nat,
    pub height: nat,
    pub thickness: nat,
}

impl CpmlModel {
    /// The half-open range of columns that a correction visits.
    pub open spec fn x_range(self, side: CpmlSide) -> (int, int) {
        let (w, t) = (self.width as int, self.thickness as int);
        match side {
            CpmlSide::EzLeft => (1, t),
            CpmlSide::EzRight => (w - t, w),
            CpmlSide::EzBottom | CpmlSide::EzTop => (1, w),
            CpmlSide::HyLeft => (0, t),
            CpmlSide::HyRight => (w - t, w - 1),
            CpmlSide::HxBottom | CpmlSide::HxTop => (0, w),
        }
    }

    /// The half-open range of rows that a correction visits.
    pub open spec fn y_range(self, side: CpmlSide) -> (int, int) {
        let (h, t) = (self.height as int, self.thickness as int);
        match side {
            CpmlSide::EzLeft | CpmlSide::EzRight => (1, h),
            CpmlSide::EzBottom => (1, t),
            CpmlSide::EzTop => (h - t, h),
            CpmlSide::HyLeft | CpmlSide::HyRight => (0, h),
            CpmlSide::HxBottom => (0, t),
            CpmlSide::HxTop => (h - t, h - 1),
        }
    }

    pub open spec fn visits(self, side: CpmlSide, x: int, y: int) -> bool {
        self.x_range(side).0 <= x < self.x_range(side).1
            && self.y_range(side).0 <= y < self.y_range(side).1
    }

    /// Length of the auxiliary memory array of a correction.
    pub open spec fn psi_len(self, side: CpmlSide) -> nat {
        if side.is_x_band() {
            self.thickness * self.height
        } else {
            self.width * self.thickness
        }
    }

    /// Layer of cell `(x, y)`: its distance from the physical edge that the
    /// correction borders.
    pub open spec fn layer_of(self, side: CpmlSide, x: int, y: int) -> int {
        match side {
            CpmlSide::EzLeft | CpmlSide::HyLeft => x,
            CpmlSide::EzRight | CpmlSide::HyRight => self.width - 1 - x,
            CpmlSide::EzBottom | CpmlSide::HxBottom => y,
            CpmlSide::EzTop | CpmlSide::HxTop => self.height - 1 - y,
        }
    }

    /// Slot of cell `(x, y)` in the auxiliary memory array.
    pub open spec fn psi_of(self, side: CpmlSide, x: int, y: int) -> int {
        let (w, h, t) = (self.width as int, self.height as int, self.thickness as int);
        match side {
            CpmlSide::EzLeft => (x - 1) * h + y,
            CpmlSide::EzRight | CpmlSide::HyRight => (x - (w - t)) * h + y,
            CpmlSide::EzBottom => x * t + (y - 1),
            CpmlSide::EzTop | CpmlSide::HxTop => x * t + (y - (h - t)),
            CpmlSide::HyLeft => x * h + y,
            CpmlSide::HxBottom => x * t + y,
        }
    }

    /// The tap of cell `(x, y)`. E-side corrections difference the cell
    /// with its left or lower neighbour; H-side corrections difference the
    /// right or upper neighbour with the cell.
    pub open spec fn tap(self, side: CpmlSide, x: int, y: int) -> CpmlTap {
        let cell = y * self.width + x;
        let step = if side.is_x_band() { 1 } else { self.width as int };
        CpmlTap {
            cell: cell as usize,
            ahead: (if side.is_e_side() { cell } else { cell + step }) as usize,
            behind: (if side.is_e_side() { cell - step } else { cell }) as usize,
            psi: self.psi_of(side, x, y) as usize,
            layer: self.layer_of(side, x, y) as usize,
        }
    }

    /// Every tap of a correction, row by row, each row from left to right.
    pub open spec fn plan(self, side: CpmlSide) -> Seq<CpmlTap> {
        let (x0, x1) = self.x_range(side);
        let (y0, y1) = self.y_range(side);
        let cols = span(x0, x1);
        Seq::new(
            cols * span(y0, y1),
            |k: int| self.tap(side, x0 + k % (cols as int), y0 + k / (cols as int)),
        )
    }

    /// All indices of a tap address their buffers.
    pub open spec fn tap_in_bounds(self, side: CpmlSide, tap: CpmlTap) -> bool {
        &&& tap.cell < self.width * self.height
        &&& tap.ahead < self.width * self.height
        &&& tap.behind < self.width * self.height
        &&& tap.psi < self.psi_len(side)
        &&& tap.layer < self.thickness
    }
}

/// CPML boundary geometry for one grid.
pub struct CpmlLayout {
    width: usize,
    height: usize,
    thickness: usize,
}

impl View for CpmlLayout {
    type V = CpmlModel;

    closed spec fn view(&self) -> CpmlModel {
        CpmlModel {
            width: self.width as nat,
            height: self.height as nat,
            thickness: self.thickness as nat,
        }
    }
}

/// The layer depth that a grid of the given size receives.
pub open spec fn thickness_for(width: nat, height: nat) -> nat {
    let a = if MAX_THICKNESS <= width / 4 { MAX_THICKNESS as nat } else { width / 4 };
    if a <= height / 4 { a } else { height / 4 }
}

impl CpmlLayout {
    pub closed spec fn wf(&self) -> bool {
        &&& self.width * self.height <= usize::MAX
        &&& self.thickness == thickness_for(self.width as nat, self.height as nat)
    }

    /// The boundary geometry of a `width` by `height` grid.
    pub fn new(width: usize, height: usize) -> (r: CpmlLayout)
        requires
            width * height <= usize::MAX,
        ensures
            r.wf(),
            r@ == (CpmlModel {
                width: width as nat,
                height: height as nat,
                thickness: thickness_for(width as nat, height as nat),
            }),
    {
        let a = if MAX_THICKNESS <= width / 4 { MAX_THICKNESS } else { width / 4 };
        let thickness = if a <= height / 4 { a } else { height / 4 };
        CpmlLayout { width, height, thickness }
    }

    pub fn get_thickness(&self) -> (r: usize)
        ensures
            r == self@.thickness,
    {
        self.thickness
    }

    /// Whether the first-order edge copies still apply beside this layer.
    /// Every edge cell lies in a band as soon as the layer is one cell deep,
    /// and the layer alone then treats the boundary; only a grid too small
    /// for a layer keeps the edge copies.
    pub fn keeps_edge_copies(&self) -> (r: bool)
        ensures
            r == (self@.thickness == 0),
    {
        self.thickness == 0
    }

    /// Length of the auxiliary memory array of a correction.
    pub fn psi_len(&self, side: CpmlSide) -> (r: usize)
        requires
            self.wf(),
        ensures
            r == self@.psi_len(side),
    {
        proof {
            self.lemma_band_sizes();
        }
        match side {
            CpmlSide::EzLeft | CpmlSide::EzRight | CpmlSide::HyLeft | CpmlSide::HyRight => {
                self.thickness * self.height
            },
            _ => self.width * self.thickness,
        }
    }

    /// The column and row ranges of a correction, empty ranges as `(0, 0)`.
    fn ranges(&self, side: CpmlSide) -> (r: (usize, usize, usize, usize))
        requires
            self.wf(),
        ensures
            span(r.0 as int, r.1 as int) == span(self@.x_range(side).0, self@.x_range(side).1),
            span(r.2 as int, r.3 as int) == span(self@.y_range(side).0, self@.y_range(side).1),
            r.0 < r.1 ==> r.0 == self@.x_range(side).0 && r.1 == self@.x_range(side).1,
            r.2 < r.3 ==> r.2 == self@.y_range(side).0 && r.3 == self@.y_range(side).1,
    {
        proof {
            self.lemma_band_sizes();
        }
        let (w, h, t) = (self.width, self.height, self.thickness);
        let w1 = if w >= 1 { w - 1 } else { 0 };
        let h1 = if h >= 1 { h - 1 } else { 0 };
        let (x0, x1) = match side {
            CpmlSide::EzLeft => (1, t),
            CpmlSide::EzRight => (w - t, w),
            CpmlSide::EzBottom | CpmlSide::EzTop => (1, w),
            CpmlSide::HyLeft => (0, t),
            CpmlSide::HyRight => (w - t, w1),
            CpmlSide::HxBottom | CpmlSide::HxTop => (0, w),
        };
        let (y0, y1) = match side {
            CpmlSide::EzLeft | CpmlSide::EzRight => (1, h),
            CpmlSide::EzBottom => (1, t),
            CpmlSide::EzTop => (h - t, h),
            CpmlSide::HyLeft | CpmlSide::HyRight => (0, h),
            CpmlSide::HxBottom => (0, t),
            CpmlSide::HxTop => (h - t, h1),
        };
        (x0, x1, y0, y1)
    }

    /// The tap of a visited cell.
    fn tap_at(&self, side: CpmlSide, x: usize, y: usize) -> (r: CpmlTap)
        requires
            self.wf(),
            self@.visits(side, x as int, y as int),
        ensures
            r == self@.tap(side, x as int, y as int),
    {
        proof {
            self.lemma_tap_in_bounds(side, x as int, y as int);
            self.lemma_band_sizes();
        }
        let (w, h, t) = (self.width, self.height, self.thickness);
        let cell = y * w + x;
        let (ahead, behind) = match side {
            CpmlSide::EzLeft | CpmlSide::EzRight => (cell, cell - 1),
            CpmlSide::EzBottom | CpmlSide::EzTop => (cell, cell - w),
            CpmlSide::HyLeft | CpmlSide::HyRight => (cell + 1, cell),
            CpmlSide::HxBottom | CpmlSide::HxTop => (cell + w, cell),
        };
        let psi = match side {
            CpmlSide::EzLeft => (x - 1) * h + y,
            CpmlSide::EzRight | CpmlSide::HyRight => (x - (w - t)) * h + y,
            CpmlSide::EzBottom => x * t + (y - 1),
            CpmlSide::EzTop | CpmlSide::HxTop => x * t + (y - (h - t)),
            CpmlSide::HyLeft => x * h + y,
            CpmlSide::HxBottom => x * t + y,
        };
        let layer = match side {
            CpmlSide::EzLeft | CpmlSide::HyLeft => x,
            CpmlSide::EzRight | CpmlSide::HyRight => w - 1 - x,
            CpmlSide::EzBottom | CpmlSide::HxBottom => y,
            CpmlSide::EzTop | CpmlSide::HxTop => h - 1 - y,
        };
        CpmlTap { cell, ahead, behind, psi, layer }
    }

    /// The taps of one correction in the order in which they are applied:
    /// row by row, each row from left to right. Every index of every tap
    /// addresses its buffer.
    pub fn plan(&self, side: CpmlSide) -> (r: Vec<CpmlTap>)
        requires
            self.wf(),
        ensures
            r@ == self@.plan(side),
            forall|k: int| 0 <= k < r@.len() ==> self@.tap_in_bounds(side, #[trigger] r@[k]),
    {
        let ghost m = self@;
        let (x0, x1, y0, y1) = self.ranges(side);
        let mut taps: Vec<CpmlTap> = Vec::new();
        if x1 <= x0 || y1 <= y0 {
            proof {
                assert(m.plan(side).len() == 0) by (nonlinear_arith)
                    requires
                        m.plan(side).len() == span(m.x_range(side).0, m.x_range(side).1) * span(
                            m.y_range(side).0,
                            m.y_range(side).1,
                        ),
                        span(m.x_range(side).0, m.x_range(side).1) == 0 || span(
                            m.y_range(side).0,
                            m.y_range(side).1,
                        ) == 0,
                ;
                assert(taps@ =~= m.plan(side));
            }
            return taps;
        }
        let ghost cols: int = (x1 - x0) as int;
        let mut y: usize = y0;
        while y < y1
            invariant
                self.wf(),
                m == self@,
                x0 < x1,
                y0 <= y <= y1,
                cols == x1 - x0,
                x0 == m.x_range(side).0 && x1 == m.x_range(side).1,
                y0 == m.y_range(side).0 && y1 == m.y_range(side).1,
                taps@.len() == cols * (y - y0),
                forall|k: int|
                    0 <= k < taps@.len() ==> #[trigger] taps@[k] == m.tap(
                        side,
                        x0 + k % cols,
                        y0 + k / cols,
                    ) && m.tap_in_bounds(side, taps@[k]),
            decreases y1 - y,
        {
            let mut x: usize = x0;
            while x < x1
                invariant
                    self.wf(),
                    m == self@,
                    x0 <= x <= x1,
                    y0 <= y < y1,
                    cols == x1 - x0,
                    x0 == m.x_range(side).0 && x1 == m.x_range(side).1,
                    y0 == m.y_range(side).0 && y1 == m.y_range(side).1,
                    taps@.len() == cols * (y - y0) + (x - x0),
                    forall|k: int|
                        0 <= k < taps@.len() ==> #[trigger] taps@[k] == m.tap(
                            side,
                            x0 + k % cols,
                            y0 + k / cols,
                        ) && m.tap_in_bounds(side, taps@[k]),
                decreases x1 - x,
            {
                proof {
                    self.lemma_tap_in_bounds(side, x as int, y as int);
                    let n = cols * (y - y0) + (x - x0);
                    assert(cols * (y - y0) == (y - y0) * cols) by (nonlinear_arith);
                    lemma_fundamental_div_mod_converse(n, cols, (y - y0) as int, (x - x0) as int);
                }
                let tap = self.tap_at(side, x, y);
                taps.push(tap);
                x = x + 1;
            }
            proof {
                assert(cols * (y + 1 - y0) == cols * (y - y0) + cols) by (nonlinear_arith);
            }
            y = y + 1;
        }
        proof {
            assert(taps@ =~= m.plan(side));
        }
        taps
    }

    proof fn lemma_band_sizes(&self)
        requires
            self.wf(),
        ensures
            self.thickness * self.height <= self.width * self.height,
            self.width * self.thickness <= self.width * self.height,
            self.thickness * 4 <= self.width,
            self.thickness * 4 <= self.height,
    {
        let (w, h, t) = (self.width as int, self.height as int, self.thickness as int);
        assert(t * 4 <= w && t * 4 <= h);
        assert(t * h <= w * h) by (nonlinear_arith)
            requires
                t * 4 <= w,
                0 <= h,
                0 <= t,
        ;
        assert(w * t <= w * h) by (nonlinear_arith)
            requires
                t * 4 <= h,
                0 <= w,
                0 <= t,
        ;
    }

    /// Every cell that a correction visits lies in the grid, and its tap
    /// addresses the field, memory and coefficient arrays.
    pub proof fn lemma_tap_in_bounds(&self, side: CpmlSide, x: int, y: int)
        requires
            self.wf(),
            self@.visits(side, x, y),
        ensures
            0 <= x < self@.width,
            0 <= y < self@.height,
            self@.tap_in_bounds(side, self@.tap(side, x, y)),
            self@.tap(side, x, y).cell == flat_index(self@.width, x as nat, y as nat),
            0 <= y * self@.width + x < self@.width * self@.height,
            side.is_e_side() ==> y * self@.width + x - (if side.is_x_band() {
                1
            } else {
                self@.width as int
            }) >= 0,
            !side.is_e_side() ==> y * self@.width + x + (if side.is_x_band() {
                1
            } else {
                self@.width as int
            }) < self@.width * self@.height,
            0 <= self@.psi_of(side, x, y) < self@.psi_len(side),
            0 <= self@.layer_of(side, x, y) < self@.thickness,
    {
        self.lemma_band_sizes();
        let m = self@;
        let (w, h, t) = (m.width as int, m.height as int, m.thickness as int);
        lemma_index_in_range(m.width, m.height, x as nat, y as nat);
        let cell = y * w + x;
        assert(0 <= y * w + x) by (nonlinear_arith)
            requires
                0 <= x,
                0 <= y,
                0 <= w,
        ;
        if side.is_x_band() {
            if side.is_e_side() {
                assert(cell - 1 >= 0);
            } else {
                assert(x + 1 < w);
                lemma_index_in_range(m.width, m.height, (x + 1) as nat, y as nat);
            }
        } else {
            if side.is_e_side() {
                lemma_index_in_range(m.width, m.height, x as nat, (y - 1) as nat);
                assert((y - 1) * w + x == y * w + x - w) by (nonlinear_arith);
            } else {
                lemma_index_in_range(m.width, m.height, x as nat, (y + 1) as nat);
                assert((y + 1) * w + x == y * w + x + w) by (nonlinear_arith);
            }
        }
        let p = m.psi_of(side, x, y);
        match side {
            CpmlSide::EzLeft => {
                lemma_index_in_range(m.height, m.thickness, y as nat, (x - 1) as nat);
            },
            CpmlSide::EzRight | CpmlSide::HyRight => {
                lemma_index_in_range(m.height, m.thickness, y as nat, (x - (w - t)) as nat);
            },
            CpmlSide::HyLeft => {
                lemma_index_in_range(m.height, m.thickness, y as nat, x as nat);
            },
            CpmlSide::EzBottom => {
                lemma_index_in_range(m.thickness, m.width, (y - 1) as nat, x as nat);
                assert(m.thickness * m.width == m.width * m.thickness) by (nonlinear_arith);
            },
            CpmlSide::EzTop | CpmlSide::HxTop => {
                lemma_index_in_range(m.thickness, m.width, (y - (h - t)) as nat, x as nat);
                assert(m.thickness * m.width == m.width * m.thickness) by (nonlinear_arith);
            },
            CpmlSide::HxBottom => {
                lemma_index_in_range(m.thickness, m.width, y as nat, x as nat);
                assert(m.thickness * m.width == m.width * m.thickness) by (nonlinear_arith);
            },
        }
    }
}

} // verus!
