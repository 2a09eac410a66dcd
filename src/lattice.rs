//! Row-major cell indexing of the simulation lattice and its step counter.
//!
//! A cell `(x, y)` lives at flat index `y * width + x`. Every field and
//! coefficient buffer of a grid has `width * height` entries in that order.

use vstd::prelude::*;

verus! {

/// Flat index of cell `(x, y)` on a lattice `width` cells wide.
pub open spec fn flat_index(width: nat, x: nat, y: nat) -> nat {
    y * width + x
}

/// The copies of the first-order absorbing edge: each pair `(dst, src)`
/// overwrites `ez[dst]` with `ez[src]`, in this order: the left column,
/// the right column, the bottom row, the top row, each edge cell taking
/// the value of its interior neighbour.
pub open spec fn mur_plan(w: int, h: int) -> Seq<(usize, usize)> {
    Seq::new(h as nat, |j: int| ((j * w) as usize, (j * w + 1) as usize))
        + Seq::new(h as nat, |j: int| ((j * w + w - 1) as usize, (j * w + w - 2) as usize))
        + Seq::new(w as nat, |i: int| (i as usize, (w + i) as usize))
        + Seq::new(w as nat, |i: int| (((h - 1) * w + i) as usize, ((h - 2) * w + i) as usize))
}

/// Indices of the interior cells of column `x`: rows `1` to `height - 2`.
pub open spec fn column_plan(w: int, h: int, x: int) -> Seq<usize> {
    if x < w && h >= 2 {
        Seq::new((h - 2) as nat, |k: int| ((k + 1) * w + x) as usize)
    } else {
        Seq::empty()
    }
}

/// Indices of the interior cells of row `y`: columns `1` to `width - 2`.
pub open spec fn row_plan(w: int, h: int, y: int) -> Seq<usize> {
    if y < h && w >= 2 {
        Seq::new((w - 2) as nat, |k: int| (y * w + k + 1) as usize)
    } else {
        Seq::empty()
    }
}

/// The five cells that the stability check samples: the first, the quarter,
/// the half, the three-quarter and the last of `n` cells.
pub open spec fn sample_plan(n: nat) -> Seq<usize> {
    if n == 0 {
        Seq::empty()
    } else {
        seq![0, (n / 4) as usize, (n / 2) as usize, (3 * n / 4) as usize, (n - 1) as usize]
    }
}

/// `hi - lo`, or zero when the half-open range `[lo, hi)` is empty.
pub open spec fn span(lo: int, hi: int) -> nat {
    if hi > lo { (hi - lo) as nat } else { 0 }
}

pub open spec fn min(a: int, b: int) -> int {
    if a <= b { a } else { b }
}

pub open spec fn max(a: int, b: int) -> int {
    if a >= b { a } else { b }
}

/// The abstract state of a lattice.
pub struct LatticeModel {
    pub width: nat,
    pub height: nat,
    pub time_step: nat,
}

impl LatticeModel {
    pub open spec fn cells(self) -> nat {
        self.width * self.height
    }

    pub open spec fn contains(self, x: int, y: int) -> bool {
        0 <= x < self.width && 0 <= y < self.height
    }

    /// The lattice with its step counter back at zero.
    pub open spec fn restarted(self) -> LatticeModel {
        LatticeModel { time_step: 0, ..self }
    }
}

/// Restarting the clock twice is the same as restarting it once, and it
/// leaves the counter at zero and the dimensions as they were.
pub proof fn lemma_restart_idempotent(m: LatticeModel)
    ensures
        m.restarted().restarted() == m.restarted(),
        m.restarted().time_step == 0,
        m.restarted().width == m.width && m.restarted().height == m.height,
{
}

/// Width, height and step counter of a simulation lattice.
pub struct Lattice {
    width: usize,
    height: usize,
    time_step: u64,
}

impl View for Lattice {
    type V = LatticeModel;

    closed spec fn view(&self) -> LatticeModel {
        LatticeModel {
            width: self.width as nat,
            height: self.height as nat,
            time_step: self.time_step as nat,
        }
    }
}

impl Lattice {
    /// Every buffer of `width * height` cells can be addressed.
    pub closed spec fn wf(&self) -> bool {
        self.width * self.height <= usize::MAX
    }

    /// A fresh lattice at step zero.
    pub fn new(width: usize, height: usize) -> (r: Lattice)
        requires
            width * height <= usize::MAX,
        ensures
            r.wf(),
            r@ == (LatticeModel { width: width as nat, height: height as nat, time_step: 0 }),
    {
        Lattice { width, height, time_step: 0 }
    }

    pub fn get_width(&self) -> (r: usize)
        ensures
            r == self@.width,
    {
        self.width
    }

    pub fn get_height(&self) -> (r: usize)
        ensures
            r == self@.height,
    {
        self.height
    }

    pub fn get_time_step(&self) -> (r: u64)
        ensures
            r == self@.time_step,
    {
        self.time_step
    }

    /// Number of cells, the length of every field buffer.
    pub fn cell_count(&self) -> (r: usize)
        requires
            self.wf(),
        ensures
            r == self@.cells(),
    {
        self.width * self.height
    }

    pub fn contains(&self, x: usize, y: usize) -> (r: bool)
        ensures
            r == self@.contains(x as int, y as int),
    {
        x < self.width && y < self.height
    }

    /// The flat index of `(x, y)`, or `None` when the cell lies outside.
    pub fn cell_index(&self, x: usize, y: usize) -> (r: Option<usize>)
        requires
            self.wf(),
        ensures
            self@.contains(x as int, y as int) ==> r == Some(
                flat_index(self@.width, x as nat, y as nat) as usize,
            ),
            !self@.contains(x as int, y as int) ==> r is None,
            r matches Some(i) ==> i < self@.cells(),
    {
        if x < self.width && y < self.height {
            proof {
                lemma_index_in_range(self.width as nat, self.height as nat, x as nat, y as nat);
            }
            Some(y * self.width + x)
        } else {
            None
        }
    }

    /// Indices sampled by the stability check; none on an empty lattice.
    pub fn stability_samples(&self) -> (r: Vec<usize>)
        requires
            self.wf(),
        ensures
            r@ == sample_plan(self@.cells()),
            forall|k: int| 0 <= k < r@.len() ==> r@[k] < self@.cells(),
    {
        let n = self.width * self.height;
        let mut r: Vec<usize> = Vec::new();
        if n == 0 {
            assert(r@ =~= sample_plan(self@.cells()));
            return r;
        }
        let three_quarters = ((3 * (n as u128)) / 4) as usize;
        r.push(0);
        r.push(n / 4);
        r.push(n / 2);
        r.push(three_quarters);
        r.push(n - 1);
        assert(r@ =~= sample_plan(self@.cells()));
        r
    }

    /// The rectangle spanned by two corners, cut to the lattice, as
    /// `(x_min, x_max, y_min, y_max)` with inclusive bounds; `None` when the
    /// rectangle and the lattice share no cell.
    pub fn clamp_region(&self, x1: usize, y1: usize, x2: usize, y2: usize) -> (r: Option<
        (usize, usize, usize, usize),
    >)
        ensures
            (min(x1 as int, x2 as int) >= self@.width || min(y1 as int, y2 as int)
                >= self@.height) <==> r is None,
            r matches Some(b) ==> {
                &&& b.0 == min(x1 as int, x2 as int)
                &&& b.1 == min(max(x1 as int, x2 as int), self@.width - 1)
                &&& b.2 == min(y1 as int, y2 as int)
                &&& b.3 == min(max(y1 as int, y2 as int), self@.height - 1)
            },
    {
        let lo_x = if x1 <= x2 { x1 } else { x2 };
        let hi_x = if x1 >= x2 { x1 } else { x2 };
        let lo_y = if y1 <= y2 { y1 } else { y2 };
        let hi_y = if y1 >= y2 { y1 } else { y2 };
        if lo_x >= self.width || lo_y >= self.height {
            return None;
        }
        let (wl, hl) = (self.width - 1, self.height - 1);
        Some((
            lo_x,
            if hi_x <= wl { hi_x } else { wl },
            lo_y,
            if hi_y <= hl { hi_y } else { hl },
        ))
    }

    /// The edge copies of the first-order absorbing boundary, in the order
    /// in which they are applied.
    pub fn mur_pairs(&self) -> (r: Vec<(usize, usize)>)
        requires
            self.wf(),
            self@.width >= 2,
            self@.height >= 2,
        ensures
            r@ == mur_plan(self@.width as int, self@.height as int),
            forall|k: int|
                0 <= k < r@.len() ==> (#[trigger] r@[k]).0 < self@.cells() && r@[k].1
                    < self@.cells(),
    {
        let (w, h) = (self.width, self.height);
        let ghost (wi, hi) = (w as int, h as int);
        assert(wi == self@.width && hi == self@.height);
        let ghost n = self@.cells();
        let ghost plan = mur_plan(wi, hi);
        let mut r: Vec<(usize, usize)> = Vec::new();
        let mut j: usize = 0;
        while j < h
            invariant
                self.wf(),
                w == self@.width,
                h == self@.height,
                w >= 2,
                j <= h,
                plan == mur_plan(wi, hi),
                wi == w && hi == h && n == self@.cells(),
                r@ =~= plan.take(j as int),
                forall|k: int| 0 <= k < r@.len() ==> (#[trigger] r@[k]).0 < n && r@[k].1 < n,
            decreases h - j,
        {
            proof {
                lemma_index_in_range(w as nat, h as nat, 1, j as nat);
            }
            r.push((j * w, j * w + 1));
            j = j + 1;
        }
        let mut j: usize = 0;
        while j < h
            invariant
                self.wf(),
                w == self@.width,
                h == self@.height,
                w >= 2,
                j <= h,
                plan == mur_plan(wi, hi),
                wi == w && hi == h && n == self@.cells(),
                r@ =~= plan.take(h + j),
                forall|k: int| 0 <= k < r@.len() ==> (#[trigger] r@[k]).0 < n && r@[k].1 < n,
            decreases h - j,
        {
            proof {
                lemma_index_in_range(w as nat, h as nat, (w - 1) as nat, j as nat);
            }
            r.push((j * w + w - 1, j * w + w - 2));
            j = j + 1;
        }
        let mut i: usize = 0;
        while i < w
            invariant
                self.wf(),
                w == self@.width,
                h == self@.height,
                h >= 2,
                i <= w,
                plan == mur_plan(wi, hi),
                wi == w && hi == h && n == self@.cells(),
                r@ =~= plan.take(2 * h + i),
                forall|k: int| 0 <= k < r@.len() ==> (#[trigger] r@[k]).0 < n && r@[k].1 < n,
            decreases w - i,
        {
            proof {
                lemma_index_in_range(w as nat, h as nat, i as nat, 1);
            }
            r.push((i, w + i));
            i = i + 1;
        }
        let mut i: usize = 0;
        while i < w
            invariant
                self.wf(),
                w == self@.width,
                h == self@.height,
                h >= 2,
                i <= w,
                plan == mur_plan(wi, hi),
                wi == w && hi == h && n == self@.cells(),
                r@ =~= plan.take(2 * h + w + i),
                forall|k: int| 0 <= k < r@.len() ==> (#[trigger] r@[k]).0 < n && r@[k].1 < n,
            decreases w - i,
        {
            proof {
                lemma_index_in_range(w as nat, h as nat, i as nat, (h - 1) as nat);
                lemma_index_in_range(w as nat, h as nat, i as nat, (h - 2) as nat);
            }
            r.push(((h - 1) * w + i, (h - 2) * w + i));
            i = i + 1;
        }
        proof {
            assert(r@ =~= plan);
        }
        r
    }

    /// Indices of the interior cells of column `x`, bottom to top; none when
    /// `x` lies outside.
    pub fn interior_column(&self, x: usize) -> (r: Vec<usize>)
        requires
            self.wf(),
        ensures
            r@ == column_plan(self@.width as int, self@.height as int, x as int),
            forall|k: int| 0 <= k < r@.len() ==> #[trigger] r@[k] < self@.cells(),
    {
        let (w, h) = (self.width, self.height);
        let mut r: Vec<usize> = Vec::new();
        if x >= w || h < 2 {
            assert(r@ =~= column_plan(w as int, h as int, x as int));
            return r;
        }
        let mut y: usize = 1;
        while y < h - 1
            invariant
                self.wf(),
                w == self@.width,
                h == self@.height,
                x < w,
                h >= 2,
                1 <= y <= h - 1,
                r@ =~= column_plan(w as int, h as int, x as int).take(y - 1),
                forall|k: int| 0 <= k < r@.len() ==> #[trigger] r@[k] < self@.cells(),
            decreases h - y,
        {
            proof {
                lemma_index_in_range(w as nat, h as nat, x as nat, y as nat);
            }
            r.push(y * w + x);
            y = y + 1;
        }
        assert(r@ =~= column_plan(w as int, h as int, x as int));
        r
    }

    /// Indices of the interior cells of row `y`, left to right; none when
    /// `y` lies outside.
    pub fn interior_row(&self, y: usize) -> (r: Vec<usize>)
        requires
            self.wf(),
        ensures
            r@ == row_plan(self@.width as int, self@.height as int, y as int),
            forall|k: int| 0 <= k < r@.len() ==> #[trigger] r@[k] < self@.cells(),
    {
        let (w, h) = (self.width, self.height);
        let mut r: Vec<usize> = Vec::new();
        if y >= h || w < 2 {
            assert(r@ =~= row_plan(w as int, h as int, y as int));
            return r;
        }
        let mut x: usize = 1;
        while x < w - 1
            invariant
                self.wf(),
                w == self@.width,
                h == self@.height,
                y < h,
                w >= 2,
                1 <= x <= w - 1,
                r@ =~= row_plan(w as int, h as int, y as int).take(x - 1),
                forall|k: int| 0 <= k < r@.len() ==> #[trigger] r@[k] < self@.cells(),
            decreases w - x,
        {
            proof {
                lemma_index_in_range(w as nat, h as nat, x as nat, y as nat);
            }
            r.push(y * w + x);
            x = x + 1;
        }
        assert(r@ =~= row_plan(w as int, h as int, y as int));
        r
    }

    /// Counts one more completed step.
    pub fn advance(&mut self)
        requires
            old(self)@.time_step < u64::MAX,
        ensures
            final(self)@ == (LatticeModel { time_step: old(self)@.time_step + 1, ..old(self)@ }),
            final(self).wf() == old(self).wf(),
    {
        self.time_step = self.time_step + 1;
    }

    /// Sets the step counter back to zero.
    pub fn reset_clock(&mut self)
        ensures
            final(self)@ == old(self)@.restarted(),
            final(self).wf() == old(self).wf(),
    {
        self.time_step = 0;
    }
}

/// A cell inside the lattice has a flat index below the cell count.
pub proof fn lemma_index_in_range(width: nat, height: nat, x: nat, y: nat)
    requires
        x < width,
        y < height,
    ensures
        flat_index(width, x, y) < width * height,
{
    assert(y * width + x < width * height) by (nonlinear_arith)
        requires
            x < width,
            y < height,
    ;
}

} // verus!
