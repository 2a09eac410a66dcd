//! Cells covered by the painting brushes.
//!
//! Shapes are given in signed cell coordinates and cut to the lattice. A
//! shape's cells are listed row by row, bottom to top, each row from left to
//! right, within the shape's bounding box.

use vstd::prelude::*;
use vstd::arithmetic::div_mod::{
    lemma_div_pos_is_pos, lemma_fundamental_div_mod, lemma_fundamental_div_mod_converse,
    lemma_mod_pos_bound,
};
use crate::lattice::{max, min, span};

verus! {

broadcast use Seq::lemma_filter_pred, Seq::lemma_filter_contains;

/// Lower bound of a box side cut to the lattice.
pub open spec fn lo_clamp(v: int) -> int {
    if v > 0 { v } else { 0 }
}

/// Upper bound of a circle's bounding box cut to a lattice of `n` cells. A
/// negative bound reaches the far edge; the disc test then drops every cell
/// of the box, since none lies within the radius.
pub open spec fn hi_clamp(v: int, n: int) -> int {
    if v < 0 || v > n - 1 { n - 1 } else { v }
}

/// The cells of the box `[x0, x1] x [y0, y1]` (inclusive), row by row.
pub open spec fn box_cells(x0: int, x1: int, y0: int, y1: int) -> Seq<(usize, usize)> {
    let cols = span(x0, x1 + 1);
    Seq::new(
        cols * span(y0, y1 + 1),
        |k: int| ((x0 + k % (cols as int)) as usize, (y0 + k / (cols as int)) as usize),
    )
}

/// Whether cell `c` lies within distance `r` of `(cx, cy)`.
pub open spec fn in_disc(cx: int, cy: int, r: int, c: (usize, usize)) -> bool {
    (c.0 - cx) * (c.0 - cx) + (c.1 - cy) * (c.1 - cy) <= r * r
}

/// The cells of a filled circle on a `w` by `h` lattice.
pub open spec fn disc_plan(cx: int, cy: int, r: int, w: int, h: int) -> Seq<(usize, usize)> {
    box_cells(lo_clamp(cx - r), hi_clamp(cx + r, w), lo_clamp(cy - r), hi_clamp(cy + r, h)).filter(
        |c: (usize, usize)| in_disc(cx, cy, r, c),
    )
}

/// The cells of the filled rectangle with corners `(x1, y1)` and `(x2, y2)`.
pub open spec fn rect_plan(x1: int, y1: int, x2: int, y2: int, w: int, h: int) -> Seq<
    (usize, usize),
> {
    box_cells(
        lo_clamp(min(x1, x2)),
        min(max(x1, x2), w - 1),
        lo_clamp(min(y1, y2)),
        min(max(y1, y2), h - 1),
    )
}

/// Whether a cell lies in the rectangle with corners `(x1, y1)` and
/// `(x2, y2)`.
pub open spec fn in_rect(x1: int, y1: int, x2: int, y2: int, c: (usize, usize)) -> bool {
    min(x1, x2) <= c.0 <= max(x1, x2) && min(y1, y2) <= c.1 <= max(y1, y2)
}

/// Whether a cell lies inside a `w` by `h` lattice.
pub open spec fn on_lattice(w: int, h: int, c: (usize, usize)) -> bool {
    c.0 < w && c.1 < h
}

proof fn lemma_filter_all<A>(s: Seq<A>, p: spec_fn(A) -> bool)
    requires
        forall|i: int| 0 <= i < s.len() ==> p(#[trigger] s[i]),
    ensures
        s.filter(p) == s,
    decreases s.len(),
{
    reveal(Seq::filter);
    if s.len() > 0 {
        lemma_filter_all(s.drop_last(), p);
        assert(s.drop_last().push(s.last()) =~= s);
    }
}

/// Every cell of a box lies within the box's bounds.
proof fn lemma_box_cell(x0: int, x1: int, y0: int, y1: int, j: int)
    requires
        0 <= x0,
        0 <= y0,
        x1 < usize::MAX,
        y1 < usize::MAX,
        0 <= j < box_cells(x0, x1, y0, y1).len(),
    ensures
        x0 <= box_cells(x0, x1, y0, y1)[j].0 <= x1,
        y0 <= box_cells(x0, x1, y0, y1)[j].1 <= y1,
{
    let cols = span(x0, x1 + 1) as int;
    let rows = span(y0, y1 + 1) as int;
    assert(cols > 0) by (nonlinear_arith)
        requires
            0 <= j < cols * rows,
            cols >= 0,
            rows >= 0,
    ;
    lemma_fundamental_div_mod(j, cols);
    lemma_mod_pos_bound(j, cols);
    lemma_div_pos_is_pos(j, cols);
    let q = j / cols;
    assert(q < rows) by (nonlinear_arith)
        requires
            j == cols * q + j % cols,
            0 <= j % cols,
            j < cols * rows,
            cols > 0,
    ;
}

/// Every cell listed by a filtered box lies within the box's bounds.
proof fn lemma_filtered_box_cell(
    x0: int,
    x1: int,
    y0: int,
    y1: int,
    p: spec_fn((usize, usize)) -> bool,
    i: int,
)
    requires
        0 <= x0,
        0 <= y0,
        x1 < usize::MAX,
        y1 < usize::MAX,
        0 <= i < box_cells(x0, x1, y0, y1).filter(p).len(),
    ensures
        x0 <= box_cells(x0, x1, y0, y1).filter(p)[i].0 <= x1,
        y0 <= box_cells(x0, x1, y0, y1).filter(p)[i].1 <= y1,
{
    let all = box_cells(x0, x1, y0, y1);
    let e = all.filter(p)[i];
    assert(all.filter(p).contains(e));
    all.lemma_filter_contains_rev(p, e);
    let j = choose|j: int| 0 <= j < all.len() && all[j] == e;
    lemma_box_cell(x0, x1, y0, y1, j);
}

/// A box with an empty side has no cells.
pub(crate) proof fn lemma_box_empty(x0: int, x1: int, y0: int, y1: int)
    requires
        x0 > x1 || y0 > y1,
    ensures
        box_cells(x0, x1, y0, y1).len() == 0,
{
    let (a, b) = (span(x0, x1 + 1), span(y0, y1 + 1));
    assert(a == 0 || b == 0);
    assert(a * b == 0) by (nonlinear_arith)
        requires
            a == 0 || b == 0,
    ;
}

/// `hi_clamp` of an `i64` value on a lattice of `n >= 1` cells.
fn hi_of(v: i64, n: usize) -> (r: usize)
    requires
        n >= 1,
    ensures
        r == hi_clamp(v as int, n as int),
{
    if v < 0 || v as i128 > (n - 1) as i128 { n - 1 } else { v as usize }
}

/// Whether `(x, y)` lies within distance `r` of `(cx, cy)`, for any size of
/// coordinates.
fn disc_contains(cx: i32, cy: i32, r: i32, x: usize, y: usize) -> (b: bool)
    ensures
        b == in_disc(cx as int, cy as int, r as int, (x, y)),
{
    let dx: i128 = x as i128 - cx as i128;
    let dy: i128 = y as i128 - cy as i128;
    proof {
        let c = r as int;
        assert(0 <= c * c <= 0x8000_0000 * 0x8000_0000) by (nonlinear_arith)
            requires
                -0x8000_0000 <= c <= 0x7fff_ffff,
        ;
    }
    let rr: i128 = r as i128 * r as i128;
    let bound: i128 = 0x1_0000_0000;
    if dx > bound || dx < -bound || dy > bound || dy < -bound {
        proof {
            let (a, b, c) = (dx as int, dy as int, r as int);
            assert(a * a + b * b > c * c) by (nonlinear_arith)
                requires
                    a > 0x1_0000_0000 || a < -0x1_0000_0000 || b > 0x1_0000_0000 || b
                        < -0x1_0000_0000,
                    -0x8000_0000 <= c <= 0x7fff_ffff,
            ;
        }
        false
    } else {
        proof {
            let (a, b) = (dx as int, dy as int);
            assert(0 <= a * a <= 0x1_0000_0000 * 0x1_0000_0000) by (nonlinear_arith)
                requires
                    -0x1_0000_0000 <= a <= 0x1_0000_0000,
            ;
            assert(0 <= b * b <= 0x1_0000_0000 * 0x1_0000_0000) by (nonlinear_arith)
                requires
                    -0x1_0000_0000 <= b <= 0x1_0000_0000,
            ;
        }
        dx * dx + dy * dy <= rr
    }
}

spec fn kept_by(disc: Option<(i32, i32, i32)>, c: (usize, usize)) -> bool {
    match disc {
        Some(d) => in_disc(d.0 as int, d.1 as int, d.2 as int, c),
        None => true,
    }
}

/// The cells of the box `[x0, x1] x [y0, y1]`, row by row, keeping only those
/// within the disc when one is given.
pub(crate) fn scan_box(x0: usize, x1: usize, y0: usize, y1: usize, disc: Option<(i32, i32, i32)>) -> (r: Vec<
    (usize, usize),
>)
    requires
        x1 < usize::MAX,
        y1 < usize::MAX,
    ensures
        disc matches Some(d) ==> r@ == box_cells(x0 as int, x1 as int, y0 as int, y1 as int).filter(
            |c: (usize, usize)| in_disc(d.0 as int, d.1 as int, d.2 as int, c),
        ),
        disc is None ==> r@ == box_cells(x0 as int, x1 as int, y0 as int, y1 as int),
{
    let ghost all = box_cells(x0 as int, x1 as int, y0 as int, y1 as int);
    let ghost keep = |c: (usize, usize)| kept_by(disc, c);
    let mut r: Vec<(usize, usize)> = Vec::new();
    if x1 < x0 || y1 < y0 {
        proof {
            reveal(Seq::filter);
            assert(all.len() == 0) by (nonlinear_arith)
                requires
                    all.len() == span(x0 as int, x1 + 1) * span(y0 as int, y1 + 1),
                    span(x0 as int, x1 + 1) == 0 || span(y0 as int, y1 + 1) == 0,
            ;
            assert(r@ =~= all);
            assert(all.filter(keep) =~= all);
        }
        if let Some(d) = disc {
            assert(keep == (|c: (usize, usize)| in_disc(d.0 as int, d.1 as int, d.2 as int, c)));
        }
        return r;
    }
    let ghost cols: int = (x1 + 1 - x0) as int;
    let mut y: usize = y0;
    while y <= y1
        invariant
            x0 <= x1 < usize::MAX,
            y0 <= y <= y1 + 1,
            y1 < usize::MAX,
            cols == x1 + 1 - x0,
            all == box_cells(x0 as int, x1 as int, y0 as int, y1 as int),
            r@ == all.take(cols * (y - y0)).filter(keep),
            forall|c: (usize, usize)| #[trigger] keep(c) == kept_by(disc, c),
        decreases y1 + 1 - y,
    {
        let mut x: usize = x0;
        while x <= x1
            invariant
                x0 <= x <= x1 + 1,
                x1 < usize::MAX,
                y0 <= y <= y1,
                y1 < usize::MAX,
                cols == x1 + 1 - x0,
                all == box_cells(x0 as int, x1 as int, y0 as int, y1 as int),
                r@ == all.take(cols * (y - y0) + (x - x0)).filter(keep),
                forall|c: (usize, usize)| #[trigger] keep(c) == kept_by(disc, c),
            decreases x1 + 1 - x,
        {
            let ghost n = cols * (y - y0) + (x - x0);
            proof {
                assert(span(x0 as int, x1 + 1) == cols);
                assert(span(y0 as int, y1 + 1) == y1 + 1 - y0);
                assert(all.len() == cols * (y1 + 1 - y0));
                assert(cols * (y - y0) == (y - y0) * cols) by (nonlinear_arith);
                lemma_fundamental_div_mod_converse(n, cols, (y - y0) as int, (x - x0) as int);
                let (c, q, rows) = (cols, (y - y0) as int, (y1 + 1 - y0) as int);
                assert(c * (q + 1) <= c * rows) by (nonlinear_arith)
                    requires
                        c >= 0,
                        q + 1 <= rows,
                ;
                assert(c * (q + 1) == c * q + c) by (nonlinear_arith);
                assert(n < all.len());
                assert(all[n] == (x, y));
                assert(all.take(n + 1).drop_last() =~= all.take(n));
                reveal(Seq::filter);
            }
            let kept = match disc {
                Some(d) => disc_contains(d.0, d.1, d.2, x, y),
                None => true,
            };
            proof {
                assert(all.take(n + 1).last() == (x, y));
            }
            if kept {
                r.push((x, y));
            }
            x = x + 1;
        }
        proof {
            assert(cols * (y + 1 - y0) == cols * (y - y0) + cols) by (nonlinear_arith);
        }
        y = y + 1;
    }
    proof {
        assert(span(x0 as int, x1 + 1) == cols);
        assert(span(y0 as int, y1 + 1) == y1 + 1 - y0);
        assert(cols * (y - y0) == all.len()) by (nonlinear_arith)
            requires
                y == y1 + 1,
                all.len() == cols * (y1 + 1 - y0),
        ;
        assert(all.take(all.len() as int) =~= all);
        if disc is None {
            lemma_filter_all(all, keep);
        }
    }
    if let Some(d) = disc {
        assert(keep == (|c: (usize, usize)| in_disc(d.0 as int, d.1 as int, d.2 as int, c)));
    }
    r
}

/// The cells of the filled circle of `radius` about `(cx, cy)` that lie on a
/// `width` by `height` lattice, row by row.
pub fn circle_cells(cx: i32, cy: i32, radius: i32, width: usize, height: usize) -> (r: Vec<
    (usize, usize),
>)
    ensures
        r@ == disc_plan(cx as int, cy as int, radius as int, width as int, height as int),
        forall|i: int|
            0 <= i < r@.len() ==> on_lattice(width as int, height as int, #[trigger] r@[i])
                && in_disc(cx as int, cy as int, radius as int, r@[i]),
{
    let ghost plan = disc_plan(cx as int, cy as int, radius as int, width as int, height as int);
    if width == 0 || height == 0 {
        let r: Vec<(usize, usize)> = Vec::new();
        proof {
            reveal(Seq::filter);
            lemma_box_empty(
                lo_clamp(cx - radius),
                hi_clamp(cx + radius, width as int),
                lo_clamp(cy - radius),
                hi_clamp(cy + radius, height as int),
            );
            assert(plan =~= r@);
        }
        return r;
    }
    let lx: i64 = if cx as i64 - radius as i64 > 0 { cx as i64 - radius as i64 } else { 0 };
    let ly: i64 = if cy as i64 - radius as i64 > 0 { cy as i64 - radius as i64 } else { 0 };
    let x1 = hi_of(cx as i64 + radius as i64, width);
    let y1 = hi_of(cy as i64 + radius as i64, height);
    if lx as i128 > x1 as i128 || ly as i128 > y1 as i128 {
        let r: Vec<(usize, usize)> = Vec::new();
        proof {
            reveal(Seq::filter);
            lemma_box_empty(lx as int, x1 as int, ly as int, y1 as int);
            assert(plan =~= r@);
        }
        return r;
    }
    let x0 = lx as usize;
    let y0 = ly as usize;
    let r = scan_box(x0, x1, y0, y1, Some((cx, cy, radius)));
    proof {
        assert forall|i: int| 0 <= i < r@.len() implies on_lattice(
            width as int,
            height as int,
            #[trigger] r@[i],
        ) by {
            lemma_filtered_box_cell(
                x0 as int,
                x1 as int,
                y0 as int,
                y1 as int,
                |c: (usize, usize)| in_disc(cx as int, cy as int, radius as int, c),
                i,
            );
        }
    }
    r
}

/// The cells of the filled rectangle with corners `(x1, y1)` and `(x2, y2)`
/// that lie on a `width` by `height` lattice, row by row.
#[verifier::rlimit(40)]
pub fn rect_cells(x1: i32, y1: i32, x2: i32, y2: i32, width: usize, height: usize) -> (r: Vec<
    (usize, usize),
>)
    ensures
        r@ == rect_plan(x1 as int, y1 as int, x2 as int, y2 as int, width as int, height as int),
        forall|i: int|
            0 <= i < r@.len() ==> on_lattice(width as int, height as int, #[trigger] r@[i])
                && in_rect(x1 as int, y1 as int, x2 as int, y2 as int, r@[i]),
{
    let (lo_x, hi_x) = if x1 <= x2 { (x1, x2) } else { (x2, x1) };
    let (lo_y, hi_y) = if y1 <= y2 { (y1, y2) } else { (y2, y1) };
    let ghost (a, b, c, d) = (
        lo_clamp(lo_x as int),
        min(hi_x as int, width - 1),
        lo_clamp(lo_y as int),
        min(hi_y as int, height - 1),
    );
    if width == 0 || height == 0 || hi_x < 0 || hi_y < 0 {
        let r: Vec<(usize, usize)> = Vec::new();
        proof {
            lemma_box_empty(a, b, c, d);
            assert(r@ =~= rect_plan(x1 as int, y1 as int, x2 as int, y2 as int, width as int, height as int));
        }
        return r;
    }
    let lx: i64 = if lo_x > 0 { lo_x as i64 } else { 0 };
    let ly: i64 = if lo_y > 0 { lo_y as i64 } else { 0 };
    let hx = if hi_x as i128 > (width - 1) as i128 { width - 1 } else { hi_x as usize };
    let hy = if hi_y as i128 > (height - 1) as i128 { height - 1 } else { hi_y as usize };
    if lx as i128 > hx as i128 || ly as i128 > hy as i128 {
        let r: Vec<(usize, usize)> = Vec::new();
        proof {
            lemma_box_empty(a, b, c, d);
            assert(r@ =~= rect_plan(x1 as int, y1 as int, x2 as int, y2 as int, width as int, height as int));
        }
        return r;
    }
    let r = scan_box(lx as usize, hx, ly as usize, hy, None);
    proof {
        assert forall|i: int| 0 <= i < r@.len() implies on_lattice(
            width as int,
            height as int,
            #[trigger] r@[i],
        ) && in_rect(x1 as int, y1 as int, x2 as int, y2 as int, r@[i]) by {
            lemma_box_cell(lx as int, hx as int, ly as int, hy as int, i);
        }
    }
    r
}

/// `+1` toward a larger target, `-1` otherwise.
pub open spec fn direction(from: int, to: int) -> int {
    if from < to { 1 } else { -1 }
}

/// One step of a line from `(x1, y1)` toward `(x2, y2)`: each coordinate
/// stays or moves one cell toward its target, and at least one moves.
pub open spec fn line_step(a: (i32, i32), b: (i32, i32), x1: int, y1: int, x2: int, y2: int) -> bool {
    let (ddx, ddy) = (b.0 - a.0, b.1 - a.1);
    &&& ddx == 0 || ddx == direction(x1, x2)
    &&& ddy == 0 || ddy == direction(y1, y2)
    &&& ddx != 0 || ddy != 0
}

/// A connected path of cells from `(x1, y1)` to `(x2, y2)` in which every
/// step moves to one of the eight neighbours, toward the end.
pub open spec fn is_line_path(p: Seq<(i32, i32)>, x1: int, y1: int, x2: int, y2: int) -> bool {
    &&& p.len() >= 1
    &&& p[0] == (x1 as i32, y1 as i32)
    &&& p.last() == (x2 as i32, y2 as i32)
    &&& forall|k: int| 0 <= k < p.len() - 1 ==> line_step(#[trigger] p[k], p[k + 1], x1, y1, x2, y2)
}

/// `|a - b|`.
pub open spec fn dist(a: int, b: int) -> int {
    if a >= b { a - b } else { b - a }
}

/// One step of Bresenham's error term for a line with `dx = |x2 - x1|`,
/// `dy = -|y2 - y1|` and directions `sx`, `sy`: with `e2 = 2 * err`, x moves
/// when `e2 >= dy` and y moves when `e2 <= dx`, each move adding its term
/// to the error.
pub open spec fn bresenham_step(s: (int, int, int), dx: int, dy: int, sx: int, sy: int) -> (
    int,
    int,
    int,
) {
    let e2 = 2 * s.2;
    let (x, e) = if e2 >= dy { (s.0 + sx, s.2 + dy) } else { (s.0, s.2) };
    if e2 <= dx { (x, s.1 + sy, e + dx) } else { (x, s.1, e) }
}

/// Position and error term after `k` steps of Bresenham's line from
/// `(x1, y1)` to `(x2, y2)`; the error starts at `dx + dy`.
pub open spec fn bresenham_state(x1: int, y1: int, x2: int, y2: int, k: nat) -> (int, int, int)
    decreases k,
{
    if k == 0 {
        (x1, y1, dist(x1, x2) - dist(y1, y2))
    } else {
        bresenham_step(
            bresenham_state(x1, y1, x2, y2, (k - 1) as nat),
            dist(x1, x2),
            -dist(y1, y2),
            direction(x1, x2),
            direction(y1, y2),
        )
    }
}

/// The cell that Bresenham's line visits after `k` steps.
pub open spec fn bresenham_cell(x1: int, y1: int, x2: int, y2: int, k: nat) -> (i32, i32) {
    let s = bresenham_state(x1, y1, x2, y2, k);
    (s.0 as i32, s.1 as i32)
}

/// The cells of the line from `(x1, y1)` to `(x2, y2)` chosen by
/// Bresenham's algorithm, from start to end. The coordinate that changes
/// more moves on every step, so the line has one cell per unit of that
/// change, plus one.
pub fn line_points(x1: i32, y1: i32, x2: i32, y2: i32) -> (r: Vec<(i32, i32)>)
    ensures
        is_line_path(r@, x1 as int, y1 as int, x2 as int, y2 as int),
        r@.len() == max(dist(x1 as int, x2 as int), dist(y1 as int, y2 as int)) + 1,
        forall|k: int|
            0 <= k < r@.len() ==> #[trigger] r@[k] == bresenham_cell(
                x1 as int,
                y1 as int,
                x2 as int,
                y2 as int,
                k as nat,
            ),
{
    let dx: i64 = if x2 as i64 >= x1 as i64 { x2 as i64 - x1 as i64 } else { x1 as i64 - x2 as i64 };
    let dy: i64 = if y2 as i64 >= y1 as i64 { y1 as i64 - y2 as i64 } else { y2 as i64 - y1 as i64 };
    let sx: i32 = if x1 < x2 { 1 } else { -1 };
    let sy: i32 = if y1 < y2 { 1 } else { -1 };
    let mut err: i64 = dx + dy;
    let mut x: i32 = x1;
    let mut y: i32 = y1;
    let ghost mut nx: int = 0;
    let ghost mut ny: int = 0;
    let mut pts: Vec<(i32, i32)> = Vec::new();
    proof {
        assert(dx * (1 + ny) + dy * (1 + nx) == err) by (nonlinear_arith)
            requires
                nx == 0,
                ny == 0,
                err == dx + dy,
        ;
    }
    loop
        invariant_except_break
            0 <= nx <= dx,
            0 <= ny <= -dy,
            x == x1 + sx * nx,
            y == y1 + sy * ny,
            err == dx * (1 + ny) + dy * (1 + nx),
            2 * dy <= err <= 2 * dx,
            dx >= -dy ==> 2 * err >= dx + 2 * dy,
            -dy >= dx ==> 2 * err <= 2 * dx + dy,
            pts@.len() == (if dx >= -dy { nx } else { ny }),
            pts@.len() == 0 ==> nx == 0 && ny == 0,
            (x as int, y as int, err as int) == bresenham_state(
                x1 as int,
                y1 as int,
                x2 as int,
                y2 as int,
                pts@.len() as nat,
            ),
            pts@.len() > 0 ==> pts@[0] == (x1, y1) && line_step(
                pts@.last(),
                (x, y),
                x1 as int,
                y1 as int,
                x2 as int,
                y2 as int,
            ),
            forall|k: int|
                0 <= k < pts@.len() ==> #[trigger] pts@[k] == bresenham_cell(
                    x1 as int,
                    y1 as int,
                    x2 as int,
                    y2 as int,
                    k as nat,
                ),
            forall|k: int|
                0 <= k < pts@.len() - 1 ==> line_step(
                    #[trigger] pts@[k],
                    pts@[k + 1],
                    x1 as int,
                    y1 as int,
                    x2 as int,
                    y2 as int,
                ),
        invariant
            dx == (if x2 >= x1 { x2 - x1 } else { x1 - x2 }),
            dy == (if y2 >= y1 { y1 - y2 } else { y2 - y1 }),
            sx == direction(x1 as int, x2 as int),
            sy == direction(y1 as int, y2 as int),
        ensures
            is_line_path(pts@, x1 as int, y1 as int, x2 as int, y2 as int),
            pts@.len() == (if dx >= -dy { dx as int } else { -dy }) + 1,
            forall|k: int|
                0 <= k < pts@.len() ==> #[trigger] pts@[k] == bresenham_cell(
                    x1 as int,
                    y1 as int,
                    x2 as int,
                    y2 as int,
                    k as nat,
                ),
        decreases (dx - nx) + (-dy - ny),
    {
        let ghost before = pts@;
        let ghost n = pts@.len();
        pts.push((x, y));
        proof {
            assert forall|k: int| 0 <= k < pts@.len() implies #[trigger] pts@[k] == bresenham_cell(
                x1 as int,
                y1 as int,
                x2 as int,
                y2 as int,
                k as nat,
            ) by {
                if k < n {
                    assert(pts@[k] == before[k]);
                }
            }
            assert forall|k: int| 0 <= k < pts@.len() - 1 implies line_step(
                #[trigger] pts@[k],
                pts@[k + 1],
                x1 as int,
                y1 as int,
                x2 as int,
                y2 as int,
            ) by {
                if k < before.len() - 1 {
                    assert(pts@[k] == before[k] && pts@[k + 1] == before[k + 1]);
                } else {
                    assert(pts@[k] == before.last());
                }
            }
        }
        if x == x2 && y == y2 {
            break;
        }
        let e2: i64 = 2 * err;
        let ghost s0 = (x as int, y as int, err as int);
        proof {
            let (a, b, i, j) = (dx as int, dy as int, nx, ny);
            if e2 >= dy {
                assert(i < a) by (nonlinear_arith)
                    requires
                        e2 == 2 * (a * (1 + j) + b * (1 + i)),
                        e2 >= b,
                        0 <= i <= a,
                        0 <= j <= -b,
                        i == a ==> j != -b,
                ;
            }
            if e2 <= dx {
                assert(j < -b) by (nonlinear_arith)
                    requires
                        e2 == 2 * (a * (1 + j) + b * (1 + i)),
                        e2 <= a,
                        0 <= i <= a,
                        0 <= j <= -b,
                        j == -b ==> i != a,
                ;
            }
        }
        if e2 >= dy {
            proof {
                assert(dx * (1 + ny) + dy * (1 + (nx + 1)) == err + dy) by (nonlinear_arith)
                    requires
                        err == dx * (1 + ny) + dy * (1 + nx),
                ;
                nx = nx + 1;
            }
            err = err + dy;
            x = x + sx;
        }
        if e2 <= dx {
            proof {
                assert(dx * (1 + (ny + 1)) + dy * (1 + nx) == err + dx) by (nonlinear_arith)
                    requires
                        err == dx * (1 + ny) + dy * (1 + nx),
                ;
                ny = ny + 1;
            }
            err = err + dx;
            y = y + sy;
        }
        proof {
            assert(bresenham_state(x1 as int, y1 as int, x2 as int, y2 as int, (n + 1) as nat)
                == bresenham_step(s0, dx as int, dy as int, sx as int, sy as int));
        }
    }
    pts
}

/// The cells of a brush of `radius` stamped at each point in turn.
pub open spec fn stroke_plan(points: Seq<(i32, i32)>, radius: int, w: int, h: int) -> Seq<
    (usize, usize),
>
    decreases points.len(),
{
    if points.len() == 0 {
        Seq::empty()
    } else {
        stroke_plan(points.drop_last(), radius, w, h) + disc_plan(
            points.last().0 as int,
            points.last().1 as int,
            radius,
            w,
            h,
        )
    }
}

/// The cells painted by stamping a circular brush of `radius` at each point
/// in turn, on a `width` by `height` lattice.
pub fn stroke_cells(points: &Vec<(i32, i32)>, radius: i32, width: usize, height: usize) -> (r: Vec<
    (usize, usize),
>)
    ensures
        r@ == stroke_plan(points@, radius as int, width as int, height as int),
{
    let mut r: Vec<(usize, usize)> = Vec::new();
    let mut i: usize = 0;
    while i < points.len()
        invariant
            i <= points@.len(),
            r@ == stroke_plan(points@.take(i as int), radius as int, width as int, height as int),
        decreases points@.len() - i,
    {
        let (cx, cy) = points[i];
        let mut disc = circle_cells(cx, cy, radius, width, height);
        proof {
            assert(points@.take(i + 1).drop_last() =~= points@.take(i as int));
        }
        r.append(&mut disc);
        i = i + 1;
    }
    proof {
        assert(points@.take(i as int) =~= points@);
    }
    r
}

} // verus!
