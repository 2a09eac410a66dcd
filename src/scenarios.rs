//! Preset experiments: their identifiers, names and the cell lists that lay
//! out their geometry. A cell list is a sequence of `(x, y, material_id)`
//! assignments applied in order.

use vstd::prelude::*;
use crate::paint::{box_cells, lemma_box_empty, scan_box};

verus! {

/// Identifiers of the preset experiments.
#[derive(Clone, Copy, Debug, PartialEq, Eq, Structural)]
pub enum ScenarioId {
    /// Empty grid - just vacuum
    Empty,
    /// Double slit diffraction experiment
    DoubleSlit,
    /// Dielectric waveguide (bent fiber optic)
    Waveguide,
    /// Parabolic metal reflector with point source
    ParabolicReflector,
    /// Glass prism demonstrating total internal reflection
    TotalInternalReflection,
    /// Photonic crystal lattice
    PhotonicCrystal,
    /// Lens focusing demonstration
    Lens,
    /// Fresnel zone plate lens
    FresnelLens,
}

/// The display name of scenario `id`.
pub open spec fn scenario_name(id: u8) -> Seq<char> {
    match id {
        0 => "Empty Grid"@,
        1 => "Double Slit"@,
        2 => "Waveguide"@,
        3 => "Parabolic Reflector"@,
        4 => "Total Internal Reflection"@,
        5 => "Photonic Crystal"@,
        6 => "Lens"@,
        7 => "Fresnel Lens"@,
        _ => "Unknown"@,
    }
}

/// The one-line description of scenario `id`.
pub open spec fn scenario_description(id: u8) -> Seq<char> {
    match id {
        0 => "Empty vacuum grid"@,
        1 => "Wave diffraction through two slits"@,
        2 => "Guided wave in bent dielectric"@,
        3 => "Focusing waves with curved reflector"@,
        4 => "Light trapping in glass prism"@,
        5 => "Periodic dielectric structure"@,
        6 => "Convex lens focusing"@,
        7 => "Fresnel zone plate focusing"@,
        _ => ""@,
    }
}

/// The display name of a scenario identifier, `"Unknown"` past the presets.
pub fn get_scenario_name(id: u8) -> (r: String)
    ensures
        r@ == scenario_name(id),
{
    let s = match id {
        0 => "Empty Grid",
        1 => "Double Slit",
        2 => "Waveguide",
        3 => "Parabolic Reflector",
        4 => "Total Internal Reflection",
        5 => "Photonic Crystal",
        6 => "Lens",
        7 => "Fresnel Lens",
        _ => "Unknown",
    };
    s.to_string()
}

/// The description of a scenario identifier, empty past the presets.
pub fn get_scenario_description(id: u8) -> (r: String)
    ensures
        r@ == scenario_description(id),
{
    let s = match id {
        0 => "Empty vacuum grid",
        1 => "Wave diffraction through two slits",
        2 => "Guided wave in bent dielectric",
        3 => "Focusing waves with curved reflector",
        4 => "Light trapping in glass prism",
        5 => "Periodic dielectric structure",
        6 => "Convex lens focusing",
        7 => "Fresnel zone plate focusing",
        _ => "",
    };
    s.to_string()
}

/// Width of each slit, in cells.
pub const SLIT_WIDTH: usize = 4;

/// Distance between the slit centres, in cells.
pub const SLIT_SEPARATION: usize = 40;

/// Material identifier of metal.
pub const METAL_ID: u32 = 3;

/// First row of the lower slit of a grid `h` cells high.
pub open spec fn lower_slit(h: nat) -> int {
    h / 2 - SLIT_SEPARATION / 2 - SLIT_WIDTH / 2
}

/// First row of the upper slit of a grid `h` cells high.
pub open spec fn upper_slit(h: nat) -> int {
    h / 2 + SLIT_SEPARATION / 2 - SLIT_WIDTH / 2
}

pub open spec fn in_slit(h: nat, y: int) -> bool {
    (lower_slit(h) <= y < lower_slit(h) + SLIT_WIDTH) || (upper_slit(h) <= y < upper_slit(h)
        + SLIT_WIDTH)
}

/// The metal wall of the double slit over rows `0..rows`: three cells from
/// column `w / 3` on every row outside the two slits.
pub open spec fn double_slit_plan(w: nat, h: nat, rows: nat) -> Seq<(usize, usize, u32)>
    decreases rows,
{
    if rows == 0 {
        Seq::empty()
    } else {
        let y = (rows - 1) as int;
        let x = w / 3;
        double_slit_plan(w, h, (rows - 1) as nat) + if in_slit(h, y) {
            Seq::empty()
        } else {
            seq![
                (x as usize, y as usize, METAL_ID),
                ((x + 1) as usize, y as usize, METAL_ID),
                ((x + 2) as usize, y as usize, METAL_ID),
            ]
        }
    }
}

/// Material identifier of the crystal slab.
pub const CRYSTAL_ID: u32 = 5;

/// Material identifier of the holes.
pub const VACUUM_ID: u32 = 0;

/// Rows and columns of holes.
pub const HOLE_ROWS: usize = 10;

pub const HOLE_COLS: usize = 20;

/// Centre-to-centre spacing of the holes.
pub const HOLE_PERIOD: usize = 20;

/// Radius of each hole.
pub const HOLE_RADIUS: i64 = 6;

/// Margin between the slab and the left and right edges.
pub const SLAB_MARGIN: usize = 100;

/// First row of the slab.
pub open spec fn slab_top(h: nat) -> int {
    (h / 3) as int
}

/// Row past the last row of the slab.
pub open spec fn slab_bottom(h: nat) -> int {
    (h * 2 / 3) as int
}

/// Centre of hole `k`: row `k / 20` and column `k % 20` of a triangular
/// lattice whose odd rows are shifted by half a period.
pub open spec fn hole_center(h: nat, k: int) -> (int, int) {
    let (row, col) = (k / HOLE_COLS as int, k % HOLE_COLS as int);
    (
        110 + col * HOLE_PERIOD + (row % 2) * (HOLE_PERIOD / 2) as int,
        slab_top(h) + 10 + row * HOLE_PERIOD,
    )
}

/// Whether cell `(x, y)` lies in hole `k`.
pub open spec fn in_hole(h: nat, k: int, x: int, y: int) -> bool {
    let c = hole_center(h, k);
    (x - c.0) * (x - c.0) + (y - c.1) * (y - c.1) <= HOLE_RADIUS * HOLE_RADIUS
}

/// The crystal slab: every cell of rows `h / 3 .. 2h / 3` and columns
/// `100 .. w - 100`, row by row.
pub open spec fn slab_plan(w: nat, h: nat) -> Seq<(usize, usize, u32)> {
    box_cells(
        SLAB_MARGIN as int,
        w - SLAB_MARGIN - 1,
        slab_top(h),
        slab_bottom(h) - 1,
    ).map_values(|c: (usize, usize)| (c.0, c.1, CRYSTAL_ID))
}

/// An offset inside a hole is at most the radius along each axis.
proof fn lemma_small_offset(a: int, b: int)
    requires
        a * a + b * b <= HOLE_RADIUS * HOLE_RADIUS,
    ensures
        -HOLE_RADIUS <= a <= HOLE_RADIUS,
        -HOLE_RADIUS <= b <= HOLE_RADIUS,
{
    assert(-6 <= a <= 6 && -6 <= b <= 6) by (nonlinear_arith)
        requires
            a * a + b * b <= 36,
    ;
}

/// Pushing onto a list keeps what its tail past `n0` contains.
proof fn lemma_push_keeps(s: Seq<(usize, usize, u32)>, n0: int, e: (usize, usize, u32))
    requires
        0 <= n0 <= s.len(),
    ensures
        forall|v: (usize, usize, u32)|
            s.subrange(n0, s.len() as int).contains(v) ==> #[trigger] s.push(e).subrange(
                n0,
                s.len() + 1 as int,
            ).contains(v),
        s.push(e).subrange(n0, s.len() + 1 as int).contains(e),
        s.push(e).take(n0) == s.take(n0),
{
    let t = s.push(e);
    assert forall|v: (usize, usize, u32)|
        s.subrange(n0, s.len() as int).contains(v) implies #[trigger] t.subrange(
            n0,
            s.len() + 1 as int,
        ).contains(v) by {
        let j = choose|j: int| 0 <= j < s.len() - n0 && s.subrange(n0, s.len() as int)[j] == v;
        assert(t.subrange(n0, s.len() + 1 as int)[j] == v);
    }
    assert(t.subrange(n0, s.len() + 1 as int)[s.len() - n0] == e);
    assert(t.take(n0) =~= s.take(n0));
}

/// Lays out the geometry of a preset on a `width` by `height` grid.
pub struct ScenarioBuilder {
    width: usize,
    height: usize,
}

impl ScenarioBuilder {
    pub closed spec fn spec_width(&self) -> nat {
        self.width as nat
    }

    pub closed spec fn spec_height(&self) -> nat {
        self.height as nat
    }

    pub fn new(width: usize, height: usize) -> (r: ScenarioBuilder)
        ensures
            r.spec_width() == width,
            r.spec_height() == height,
    {
        ScenarioBuilder { width, height }
    }

    pub fn get_width(&self) -> (r: usize)
        ensures
            r == self.spec_width(),
    {
        self.width
    }

    pub fn get_height(&self) -> (r: usize)
        ensures
            r == self.spec_height(),
    {
        self.height
    }

    /// A metal wall three cells thick at a third of the width, broken by two
    /// slits of `SLIT_WIDTH` rows whose centres lie `SLIT_SEPARATION` rows
    /// apart about the middle row.
    pub fn build_double_slit(&self) -> (r: Vec<(usize, usize, u32)>)
        requires
            self.spec_height() / 2 >= SLIT_SEPARATION / 2 + SLIT_WIDTH / 2,
        ensures
            r@ == double_slit_plan(self.spec_width(), self.spec_height(), self.spec_height()),
    {
        let (w, h) = (self.width, self.height);
        let wall_x = w / 3;
        let slit_y1 = h / 2 - SLIT_SEPARATION / 2 - SLIT_WIDTH / 2;
        let slit_y2 = h / 2 + SLIT_SEPARATION / 2 - SLIT_WIDTH / 2;
        let mut cells: Vec<(usize, usize, u32)> = Vec::new();
        let mut y: usize = 0;
        while y < h
            invariant
                w == self.spec_width(),
                h == self.spec_height(),
                wall_x == w / 3,
                slit_y1 == lower_slit(h as nat),
                slit_y2 == upper_slit(h as nat),
                y <= h,
                cells@ == double_slit_plan(w as nat, h as nat, y as nat),
            decreases h - y,
        {
            let in_slit1 = y >= slit_y1 && y < slit_y1 + SLIT_WIDTH;
            let in_slit2 = y >= slit_y2 && y < slit_y2 + SLIT_WIDTH;
            proof {
                assert(double_slit_plan(w as nat, h as nat, (y + 1) as nat) == double_slit_plan(
                    w as nat,
                    h as nat,
                    y as nat,
                ) + if in_slit(h as nat, y as int) {
                    Seq::empty()
                } else {
                    seq![
                        (wall_x, y, METAL_ID),
                        ((wall_x + 1) as usize, y, METAL_ID),
                        ((wall_x + 2) as usize, y, METAL_ID),
                    ]
                });
            }
            if !in_slit1 && !in_slit2 {
                cells.push((wall_x, y, METAL_ID));
                cells.push((wall_x + 1, y, METAL_ID));
                cells.push((wall_x + 2, y, METAL_ID));
            }
            proof {
                assert(cells@ =~= double_slit_plan(w as nat, h as nat, (y + 1) as nat));
            }
            y = y + 1;
        }
        cells
    }
    /// A crystal slab over the middle third of the rows, `SLAB_MARGIN` cells
    /// in from the left and right edges, followed by vacuum holes of radius
    /// `HOLE_RADIUS` on a 10 by 20 triangular lattice. The hole list holds
    /// exactly the grid cells that lie in some hole, so after the list is
    /// applied those cells are vacuum.
    pub fn build_photonic_crystal(&self) -> (r: Vec<(usize, usize, u32)>)
        requires
            self.spec_width() >= SLAB_MARGIN,
        ensures
            r@.len() >= slab_plan(self.spec_width(), self.spec_height()).len(),
            r@.take(slab_plan(self.spec_width(), self.spec_height()).len() as int) == slab_plan(
                self.spec_width(),
                self.spec_height(),
            ),
            forall|i: int|
                slab_plan(self.spec_width(), self.spec_height()).len() <= i < r@.len() ==> {
                    let e = #[trigger] r@[i];
                    &&& e.2 == VACUUM_ID
                    &&& e.0 < self.spec_width() && e.1 < self.spec_height()
                    &&& exists|k: int| 0 <= k < 200 && #[trigger] in_hole(self.spec_height(), k, e.0 as int, e.1 as int)
                },
            forall|k: int, x: usize, y: usize|
                0 <= k < 200 && x < self.spec_width() && y < self.spec_height() && #[trigger] in_hole(
                    self.spec_height(),
                    k,
                    x as int,
                    y as int,
                ) ==> r@.subrange(
                    slab_plan(self.spec_width(), self.spec_height()).len() as int,
                    r@.len() as int,
                ).contains((x, y, VACUUM_ID)),
    {
        let (w, h) = (self.width, self.height);
        let top = h / 3;
        let bottom = ((h as u128) * 2 / 3) as usize;
        let ghost slab = slab_plan(w as nat, h as nat);
        let cells2 = if bottom >= 1 && w - SLAB_MARGIN >= 1 {
            scan_box(SLAB_MARGIN, w - SLAB_MARGIN - 1, top, bottom - 1, None)
        } else {
            proof {
                lemma_box_empty(
                    SLAB_MARGIN as int,
                    w - SLAB_MARGIN - 1,
                    slab_top(h as nat),
                    slab_bottom(h as nat) - 1,
                );
            }
            Vec::new()
        };
        assert(cells2@ =~= box_cells(SLAB_MARGIN as int, w - SLAB_MARGIN - 1, slab_top(h as nat), slab_bottom(h as nat) - 1));
        let mut cells: Vec<(usize, usize, u32)> = Vec::new();
        let mut i: usize = 0;
        while i < cells2.len()
            invariant
                i <= cells2@.len(),
                cells@ =~= cells2@.take(i as int).map_values(
                    |c: (usize, usize)| (c.0, c.1, CRYSTAL_ID),
                ),
            decreases cells2@.len() - i,
        {
            let (x, y) = cells2[i];
            cells.push((x, y, CRYSTAL_ID));
            i = i + 1;
            assert(cells@ =~= cells2@.take(i as int).map_values(
                |c: (usize, usize)| (c.0, c.1, CRYSTAL_ID),
            ));
        }
        assert(cells2@.take(i as int) =~= cells2@);
        assert(cells@ =~= slab);
        let ghost n0 = cells@.len();
        let mut k: usize = 0;
        while k < HOLE_ROWS * HOLE_COLS
            invariant
                w == self.spec_width(),
                h == self.spec_height(),
                top == slab_top(h as nat),
                n0 == slab.len(),
                k <= 200,
                cells@.len() >= n0,
                cells@.take(n0 as int) == slab,
                forall|i: int|
                    n0 <= i < cells@.len() ==> {
                        let e = #[trigger] cells@[i];
                        &&& e.2 == VACUUM_ID
                        &&& e.0 < w && e.1 < h
                        &&& exists|k: int| 0 <= k < 200 && #[trigger] in_hole(h as nat, k, e.0 as int, e.1 as int)
                    },
                forall|kk: int, x: usize, y: usize|
                    0 <= kk < k && x < w && y < h && #[trigger] in_hole(h as nat, kk, x as int, y as int)
                        ==> cells@.subrange(n0 as int, cells@.len() as int).contains((x, y, VACUUM_ID)),
            decreases 200 - k,
        {
            let row = k / HOLE_COLS;
            let col = k % HOLE_COLS;
            let shift = if row % 2 == 1 { HOLE_PERIOD / 2 } else { 0 };
            let cx = 110 + col * HOLE_PERIOD + shift;
            let cy = top + 10 + row * HOLE_PERIOD;
            let mut dy: i64 = -HOLE_RADIUS;
            proof {
                assert forall|x: usize, y: usize|
                    #[trigger] in_hole(h as nat, k as int, x as int, y as int) implies y - cy >= dy by {
                    lemma_small_offset(x as int - cx, y as int - cy);
                }
            }
            while dy <= HOLE_RADIUS
                invariant
                    w == self.spec_width(),
                    h == self.spec_height(),
                    top == slab_top(h as nat),
                    n0 == slab.len(),
                    k < 200,
                    (cx as int, cy as int) == hole_center(h as nat, k as int),
                    -HOLE_RADIUS <= dy <= HOLE_RADIUS + 1,
                    cells@.len() >= n0,
                    cells@.take(n0 as int) == slab,
                    forall|i: int|
                        n0 <= i < cells@.len() ==> {
                            let e = #[trigger] cells@[i];
                            &&& e.2 == VACUUM_ID
                            &&& e.0 < w && e.1 < h
                            &&& exists|k: int| 0 <= k < 200 && #[trigger] in_hole(h as nat, k, e.0 as int, e.1 as int)
                        },
                    forall|kk: int, x: usize, y: usize|
                        0 <= kk < k && x < w && y < h && #[trigger] in_hole(h as nat, kk, x as int, y as int)
                            ==> cells@.subrange(n0 as int, cells@.len() as int).contains((x, y, VACUUM_ID)),
                    forall|x: usize, y: usize|
                        x < w && y < h && y - cy < dy && #[trigger] in_hole(h as nat, k as int, x as int, y as int)
                            ==> cells@.subrange(n0 as int, cells@.len() as int).contains((x, y, VACUUM_ID)),
                decreases HOLE_RADIUS + 1 - dy,
            {
                let mut dx: i64 = -HOLE_RADIUS;
                proof {
                    assert forall|x: usize, y: usize|
                        #[trigger] in_hole(h as nat, k as int, x as int, y as int) implies x - cx
                            >= dx by {
                        lemma_small_offset(x as int - cx, y as int - cy);
                    }
                }
                while dx <= HOLE_RADIUS
                    invariant
                        w == self.spec_width(),
                        h == self.spec_height(),
                        top == slab_top(h as nat),
                        n0 == slab.len(),
                        k < 200,
                        (cx as int, cy as int) == hole_center(h as nat, k as int),
                        -HOLE_RADIUS <= dy <= HOLE_RADIUS,
                        -HOLE_RADIUS <= dx <= HOLE_RADIUS + 1,
                        cells@.len() >= n0,
                        cells@.take(n0 as int) == slab,
                        forall|i: int|
                            n0 <= i < cells@.len() ==> {
                                let e = #[trigger] cells@[i];
                                &&& e.2 == VACUUM_ID
                                &&& e.0 < w && e.1 < h
                                &&& exists|k: int| 0 <= k < 200 && #[trigger] in_hole(h as nat, k, e.0 as int, e.1 as int)
                            },
                        forall|kk: int, x: usize, y: usize|
                            0 <= kk < k && x < w && y < h && #[trigger] in_hole(h as nat, kk, x as int, y as int)
                                ==> cells@.subrange(n0 as int, cells@.len() as int).contains((x, y, VACUUM_ID)),
                        forall|x: usize, y: usize|
                            x < w && y < h && (y - cy < dy || (y - cy == dy && x - cx < dx)) && #[trigger] in_hole(h as nat, k as int, x as int, y as int)
                                ==> cells@.subrange(n0 as int, cells@.len() as int).contains((x, y, VACUUM_ID)),
                    decreases HOLE_RADIUS + 1 - dx,
                {
                    let ghost before = cells@;
                    proof {
                        let (a, b) = (dx as int, dy as int);
                        assert(0 <= a * a <= 49 && 0 <= b * b <= 49) by (nonlinear_arith)
                            requires
                                -6 <= a <= 7,
                                -6 <= b <= 7,
                        ;
                    }
                    if dx * dx + dy * dy <= HOLE_RADIUS * HOLE_RADIUS {
                        let x = (cx as i64 + dx) as usize;
                        let y = (cy as i64 + dy) as usize;
                        if x < w && y < h {
                            cells.push((x, y, VACUUM_ID));
                            proof {
                                assert(in_hole(h as nat, k as int, x as int, y as int));
                                lemma_push_keeps(before, n0 as int, (x, y, VACUUM_ID));
                                assert forall|i: int| n0 <= i < cells@.len() implies {
                                    let e = #[trigger] cells@[i];
                                    &&& e.2 == VACUUM_ID
                                    &&& e.0 < w && e.1 < h
                                    &&& exists|k: int|
                                        0 <= k < 200 && #[trigger] in_hole(
                                            h as nat,
                                            k,
                                            e.0 as int,
                                            e.1 as int,
                                        )
                                } by {
                                    if i < before.len() {
                                        assert(cells@[i] == before[i]);
                                    } else {
                                        assert(cells@[i] == (x, y, VACUUM_ID));
                                        assert(0 <= k < 200);
                                        assert(in_hole(
                                            h as nat,
                                            k as int,
                                            cells@[i].0 as int,
                                            cells@[i].1 as int,
                                        ));
                                    }
                                }
                            }
                        }
                    }
                    proof {
                        assert forall|x: usize, y: usize|
                            x < w && y < h && (y - cy < dy || (y - cy == dy && x - cx < dx + 1)) && #[trigger] in_hole(h as nat, k as int, x as int, y as int)
                            implies cells@.subrange(n0 as int, cells@.len() as int).contains((x, y, VACUUM_ID)) by {
                            if y - cy == dy && x - cx == dx {
                            }
                        }
                    }
                    dx = dx + 1;
                }
                proof {
                    assert forall|x: usize, y: usize|
                        x < w && y < h && y - cy < dy + 1 && #[trigger] in_hole(
                            h as nat,
                            k as int,
                            x as int,
                            y as int,
                        ) implies cells@.subrange(n0 as int, cells@.len() as int).contains(
                        (x, y, VACUUM_ID),
                    ) by {
                        lemma_small_offset(x as int - cx, y as int - cy);
                    }
                }
                dy = dy + 1;
            }
            proof {
                assert forall|x: usize, y: usize|
                    x < w && y < h && #[trigger] in_hole(h as nat, k as int, x as int, y as int)
                    implies cells@.subrange(n0 as int, cells@.len() as int).contains((x, y, VACUUM_ID)) by {
                    lemma_small_offset(x as int - cx, y as int - cy);
                }
            }
            k = k + 1;
        }
        cells
    }
}

} // verus!
