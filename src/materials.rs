//! Discrete materials and the per-cell material map.
//!
//! Integer identifiers `0..=6` name the preset materials; any other
//! identifier means vacuum. A scenario or a brush stroke is a list of
//! `(x, y, id)` assignments applied in order, so a later entry for a cell
//! overrides an earlier one.

use vstd::prelude::*;
use crate::lattice::{flat_index, lemma_index_in_range};

verus! {

/// How the field solver treats a material.
#[derive(Clone, Copy, Debug, PartialEq, Eq, Structural)]
pub enum MaterialType {
    /// A (possibly lossy) dielectric.
    Dielectric,
    /// A perfect electric conductor: the electric field is held at zero.
    PEC,
    /// A conducting absorber.
    Absorber,
    /// A source region that does not block fields.
    Source,
}

impl MaterialType {
    pub fn is_pec(&self) -> (r: bool)
        ensures
            r == (*self is PEC),
    {
        match self {
            MaterialType::PEC => true,
            _ => false,
        }
    }
}

/// The preset materials that cells can be painted with.
#[derive(Clone, Copy, Debug, PartialEq, Eq, Structural)]
pub enum MaterialId {
    Vacuum,
    Glass,
    Water,
    Metal,
    Absorber,
    Crystal,
    Silicon,
}

/// The material that identifier `id` selects.
pub open spec fn material_of(id: u32) -> MaterialId {
    match id {
        0 => MaterialId::Vacuum,
        1 => MaterialId::Glass,
        2 => MaterialId::Water,
        3 => MaterialId::Metal,
        4 => MaterialId::Absorber,
        5 => MaterialId::Crystal,
        6 => MaterialId::Silicon,
        _ => MaterialId::Vacuum,
    }
}

/// The display name of identifier `id`.
pub open spec fn material_name(id: u32) -> Seq<char> {
    match id {
        0 => "Vacuum"@,
        1 => "Glass"@,
        2 => "Water"@,
        3 => "Metal"@,
        4 => "Absorber"@,
        5 => "Crystal"@,
        6 => "Silicon"@,
        _ => "Unknown"@,
    }
}

impl MaterialId {
    /// The material of an identifier; unknown identifiers give vacuum.
    pub fn from_id(id: u32) -> (r: MaterialId)
        ensures
            r == material_of(id),
    {
        match id {
            0 => MaterialId::Vacuum,
            1 => MaterialId::Glass,
            2 => MaterialId::Water,
            3 => MaterialId::Metal,
            4 => MaterialId::Absorber,
            5 => MaterialId::Crystal,
            6 => MaterialId::Silicon,
            _ => MaterialId::Vacuum,
        }
    }

    pub open spec fn spec_id(self) -> u32 {
        match self {
            MaterialId::Vacuum => 0,
            MaterialId::Glass => 1,
            MaterialId::Water => 2,
            MaterialId::Metal => 3,
            MaterialId::Absorber => 4,
            MaterialId::Crystal => 5,
            MaterialId::Silicon => 6,
        }
    }

    /// The identifier of the material; `from_id` maps it back.
    pub fn id(&self) -> (r: u32)
        ensures
            r == self.spec_id(),
            material_of(r) == *self,
    {
        match self {
            MaterialId::Vacuum => 0,
            MaterialId::Glass => 1,
            MaterialId::Water => 2,
            MaterialId::Metal => 3,
            MaterialId::Absorber => 4,
            MaterialId::Crystal => 5,
            MaterialId::Silicon => 6,
        }
    }

    pub open spec fn spec_material_type(self) -> MaterialType {
        match self {
            MaterialId::Metal => MaterialType::PEC,
            MaterialId::Absorber => MaterialType::Absorber,
            _ => MaterialType::Dielectric,
        }
    }

    /// Metal is a perfect conductor, the absorber an absorber, and every
    /// other preset a dielectric.
    pub fn material_type(&self) -> (r: MaterialType)
        ensures
            r == self.spec_material_type(),
    {
        match self {
            MaterialId::Metal => MaterialType::PEC,
            MaterialId::Absorber => MaterialType::Absorber,
            _ => MaterialType::Dielectric,
        }
    }

    pub fn is_pec(&self) -> (r: bool)
        ensures
            r == (*self is Metal),
    {
        match self {
            MaterialId::Metal => true,
            _ => false,
        }
    }
}

/// The display name of a material identifier, `"Unknown"` past the presets.
pub fn get_material_name(id: u32) -> (r: String)
    ensures
        r@ == material_name(id),
{
    let s = match id {
        0 => "Vacuum",
        1 => "Glass",
        2 => "Water",
        3 => "Metal",
        4 => "Absorber",
        5 => "Crystal",
        6 => "Silicon",
        _ => "Unknown",
    };
    s.to_string()
}

/// Whether assignment `e` addresses a cell of a `w` by `h` lattice, and
/// which flat index it addresses.
pub open spec fn assignment_lands(w: nat, h: nat, e: (usize, usize, u32)) -> bool {
    e.0 < w && e.1 < h
}

pub open spec fn assignment_index(w: nat, e: (usize, usize, u32)) -> int {
    flat_index(w, e.0 as nat, e.1 as nat) as int
}

/// The map after one assignment: a cell outside is ignored.
pub open spec fn assign(m: Seq<MaterialId>, w: nat, h: nat, e: (usize, usize, u32)) -> Seq<
    MaterialId,
> {
    if assignment_lands(w, h, e) {
        m.update(assignment_index(w, e), material_of(e.2))
    } else {
        m
    }
}

/// The map after a list of assignments, applied first to last.
pub open spec fn assign_all(
    m: Seq<MaterialId>,
    w: nat,
    h: nat,
    cells: Seq<(usize, usize, u32)>,
) -> Seq<MaterialId>
    decreases cells.len(),
{
    if cells.len() == 0 {
        m
    } else {
        assign(assign_all(m, w, h, cells.drop_last()), w, h, cells.last())
    }
}

/// Whether some assignment of the list lands on cell `k`.
pub open spec fn writes(w: nat, h: nat, cells: Seq<(usize, usize, u32)>, k: int) -> bool {
    exists|i: int|
        0 <= i < cells.len() && assignment_lands(w, h, #[trigger] cells[i])
            && assignment_index(w, cells[i]) == k
}

/// A list of assignments keeps the length of the map.
pub proof fn lemma_assign_all_len(
    m: Seq<MaterialId>,
    w: nat,
    h: nat,
    cells: Seq<(usize, usize, u32)>,
)
    requires
        m.len() == w * h,
    ensures
        assign_all(m, w, h, cells).len() == m.len(),
    decreases cells.len(),
{
    if cells.len() > 0 {
        lemma_assign_all_len(m, w, h, cells.drop_last());
        let e = cells.last();
        if assignment_lands(w, h, e) {
            lemma_index_in_range(w, h, e.0 as nat, e.1 as nat);
        }
    }
}

/// A cell that no assignment lands on keeps its material; a cell that one
/// does ends with the same material whatever the map held before.
pub proof fn lemma_assign_all_at(
    m1: Seq<MaterialId>,
    m2: Seq<MaterialId>,
    w: nat,
    h: nat,
    cells: Seq<(usize, usize, u32)>,
    k: int,
)
    requires
        m1.len() == w * h,
        m2.len() == w * h,
        0 <= k < w * h,
    ensures
        !writes(w, h, cells, k) ==> assign_all(m1, w, h, cells)[k] == m1[k],
        writes(w, h, cells, k) ==> assign_all(m1, w, h, cells)[k] == assign_all(
            m2,
            w,
            h,
            cells,
        )[k],
    decreases cells.len(),
{
    if cells.len() > 0 {
        let init = cells.drop_last();
        let e = cells.last();
        lemma_assign_all_at(m1, m2, w, h, init, k);
        lemma_assign_all_len(m1, w, h, init);
        lemma_assign_all_len(m2, w, h, init);
        if assignment_lands(w, h, e) {
            lemma_index_in_range(w, h, e.0 as nat, e.1 as nat);
        }
        if writes(w, h, init, k) {
            let i = choose|i: int|
                0 <= i < init.len() && assignment_lands(w, h, #[trigger] init[i])
                    && assignment_index(w, init[i]) == k;
            assert(cells[i] == init[i]);
        }
        if !writes(w, h, cells, k) {
            if writes(w, h, init, k) {
                let i = choose|i: int|
                    0 <= i < init.len() && assignment_lands(w, h, #[trigger] init[i])
                        && assignment_index(w, init[i]) == k;
                assert(cells[i] == init[i]);
            }
            assert(!(assignment_lands(w, h, e) && assignment_index(w, e) == k)) by {
                if assignment_lands(w, h, e) && assignment_index(w, e) == k {
                    assert(cells[cells.len() - 1] == e);
                }
            }
        } else if !(assignment_lands(w, h, e) && assignment_index(w, e) == k) {
            let i = choose|i: int|
                0 <= i < cells.len() && assignment_lands(w, h, #[trigger] cells[i])
                    && assignment_index(w, cells[i]) == k;
            assert(i < cells.len() - 1);
            assert(init[i] == cells[i]);
        }
    }
}

/// Applying a list of assignments a second time changes nothing: every cell
/// ends with the material of the last assignment that lands on it.
pub proof fn lemma_assign_all_idempotent(
    m: Seq<MaterialId>,
    w: nat,
    h: nat,
    cells: Seq<(usize, usize, u32)>,
)
    requires
        m.len() == w * h,
    ensures
        assign_all(assign_all(m, w, h, cells), w, h, cells) == assign_all(m, w, h, cells),
{
    let once = assign_all(m, w, h, cells);
    lemma_assign_all_len(m, w, h, cells);
    lemma_assign_all_len(once, w, h, cells);
    let twice = assign_all(once, w, h, cells);
    assert forall|k: int| 0 <= k < w * h implies twice[k] == once[k] by {
        lemma_assign_all_at(once, m, w, h, cells, k);
    }
    assert(twice =~= once);
}

/// The material of every cell of a lattice, in row-major order.
pub struct MaterialMap {
    width: usize,
    height: usize,
    cells: Vec<MaterialId>,
}

impl View for MaterialMap {
    type V = Seq<MaterialId>;

    closed spec fn view(&self) -> Seq<MaterialId> {
        self.cells@
    }
}

impl MaterialMap {
    pub closed spec fn spec_width(&self) -> nat {
        self.width as nat
    }

    pub closed spec fn spec_height(&self) -> nat {
        self.height as nat
    }

    pub closed spec fn wf(&self) -> bool {
        &&& self.width * self.height <= usize::MAX
        &&& self.cells@.len() == self.width * self.height
    }

    /// A well-formed map holds one material per cell.
    pub proof fn lemma_len(&self)
        requires
            self.wf(),
        ensures
            self@.len() == self.spec_width() * self.spec_height(),
    {
    }

    /// A lattice of vacuum.
    pub fn new(width: usize, height: usize) -> (r: MaterialMap)
        requires
            width * height <= usize::MAX,
        ensures
            r.wf(),
            r.spec_width() == width,
            r.spec_height() == height,
            r@ == vacuum_map((width * height) as nat),
    {
        let n = width * height;
        let mut cells: Vec<MaterialId> = Vec::new();
        let mut k: usize = 0;
        while k < n
            invariant
                k <= n,
                cells@ == Seq::new(k as nat, |k: int| MaterialId::Vacuum),
            decreases n - k,
        {
            cells.push(MaterialId::Vacuum);
            k = k + 1;
            assert(cells@ =~= Seq::new(k as nat, |k: int| MaterialId::Vacuum));
        }
        MaterialMap { width, height, cells }
    }

    pub fn get_width(&self) -> (r: usize)
        ensures
            r == self.spec_width(),
    {
        self.width
    }

    pub fn get_height(&self) -> (r: usize)
        ensures
            r == self.spec_height(),
    {
        self.height
    }

    /// The material at flat index `k`.
    pub fn at_index(&self, k: usize) -> (r: MaterialId)
        requires
            self.wf(),
            k < self@.len(),
        ensures
            r == self@[k as int],
    {
        self.cells[k]
    }

    /// The material of cell `(x, y)`, or `None` outside the lattice.
    pub fn get(&self, x: usize, y: usize) -> (r: Option<MaterialId>)
        requires
            self.wf(),
        ensures
            x < self.spec_width() && y < self.spec_height() ==> r == Some(
                self@[flat_index(self.spec_width(), x as nat, y as nat) as int],
            ),
            !(x < self.spec_width() && y < self.spec_height()) ==> r is None,
    {
        if x < self.width && y < self.height {
            proof {
                lemma_index_in_range(self.width as nat, self.height as nat, x as nat, y as nat);
            }
            Some(self.cells[y * self.width + x])
        } else {
            None
        }
    }

    /// Paints one cell with the material of `id`; a cell outside is ignored.
    pub fn set_cell(&mut self, x: usize, y: usize, id: u32)
        requires
            old(self).wf(),
        ensures
            final(self).wf(),
            final(self).spec_width() == old(self).spec_width(),
            final(self).spec_height() == old(self).spec_height(),
            final(self)@ == assign(
                old(self)@,
                old(self).spec_width(),
                old(self).spec_height(),
                (x, y, id),
            ),
    {
        if x < self.width && y < self.height {
            proof {
                lemma_index_in_range(self.width as nat, self.height as nat, x as nat, y as nat);
            }
            let k = y * self.width + x;
            self.cells.set(k, MaterialId::from_id(id));
        }
    }

    /// Applies a list of assignments in order; a later assignment to a cell
    /// overrides an earlier one.
    pub fn apply_cells(&mut self, cells: &Vec<(usize, usize, u32)>)
        requires
            old(self).wf(),
        ensures
            final(self).wf(),
            final(self).spec_width() == old(self).spec_width(),
            final(self).spec_height() == old(self).spec_height(),
            final(self)@ == assign_all(
                old(self)@,
                old(self).spec_width(),
                old(self).spec_height(),
                cells@,
            ),
    {
        let ghost start = self@;
        let ghost (w, h) = (self.spec_width(), self.spec_height());
        let mut i: usize = 0;
        while i < cells.len()
            invariant
                self.wf(),
                self.spec_width() == w,
                self.spec_height() == h,
                i <= cells@.len(),
                self@ == assign_all(start, w, h, cells@.take(i as int)),
            decreases cells@.len() - i,
        {
            let (x, y, id) = cells[i];
            proof {
                assert(cells@.take(i + 1).drop_last() =~= cells@.take(i as int));
            }
            self.set_cell(x, y, id);
            i = i + 1;
        }
        proof {
            assert(cells@.take(i as int) =~= cells@);
        }
    }

    /// Paints every cell vacuum.
    pub fn clear(&mut self)
        requires
            old(self).wf(),
        ensures
            final(self).wf(),
            final(self).spec_width() == old(self).spec_width(),
            final(self).spec_height() == old(self).spec_height(),
            final(self)@ == vacuum_map(old(self)@.len()),
    {
        let n = self.cells.len();
        let mut k: usize = 0;
        while k < n
            invariant
                self.wf(),
                self.width == old(self).width,
                self.height == old(self).height,
                n == self@.len(),
                k <= n,
                forall|j: int| 0 <= j < k ==> self@[j] == MaterialId::Vacuum,
            decreases n - k,
        {
            self.cells.set(k, MaterialId::Vacuum);
            k = k + 1;
        }
        assert(self@ =~= vacuum_map(old(self)@.len()));
    }
}

/// A map of `n` vacuum cells.
pub open spec fn vacuum_map(n: nat) -> Seq<MaterialId> {
    Seq::new(n, |k: int| MaterialId::Vacuum)
}

/// Clearing a map leaves vacuum in every cell, and clearing it again changes
/// nothing.
pub proof fn lemma_clear_idempotent(m: Seq<MaterialId>)
    ensures
        vacuum_map(vacuum_map(m.len()).len()) == vacuum_map(m.len()),
        forall|k: int| 0 <= k < m.len() ==> #[trigger] vacuum_map(m.len())[k] == MaterialId::Vacuum,
{
    assert(vacuum_map(vacuum_map(m.len()).len()) =~= vacuum_map(m.len()));
}

/// Of two assignments to the same cell, the later one decides the cell's
/// material, and every other cell is as the later one alone leaves it.
pub proof fn lemma_last_write_wins(
    m: Seq<MaterialId>,
    w: nat,
    h: nat,
    first: (usize, usize, u32),
    second: (usize, usize, u32),
)
    requires
        m.len() == w * h,
        first.0 == second.0,
        first.1 == second.1,
    ensures
        assign(assign(m, w, h, first), w, h, second) == assign(m, w, h, second),
{
    if assignment_lands(w, h, first) {
        lemma_index_in_range(w, h, first.0 as nat, first.1 as nat);
        assert(assign(assign(m, w, h, first), w, h, second) =~= assign(m, w, h, second));
    }
}

/// Applying the same assignment list twice leaves the same map as applying
/// it once.
pub proof fn lemma_apply_cells_idempotent(map: MaterialMap, cells: Seq<(usize, usize, u32)>)
    requires
        map.wf(),
    ensures
        assign_all(
            assign_all(map@, map.spec_width(), map.spec_height(), cells),
            map.spec_width(),
            map.spec_height(),
            cells,
        ) == assign_all(map@, map.spec_width(), map.spec_height(), cells),
{
    lemma_assign_all_idempotent(map@, map.spec_width(), map.spec_height(), cells);
}

} // verus!
