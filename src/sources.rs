//! Placement of excitation sources on the lattice.

use vstd::prelude::*;

verus! {

/// Cell of element `i` of a linear array along y: column `x`, row
/// `y_start + i * spacing`.
pub open spec fn array_position(x: usize, y_start: usize, spacing: usize, i: int) -> (usize, usize) {
    (x, (y_start + i * spacing) as usize)
}

/// The cells of the `count` elements of a linear array along y, starting at
/// `(x, y_start)` and `spacing` rows apart.
pub fn array_positions(x: usize, y_start: usize, count: usize, spacing: usize) -> (r: Vec<
    (usize, usize),
>)
    requires
        count == 0 || y_start + (count - 1) * spacing <= usize::MAX,
    ensures
        r@ == Seq::new(count as nat, |i: int| array_position(x, y_start, spacing, i)),
{
    let mut r: Vec<(usize, usize)> = Vec::new();
    let mut i: usize = 0;
    while i < count
        invariant
            i <= count,
            count == 0 || y_start + (count - 1) * spacing <= usize::MAX,
            r@ == Seq::new(i as nat, |k: int| array_position(x, y_start, spacing, k)),
        decreases count - i,
    {
        proof {
            assert(i * spacing <= (count - 1) * spacing) by (nonlinear_arith)
                requires
                    i <= count - 1,
                    0 <= spacing,
            ;
        }
        r.push((x, y_start + i * spacing));
        i = i + 1;
        assert(r@ =~= Seq::new(i as nat, |k: int| array_position(x, y_start, spacing, k)));
    }
    r
}

} // verus!
