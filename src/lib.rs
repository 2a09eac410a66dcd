//! Integer core of a two-dimensional FDTD (TMz) field solver: lattice
//! indexing, material identifiers, brush geometry, absorbing-layer stencils
//! and scenario cell lists, each stated and proved with Verus.

use vstd::prelude::*;

pub mod cpml;
pub mod lattice;
pub mod materials;
pub mod paint;
pub mod probe;
pub mod scenarios;
pub mod sources;

verus! {

/// The library version string.
pub fn get_version() -> (r: String)
    ensures
        r@ == "2.0.0"@,
{
    "2.0.0".to_string()
}

} // verus!
