//! Boundary crossings with their normals.
use vstd::prelude::*;

verus! {

/// A point where the zero set crosses a cell edge, with the unit normal of
/// the zero set there; coordinates are `[x, y]`.
#[derive(Clone, Copy, Debug)]
pub struct HermiteData<F> {
    pub p: [F; 2],
    pub n: [F; 2],
}

} // verus!
