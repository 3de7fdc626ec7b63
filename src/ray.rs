use vstd::prelude::*;

use crate::vec::Vec3;

verus! {

/// A half-line starting at `origin`.
///
/// The direction is kept as the lattice vector it was built from: its unit
/// direction is `direction / |direction|`, and every decision made about the
/// ray depends on `direction` only up to a positive factor.
#[derive(Clone, Copy, Debug)]
pub struct Ray {
    pub origin: Vec3,
    pub direction: Vec3,
}

impl Ray {
    /// A ray is well formed when its direction can be normalised.
    pub open spec fn wf(&self) -> bool {
        !self.direction.is_zero()
    }

    pub fn from(o: Vec3, d: Vec3) -> (r: Ray)
        requires
            !d.is_zero(),
        ensures
            r.origin == o,
            r.direction == d,
            r.wf(),
    {
        Ray { origin: o, direction: d }
    }
}

} // verus!
