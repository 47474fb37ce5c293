use vstd::prelude::*;

use crate::math::Angle;
use super::vector::Vector;

verus! {

/// A half-line: it starts at `origin` and runs along `direction`, which
/// need not be of unit length.
#[derive(Clone, Copy, Debug, PartialEq, Eq, Structural)]
pub struct Ray {
    pub origin: Vector,
    pub direction: Vector,
}

impl Ray {
    pub open spec fn bounded(self) -> bool {
        self.origin.bounded() && self.direction.bounded()
    }

    pub fn new(origin: Vector, direction: Vector) -> (r: Ray)
        ensures
            r.origin == origin,
            r.direction == direction,
    {
        Ray { origin, direction }
    }

    /// The ray from `origin` that runs in the direction of `angle`.
    pub fn from_angle(origin: Vector, angle: Angle) -> (r: Ray)
        requires
            angle.wf(),
        ensures
            r.origin == origin,
            r.direction == Vector::direction_of(angle),
    {
        Ray { origin, direction: Vector::from_angle(angle) }
    }
}

} // verus!
