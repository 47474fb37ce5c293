use vstd::prelude::*;

use super::point::Point;
use super::ray::Ray;

verus! {

/// An obstacle shape that a ray can be tested against.
pub trait Target {
    /// The rays that this shape can be tested against without overflow.
    spec fn admits(&self, ray: Ray) -> bool;

    /// Where `ray` meets this shape.
    spec fn hits(&self, ray: Ray) -> Seq<Point>;

    fn intersect(&self, ray: &Ray) -> (r: Vec<Point>)
        requires
            self.admits(*ray),
        ensures
            r@ == self.hits(*ray),
    ;
}

} // verus!
