use vstd::prelude::*;

use crate::geometry::point::Point;

verus! {

/// An ordered set of world points.
pub struct PointCloud {
    points: Vec<Point>,
}

impl View for PointCloud {
    type V = Seq<Point>;

    closed spec fn view(&self) -> Seq<Point> {
        self.points@
    }
}

impl PointCloud {
    pub fn new(points: Vec<Point>) -> (r: PointCloud)
        ensures
            r@ == points@,
    {
        PointCloud { points }
    }

    pub fn empty() -> (r: PointCloud)
        ensures
            r@ == Seq::<Point>::empty(),
    {
        PointCloud { points: Vec::new() }
    }

    pub fn size(&self) -> (r: usize)
        ensures
            r == self@.len(),
    {
        self.points.len()
    }

    pub fn add(&mut self, p: Point)
        ensures
            final(self)@ == old(self)@.push(p),
    {
        self.points.push(p);
    }

    /// The points, in order.
    pub fn iter(&self) -> (r: std::slice::Iter<'_, Point>)
        ensures
            vstd::std_specs::iter::IteratorSpec::remaining(&r) == self@.as_ref(),
    {
        proof {
            broadcast use vstd::std_specs::slice::group_slice_axioms;
        }
        self.points.as_slice().iter()
    }

    /// The point at `i`, in order.
    pub fn get(&self, i: usize) -> (r: Point)
        requires
            i < self@.len(),
        ensures
            r == self@[i as int],
    {
        self.points[i]
    }
}

/// A fixed cloud of three points, for trying out what consumes clouds.
pub fn raycast() -> (r: PointCloud)
    ensures
        r@ == seq![
            Point { pos: crate::geometry::vector::Vector { x: 0, y: 0 } },
            Point { pos: crate::geometry::vector::Vector { x: 3, y: 4 } },
            Point { pos: crate::geometry::vector::Vector { x: 4, y: 5 } },
        ],
{
    let mut cloud = PointCloud::empty();
    cloud.add(Point::new(0, 0));
    cloud.add(Point::new(3, 4));
    cloud.add(Point::new(4, 5));
    cloud
}

} // verus!
