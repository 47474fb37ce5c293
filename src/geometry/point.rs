use vstd::prelude::*;

use super::vector::{root, Vector};

verus! {

/// A point of the world, such as where a ray met an obstacle.
#[derive(Clone, Copy, Debug, PartialEq, Eq, Structural)]
pub struct Point {
    pub pos: Vector,
}

impl Point {
    pub fn new(x: i64, y: i64) -> (r: Point)
        ensures
            r.pos.x == x,
            r.pos.y == y,
    {
        Point { pos: Vector::new(x, y) }
    }

    pub fn from_vector(pos: Vector) -> (r: Point)
        ensures
            r.pos == pos,
    {
        Point { pos }
    }

    /// Distance from the world's origin, rounded down.
    pub fn distance(&self) -> (r: u64)
        requires
            self.pos.finite(),
        ensures
            r == root(self.pos.len_sq()),
    {
        self.pos.length()
    }
}

} // verus!
