use vstd::prelude::*;

use crate::math::{lemma_div_unit_within, Angle, UNIT};
use super::vector::{Vector, MAX_COORD};

verus! {

/// Where the robot stands and which way it faces.
#[derive(Clone, Copy, Debug, PartialEq, Eq, Structural)]
pub struct Pose {
    pub position: Vector,
    pub heading: Angle,
}

impl Pose {
    pub open spec fn wf(self) -> bool {
        self.position.bounded() && self.heading.wf()
    }

    /// The direction, in the world, of `angle` taken relative to the heading:
    /// the direction of `angle` rotated by the heading.
    pub open spec fn spec_direction(self, angle: Angle) -> Vector {
        Vector::direction_of(angle).rotated(self.heading)
    }

    pub fn new(position: Vector, heading: Angle) -> (r: Pose)
        ensures
            r.position == position,
            r.heading == heading,
    {
        Pose { position, heading }
    }

    /// The direction of `angle` relative to the heading, in the fixed point
    /// of `Angle`.
    pub fn direction(&self, angle: Angle) -> (r: Vector)
        requires
            self.heading.wf(),
            angle.wf(),
        ensures
            r == self.spec_direction(angle),
            -2 * UNIT <= r.x <= 2 * UNIT,
            -2 * UNIT <= r.y <= 2 * UNIT,
    {
        let rel = Vector::from_angle(angle);
        let r = rel.rotate(self.heading);
        proof {
            lemma_rotated_bound(rel, self.heading, UNIT as int);
        }
        r
    }

    /// At the world's origin, facing along the forward axis.
    pub open spec fn default_spec() -> Pose {
        Pose { position: Vector { x: 0, y: 0 }, heading: Angle { cos: UNIT, sin: 0 } }
    }

    /// At the world's origin, facing along the forward axis.
    pub fn origin() -> (r: Pose)
        ensures
            r == Pose::default_spec(),
            r.wf(),
    {
        Pose::new(Vector::new(0, 0), Angle::zero())
    }
}

impl Default for Pose {
    fn default() -> (r: Pose)
        ensures
            r == Pose::default_spec(),
    {
        Pose::origin()
    }
}

/// Rotating a vector whose coordinates lie within `b` gives one whose
/// coordinates lie within `2 * b`.
pub proof fn lemma_rotated_bound(v: Vector, a: Angle, b: int)
    requires
        a.wf(),
        0 <= b <= MAX_COORD,
        -b <= v.x <= b,
        -b <= v.y <= b,
    ensures
        -2 * b <= v.rotated(a).x <= 2 * b,
        -2 * b <= v.rotated(a).y <= 2 * b,
{
    let u = UNIT as int;
    let (c, s, x, y) = (a.cos as int, a.sin as int, v.x as int, v.y as int);
    assert(-(u * b) <= c * x <= u * b) by (nonlinear_arith)
        requires -u <= c <= u, -b <= x <= b;
    assert(-(u * b) <= s * y <= u * b) by (nonlinear_arith)
        requires -u <= s <= u, -b <= y <= b;
    assert(-(u * b) <= s * x <= u * b) by (nonlinear_arith)
        requires -u <= s <= u, -b <= x <= b;
    assert(-(u * b) <= c * y <= u * b) by (nonlinear_arith)
        requires -u <= c <= u, -b <= y <= b;
    assert(2 * (u * b) == u * (2 * b)) by (nonlinear_arith);
    lemma_div_unit_within(c * x - s * y, 2 * b);
    lemma_div_unit_within(s * x + c * y, 2 * b);
}

} // verus!
