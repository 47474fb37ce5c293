use vstd::prelude::*;

use crate::geometry::point::Point;
use crate::geometry::pose::Pose;
use crate::geometry::vector::Vector;
use crate::math::{div_floor, lemma_div_unit_within, Angle, UNIT};
use crate::pointcloud::PointCloud;

verus! {

/// Largest distance that a measurement can report.
pub const MAX_RANGE: u64 = 17_592_186_044_416;

/// One reading of the laser scanner: the angle of its column, relative to
/// the heading, and the distance to what it hit.
#[derive(Clone, Copy, Debug, PartialEq, Eq, Structural)]
pub struct Measurement {
    pub angle: Angle,
    pub distance: u64,
}

impl Measurement {
    pub open spec fn wf(self) -> bool {
        self.angle.wf() && self.distance <= MAX_RANGE
    }

    /// The world point that this reading stands for, seen from `pose`: the
    /// position moved by `distance` along the reading's direction, rounded
    /// down to whole units.
    pub open spec fn projected(self, pose: Pose) -> Vector {
        let dir = pose.spec_direction(self.angle);
        Vector {
            x: (pose.position.x + dir.x * self.distance / (UNIT as int)) as i64,
            y: (pose.position.y + dir.y * self.distance / (UNIT as int)) as i64,
        }
    }

    pub fn new(angle: Angle, distance: u64) -> (r: Measurement)
        ensures
            r.angle == angle,
            r.distance == distance,
    {
        Measurement { angle, distance }
    }

    pub fn to_vector(&self, pose: &Pose) -> (r: Vector)
        requires
            self.wf(),
            pose.wf(),
        ensures
            r == self.projected(*pose),
    {
        let dir = pose.direction(self.angle);
        let d = self.distance as i128;
        proof {
            lemma_reach_bound(dir.x as int, d as int);
            lemma_reach_bound(dir.y as int, d as int);
        }
        let x = pose.position.x as i128 + div_floor(dir.x as i128 * d, UNIT as i128);
        let y = pose.position.y as i128 + div_floor(dir.y as i128 * d, UNIT as i128);
        Vector::new(x as i64, y as i64)
    }
}

/// A reading at angle zero and distance `d`, taken at the world's origin
/// facing the forward axis, projects to the point `d` along that axis.
pub proof fn lemma_round_trip(d: u64)
    requires
        d <= MAX_RANGE,
    ensures
        (Measurement { angle: Angle { cos: UNIT, sin: 0 }, distance: d }).projected(Pose::default_spec())
            == (Vector { x: 0, y: d as i64 }),
{
    let u = UNIT as int;
    let dir = Pose::default_spec().spec_direction(Angle { cos: UNIT, sin: 0 });
    assert(Vector::direction_of(Angle { cos: UNIT, sin: 0 }) == Vector { x: 0, y: UNIT });
    vstd::arithmetic::div_mod::lemma_div_multiples_vanish(u, u);
    vstd::arithmetic::div_mod::lemma_div_multiples_vanish(d as int, u);
    assert(0int / u == 0);
    assert((u * 0 - 0 * u) / u == 0);
    assert((0 * 0 + u * u) / u == u);
    assert(dir == Vector { x: 0, y: UNIT });
    assert((0 * (d as int)) / u == 0);
    assert((UNIT * d) / u == d);
}

proof fn lemma_reach_bound(c: int, d: int)
    requires
        -2 * UNIT <= c <= 2 * UNIT,
        0 <= d <= MAX_RANGE,
    ensures
        -(UNIT * (2 * MAX_RANGE)) <= c * d <= UNIT * (2 * MAX_RANGE),
        -2 * MAX_RANGE <= c * d / (UNIT as int) <= 2 * MAX_RANGE,
{
    assert(-(UNIT * (2 * MAX_RANGE)) <= c * d <= UNIT * (2 * MAX_RANGE)) by (nonlinear_arith)
        requires -2 * UNIT <= c <= 2 * UNIT, 0 <= d <= MAX_RANGE;
    lemma_div_unit_within(c * d, 2 * MAX_RANGE);
}

/// The readings of one full turn of the scanner, in column order. A column
/// that hit nothing has no reading.
pub struct Scan {
    measurements: Vec<Measurement>,
}

impl View for Scan {
    type V = Seq<Measurement>;

    closed spec fn view(&self) -> Seq<Measurement> {
        self.measurements@
    }
}

/// The world points of `ms`, seen from `pose`, in order.
pub open spec fn projected_all(ms: Seq<Measurement>, pose: Pose) -> Seq<Point> {
    ms.map_values(|m: Measurement| Point { pos: m.projected(pose) })
}

impl Scan {
    pub fn empty() -> (r: Scan)
        ensures
            r@ == Seq::<Measurement>::empty(),
    {
        Scan { measurements: Vec::new() }
    }

    pub fn add(&mut self, m: Measurement)
        ensures
            final(self)@ == old(self)@.push(m),
    {
        self.measurements.push(m);
    }

    pub fn len(&self) -> (r: usize)
        ensures
            r == self@.len(),
    {
        self.measurements.len()
    }

    /// The readings, in column order.
    pub fn iter(&self) -> (r: std::slice::Iter<'_, Measurement>)
        ensures
            vstd::std_specs::iter::IteratorSpec::remaining(&r) == self@.as_ref(),
    {
        proof {
            broadcast use vstd::std_specs::slice::group_slice_axioms;
        }
        self.measurements.as_slice().iter()
    }

    /// The reading at `i`, in column order.
    pub fn get(&self, i: usize) -> (r: Measurement)
        requires
            i < self@.len(),
        ensures
            r == self@[i as int],
    {
        self.measurements[i]
    }

    /// The world point of each reading, seen from `pose`, in order.
    pub fn to_pointcloud(&self, pose: &Pose) -> (r: PointCloud)
        requires
            pose.wf(),
            forall|i: int| 0 <= i < self@.len() ==> (#[trigger] self@[i]).wf(),
        ensures
            r@ == projected_all(self@, *pose),
    {
        let mut points: Vec<Point> = Vec::new();
        let n = self.measurements.len();
        for i in 0..n
            invariant
                n == self@.len(),
                pose.wf(),
                forall|j: int| 0 <= j < self@.len() ==> (#[trigger] self@[j]).wf(),
                points@ == projected_all(self@.take(i as int), *pose),
        {
            let p = Point::from_vector(self.measurements[i].to_vector(pose));
            assert(self@.take(i as int + 1) == self@.take(i as int).push(self@[i as int]));
            points.push(p);
        }
        assert(self@.take(n as int) == self@);
        PointCloud::new(points)
    }
}

} // verus!
