use vstd::prelude::*;

use crate::geometry::line::{lemma_hit_bound, Line};
use crate::geometry::point::Point;
use crate::geometry::pose::Pose;
use crate::geometry::ray::Ray;
use crate::geometry::target::Target;
use crate::geometry::vector::{root, sqrt_floor, Vector, MAX_COORD};
use crate::math::{is_isqrt, Angle, UNIT};
use crate::sensor::laserscanner::{Measurement, Scan, MAX_RANGE};

verus! {

/// The ray that the scanner casts, from `pose`, for the column at `angle`.
pub open spec fn ray_for(pose: Pose, angle: Angle) -> Ray {
    Ray { origin: pose.position, direction: pose.spec_direction(angle) }
}

/// Every hit of `ray` on `targets`, in the order of the targets.
pub open spec fn all_hits(targets: Seq<Line>, ray: Ray) -> Seq<Point>
    decreases targets.len(),
{
    if targets.len() == 0 {
        Seq::empty()
    } else {
        all_hits(targets.drop_last(), ray) + targets.last().hits(ray)
    }
}

/// Squared distance from `from` to `p`.
pub open spec fn dist_sq(from: Vector, p: Point) -> int {
    (p.pos.x - from.x) * (p.pos.x - from.x) + (p.pos.y - from.y) * (p.pos.y - from.y)
}

/// The least squared distance from `from` to one of `hits` (not empty).
pub open spec fn nearest_sq(from: Vector, hits: Seq<Point>) -> int
    decreases hits.len(),
{
    if hits.len() <= 1 {
        dist_sq(from, hits[0])
    } else {
        let rest = nearest_sq(from, hits.drop_last());
        let last = dist_sq(from, hits.last());
        if last < rest {
            last
        } else {
            rest
        }
    }
}

/// The reading of the column at `angle`: the distance to the nearest hit of
/// its ray, rounded down, or none where the ray hits nothing.
pub open spec fn reading(pose: Pose, targets: Seq<Line>, angle: Angle) -> Option<Measurement> {
    let hits = all_hits(targets, ray_for(pose, angle));
    if hits.len() == 0 {
        None
    } else {
        Some(Measurement { angle, distance: root(nearest_sq(pose.position, hits)) as u64 })
    }
}

/// The readings of the columns at `angles`, in order, skipping those that
/// hit nothing.
pub open spec fn scan_of(pose: Pose, targets: Seq<Line>, angles: Seq<Angle>) -> Seq<Measurement>
    decreases angles.len(),
{
    if angles.len() == 0 {
        Seq::empty()
    } else {
        let prior = scan_of(pose, targets, angles.drop_last());
        match reading(pose, targets, angles.last()) {
            Some(m) => prior.push(m),
            None => prior,
        }
    }
}

/// A simulated laser scanner that turns through a fixed list of column
/// angles, relative to the robot's heading.
pub struct LaserScanner {
    num_columns: u32,
    column_angles: Vec<Angle>,
}

impl LaserScanner {
    /// The angle of each column, in order.
    pub closed spec fn columns(&self) -> Seq<Angle> {
        self.column_angles@
    }

    pub closed spec fn wf(&self) -> bool {
        &&& self.column_angles@.len() == self.num_columns
        &&& self.num_columns > 0
        &&& forall|i: int| 0 <= i < self.column_angles@.len() ==> (#[trigger] self.column_angles@[i]).wf()
    }

    /// A scanner with one column for each of `column_angles`; none where
    /// there are no columns, too many to count in a `u32`, or an angle out of
    /// range.
    pub fn new(column_angles: Vec<Angle>) -> (r: Option<LaserScanner>)
        ensures
            r is Some <==> 0 < column_angles@.len() <= u32::MAX && forall|i: int|
                0 <= i < column_angles@.len() ==> (#[trigger] column_angles@[i]).wf(),
            r is Some ==> r->Some_0.wf() && r->Some_0.columns() == column_angles@,
    {
        let n = column_angles.len();
        if n == 0 || n > u32::MAX as usize {
            return None;
        }
        for i in 0..n
            invariant
                n == column_angles@.len(),
                forall|j: int| 0 <= j < i ==> (#[trigger] column_angles@[j]).wf(),
        {
            let a = column_angles[i];
            if !(-UNIT <= a.cos && a.cos <= UNIT && -UNIT <= a.sin && a.sin <= UNIT) {
                return None;
            }
        }
        Some(LaserScanner { num_columns: n as u32, column_angles })
    }

    pub fn num_columns(&self) -> (r: u32)
        requires
            self.wf(),
        ensures
            r == self.columns().len(),
    {
        self.num_columns
    }

    /// The angle of column `column`, relative to the heading.
    pub fn column_to_angle(&self, column: u32) -> (r: Angle)
        requires
            self.wf(),
            column < self.columns().len(),
        ensures
            r == self.columns()[column as int],
            r.wf(),
    {
        self.column_angles[column as usize]
    }

    /// One full turn: for each column, the distance to the nearest obstacle
    /// that its ray hits, in column order; columns that hit nothing are left
    /// out.
    pub fn scan(&self, pose: &Pose, targets: &[Line]) -> (r: Scan)
        requires
            self.wf(),
            pose.wf(),
            forall|i: int| 0 <= i < targets@.len() ==> (#[trigger] targets@[i]).bounded(),
        ensures
            r@ == scan_of(*pose, targets@, self.columns()),
            forall|i: int| 0 <= i < r@.len() ==> (#[trigger] r@[i]).wf(),
    {
        let mut scan = Scan::empty();
        let n = self.column_angles.len();
        for col in 0..n
            invariant
                n == self.columns().len(),
                self.wf(),
                pose.wf(),
                forall|i: int| 0 <= i < targets@.len() ==> (#[trigger] targets@[i]).bounded(),
                scan@ == scan_of(*pose, targets@, self.columns().take(col as int)),
                forall|i: int| 0 <= i < scan@.len() ==> (#[trigger] scan@[i]).wf(),
        {
            let angle = self.column_to_angle(col as u32);
            let reading = Self::read_column(pose, targets, angle);
            proof {
                let cols = self.columns().take(col as int + 1);
                assert(cols.drop_last() == self.columns().take(col as int));
                assert(cols.last() == angle);
            }
            match reading {
                Some(m) => scan.add(m),
                None => {},
            }
        }
        proof {
            assert(self.columns().take(n as int) == self.columns());
        }
        scan
    }

    /// The reading of a single column.
    fn read_column(pose: &Pose, targets: &[Line], angle: Angle) -> (r: Option<Measurement>)
        requires
            pose.wf(),
            angle.wf(),
            forall|i: int| 0 <= i < targets@.len() ==> (#[trigger] targets@[i]).bounded(),
        ensures
            r == reading(*pose, targets@, angle),
            r is Some ==> r->Some_0.wf(),
    {
        let ray = Ray::new(pose.position, pose.direction(angle));
        assert(ray == ray_for(*pose, angle));
        let mut best: Option<u128> = None;
        for k in 0..targets.len()
            invariant
                ray == ray_for(*pose, angle),
                ray.bounded(),
                pose.wf(),
                forall|i: int| 0 <= i < targets@.len() ==> (#[trigger] targets@[i]).bounded(),
                best is None <==> all_hits(targets@.take(k as int), ray).len() == 0,
                best is Some ==> best->Some_0 == nearest_sq(pose.position, all_hits(targets@.take(k as int), ray)),
                best is Some ==> best->Some_0 < 0x100_0000_0000_0000_0000_0000int,
        {
            let line = &targets[k];
            let pts = line.intersect(&ray);
            proof {
                let ts = targets@.take(k as int + 1);
                assert(ts.drop_last() == targets@.take(k as int));
                assert(ts.last() == targets@[k as int]);
                lemma_hit_bound(*line, ray);
            }
            if pts.len() > 0 {
                let h = pts[0];
                let dsq = Self::squared_distance(pose.position, h);
                proof {
                    let prior = all_hits(targets@.take(k as int), ray);
                    let now = all_hits(targets@.take(k as int + 1), ray);
                    assert(now == prior.push(h));
                    assert(now.drop_last() == prior);
                }
                best = match best {
                    Some(b) => if dsq < b { Some(dsq) } else { Some(b) },
                    None => Some(dsq),
                };
            }
        }
        assert(targets@.take(targets@.len() as int) == targets@);
        match best {
            Some(b) => {
                let distance = sqrt_floor(b);
                proof {
                    lemma_root_below(distance as int, b as int);
                }
                Some(Measurement::new(angle, distance))
            },
            None => None,
        }
    }

    fn squared_distance(from: Vector, p: Point) -> (r: u128)
        requires
            from.bounded(),
            -3 * MAX_COORD <= p.pos.x <= 3 * MAX_COORD,
            -3 * MAX_COORD <= p.pos.y <= 3 * MAX_COORD,
        ensures
            r == dist_sq(from, p),
            r < 0x100_0000_0000_0000_0000_0000int,
    {
        let dx = p.pos.x as i128 - from.x as i128;
        let dy = p.pos.y as i128 - from.y as i128;
        let m: i128 = 4 * MAX_COORD as i128;
        assert(dx * dx + dy * dy < 0x100_0000_0000_0000_0000_0000int) by (nonlinear_arith)
            requires -m <= dx <= m, -m <= dy <= m, m == 4_398_046_511_104int;
        assert(dx * dx >= 0 && dy * dy >= 0) by (nonlinear_arith);
        (dx * dx + dy * dy) as u128
    }
}

/// The nearest hit is nearest: its squared distance is no more than that of
/// any hit, and it is the squared distance of one of them.
pub proof fn lemma_nearest_is_least(from: Vector, hits: Seq<Point>)
    requires
        hits.len() > 0,
    ensures
        forall|i: int| 0 <= i < hits.len() ==> nearest_sq(from, hits) <= dist_sq(from, #[trigger] hits[i]),
        exists|i: int| 0 <= i < hits.len() && nearest_sq(from, hits) == dist_sq(from, #[trigger] hits[i]),
    decreases hits.len(),
{
    if hits.len() == 1 {
        assert(nearest_sq(from, hits) == dist_sq(from, hits[0]));
    } else {
        let rest = hits.drop_last();
        lemma_nearest_is_least(from, rest);
        assert forall|i: int| 0 <= i < hits.len() implies nearest_sq(from, hits) <= dist_sq(
            from,
            #[trigger] hits[i],
        ) by {
            if i < hits.len() - 1 {
                assert(hits[i] == rest[i]);
            }
        }
        if dist_sq(from, hits.last()) < nearest_sq(from, rest) {
            assert(nearest_sq(from, hits) == dist_sq(from, hits[hits.len() - 1]));
        } else {
            let j = choose|j: int| 0 <= j < rest.len() && nearest_sq(from, rest) == dist_sq(from, #[trigger] rest[j]);
            assert(hits[j] == rest[j]);
        }
    }
}

/// Where the ray of a column meets two walls, the column reads the distance
/// to the nearer of the two hits only.
pub proof fn lemma_closest_hit(pose: Pose, a: Line, b: Line, angle: Angle)
    requires
        pose.wf(),
        angle.wf(),
        a.hit(ray_for(pose, angle)) is Some,
        b.hit(ray_for(pose, angle)) is Some,
    ensures
        ({
            let da = dist_sq(pose.position, Point { pos: a.hit(ray_for(pose, angle))->Some_0 });
            let db = dist_sq(pose.position, Point { pos: b.hit(ray_for(pose, angle))->Some_0 });
            reading(pose, seq![a, b], angle) == Some(
                Measurement { angle, distance: root(if da <= db { da } else { db }) as u64 },
            )
        }),
{
    let ray = ray_for(pose, angle);
    let ts = seq![a, b];
    assert(ts.drop_last() == seq![a]);
    assert(seq![a].drop_last() == Seq::<Line>::empty());
    let ha = Point { pos: a.hit(ray)->Some_0 };
    let hb = Point { pos: b.hit(ray)->Some_0 };
    assert(seq![a].last() == a);
    assert(ts.last() == b);
    assert(all_hits(Seq::<Line>::empty(), ray) == Seq::<Point>::empty());
    assert(a.hits(ray) == seq![ha]);
    assert(b.hits(ray) == seq![hb]);
    assert(all_hits(seq![a], ray) =~= seq![ha]);
    assert(all_hits(ts, ray) =~= seq![ha, hb]);
    assert(seq![ha, hb].drop_last() == seq![ha]);
    assert(seq![ha, hb].last() == hb);
    assert(seq![ha][0] == ha);
    assert(nearest_sq(pose.position, seq![ha]) == dist_sq(pose.position, ha));
}

/// Where every column's ray hits something, the scan holds one reading for
/// each column, in column order, each at the angle of its column.
pub proof fn lemma_full_coverage(pose: Pose, targets: Seq<Line>, angles: Seq<Angle>)
    requires
        forall|i: int| 0 <= i < angles.len() ==> (#[trigger] reading(pose, targets, angles[i])) is Some,
    ensures
        scan_of(pose, targets, angles).len() == angles.len(),
        forall|i: int| 0 <= i < angles.len() ==> (#[trigger] scan_of(pose, targets, angles)[i]).angle == angles[i],
    decreases angles.len(),
{
    if angles.len() > 0 {
        let prefix = angles.drop_last();
        assert forall|i: int| 0 <= i < prefix.len() implies (#[trigger] reading(pose, targets, prefix[i])) is Some by {
            assert(prefix[i] == angles[i]);
        }
        lemma_full_coverage(pose, targets, prefix);
        assert(reading(pose, targets, angles[angles.len() - 1]) is Some);
        assert forall|i: int| 0 <= i < angles.len() implies (#[trigger] scan_of(pose, targets, angles)[i]).angle == angles[i] by {
            if i < angles.len() - 1 {
                assert(prefix[i] == angles[i]);
            }
        }
    }
}

/// A square root of a number below `2^88` stays within the scanner's range.
proof fn lemma_root_below(r: int, n: int)
    requires
        is_isqrt(r, n),
        n < 0x100_0000_0000_0000_0000_0000int,
    ensures
        r <= MAX_RANGE,
{
    if r > MAX_RANGE {
        assert(r * r >= (MAX_RANGE + 1) * (MAX_RANGE + 1)) by (nonlinear_arith)
            requires r >= MAX_RANGE + 1;
        assert((MAX_RANGE + 1) * (MAX_RANGE + 1) >= 0x100_0000_0000_0000_0000_0000int) by (nonlinear_arith);
    }
}

} // verus!
