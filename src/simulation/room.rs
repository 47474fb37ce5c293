use vstd::prelude::*;

use crate::geometry::line::{crossing, Line};
use crate::geometry::pose::Pose;
use crate::geometry::ray::Ray;
use crate::geometry::vector::{Vector, MAX_COORD};
use crate::math::Angle;
use super::laserscanner::{all_hits, lemma_full_coverage, ray_for, reading, scan_of};

verus! {

/// The four walls of the axis-aligned room (a square where its sides are
/// equal) with corners `(x0, y0)` and `(x1, y1)`: bottom, right, top, left.
pub open spec fn square_room(x0: i64, y0: i64, x1: i64, y1: i64) -> Seq<Line> {
    seq![
        Line { start: Vector { x: x0, y: y0 }, end: Vector { x: x1, y: y0 } },
        Line { start: Vector { x: x1, y: y0 }, end: Vector { x: x1, y: y1 } },
        Line { start: Vector { x: x1, y: y1 }, end: Vector { x: x0, y: y1 } },
        Line { start: Vector { x: x0, y: y1 }, end: Vector { x: x0, y: y0 } },
    ]
}

/// `p` lies strictly inside the room with corners `(x0, y0)` and `(x1, y1)`.
pub open spec fn inside(p: Vector, x0: i64, y0: i64, x1: i64, y1: i64) -> bool {
    x0 < p.x < x1 && y0 < p.y < y1
}

pub open spec fn corners_bounded(x0: i64, y0: i64, x1: i64, y1: i64) -> bool {
    &&& -MAX_COORD <= x0 <= MAX_COORD
    &&& -MAX_COORD <= y0 <= MAX_COORD
    &&& -MAX_COORD <= x1 <= MAX_COORD
    &&& -MAX_COORD <= y1 <= MAX_COORD
}

/// Some ray of `targets[i]` hits it, so the targets together have a hit.
proof fn lemma_some_hit(targets: Seq<Line>, ray: Ray, i: int)
    requires
        0 <= i < targets.len(),
        targets[i].hit(ray) is Some,
    ensures
        all_hits(targets, ray).len() > 0,
    decreases targets.len(),
{
    if i < targets.len() - 1 {
        lemma_some_hit(targets.drop_last(), ray, i);
    }
}

/// A ray with a direction, cast from strictly inside such a room, hits
/// one of its walls.
pub proof fn lemma_room_is_closed(ray: Ray, x0: i64, y0: i64, x1: i64, y1: i64)
    requires
        corners_bounded(x0, y0, x1, y1),
        inside(ray.origin, x0, y0, x1, y1),
        ray.direction.x != 0 || ray.direction.y != 0,
    ensures
        all_hits(square_room(x0, y0, x1, y1), ray).len() > 0,
{
    let walls = square_room(x0, y0, x1, y1);
    let p = ray.origin;
    let r = ray.direction;
    let (px, py) = (p.x as int, p.y as int);
    let (rx, ry) = (r.x as int, r.y as int);
    // Distances from the origin to the right, left, bottom and top walls.
    let (a, a2, b0, b1) = (x1 - px, px - x0, py - y0, y1 - py);
    let (xx, yy) = (x1 - x0, y1 - y0);
    if ry > 0 && -a2 * ry <= rx * b1 && rx * b1 <= a * ry {
        let q = walls[2];
        assert(q.span() == Vector { x: (x0 - x1) as i64, y: 0 });
        let (d, u, t) = (rx * 0 - (-xx) * ry, a * ry - rx * b1, a * 0 - (-xx) * b1);
        assert(d == xx * ry && t == xx * b1) by (nonlinear_arith)
            requires d == rx * 0 - (-xx) * ry, t == a * 0 - (-xx) * b1;
        assert(xx * ry > 0 && xx * b1 > 0 && a * ry - rx * b1 <= xx * ry) by (nonlinear_arith)
            requires ry > 0, -a2 * ry <= rx * b1, xx == a + a2, b1 > 0, xx > 0;
        assert(crossing(p, r, q.start, q.span()) == (d, u, t));
        lemma_some_hit(walls, ray, 2);
    } else if ry < 0 && a2 * ry <= rx * b0 && rx * b0 <= -a * ry {
        let q = walls[0];
        assert(q.span() == Vector { x: (x1 - x0) as i64, y: 0 });
        let (d, u, t) = (rx * 0 - xx * ry, (-a2) * ry - rx * (-b0), (-a2) * 0 - xx * (-b0));
        assert(d == -xx * ry && u == rx * b0 - a2 * ry && t == xx * b0) by (nonlinear_arith)
            requires d == rx * 0 - xx * ry, u == (-a2) * ry - rx * (-b0), t == (-a2) * 0 - xx * (-b0);
        assert(-xx * ry > 0 && xx * b0 > 0 && rx * b0 - a2 * ry <= -xx * ry) by (nonlinear_arith)
            requires ry < 0, rx * b0 <= -a * ry, xx == a + a2, b0 > 0, xx > 0;
        assert(crossing(p, r, q.start, q.span()) == (d, u, t));
        lemma_some_hit(walls, ray, 0);
    } else if rx > 0 {
        let q = walls[1];
        assert(q.span() == Vector { x: 0, y: (y1 - y0) as i64 });
        let (d, u, t) = (rx * yy - 0 * ry, a * ry - rx * (-b0), a * yy - 0 * (-b0));
        assert(d == rx * yy && u == a * ry + rx * b0 && t == a * yy) by (nonlinear_arith)
            requires d == rx * yy - 0 * ry, u == a * ry - rx * (-b0), t == a * yy - 0 * (-b0);
        assert(rx * yy > 0 && a * yy > 0 && 0 <= a * ry + rx * b0 <= rx * yy) by (nonlinear_arith)
            requires
                rx > 0, a > 0, a2 > 0, b0 > 0, b1 > 0, yy == b0 + b1,
                !(ry > 0 && -a2 * ry <= rx * b1 && rx * b1 <= a * ry),
                !(ry < 0 && a2 * ry <= rx * b0 && rx * b0 <= -a * ry);
        assert(crossing(p, r, q.start, q.span()) == (d, u, t));
        lemma_some_hit(walls, ray, 1);
    } else {
        let q = walls[3];
        assert(q.span() == Vector { x: 0, y: (y0 - y1) as i64 });
        let (d, u, t) = (rx * (-yy) - 0 * ry, (-a2) * ry - rx * b1, (-a2) * (-yy) - 0 * b1);
        assert(d == -rx * yy && u == -a2 * ry - rx * b1 && t == a2 * yy) by (nonlinear_arith)
            requires d == rx * (-yy) - 0 * ry, u == (-a2) * ry - rx * b1, t == (-a2) * (-yy) - 0 * b1;
        assert(-rx * yy > 0 && a2 * yy > 0 && 0 <= -a2 * ry - rx * b1 <= -rx * yy) by (nonlinear_arith)
            requires
                rx <= 0, rx != 0 || ry != 0, a > 0, a2 > 0, b0 > 0, b1 > 0, yy == b0 + b1,
                !(ry > 0 && -a2 * ry <= rx * b1 && rx * b1 <= a * ry),
                !(ry < 0 && a2 * ry <= rx * b0 && rx * b0 <= -a * ry);
        assert(crossing(p, r, q.start, q.span()) == (d, u, t));
        lemma_some_hit(walls, ray, 3);
    }
}

/// A full scan from strictly inside such a room reads every column whose
/// ray has a direction: one reading per column, in column order, each at the
/// angle of its column.
pub proof fn lemma_room_coverage(
    pose: Pose,
    angles: Seq<Angle>,
    x0: i64,
    y0: i64,
    x1: i64,
    y1: i64,
)
    requires
        corners_bounded(x0, y0, x1, y1),
        inside(pose.position, x0, y0, x1, y1),
        forall|i: int|
            0 <= i < angles.len() ==> (#[trigger] pose.spec_direction(angles[i])) != (Vector { x: 0, y: 0 }),
    ensures
        scan_of(pose, square_room(x0, y0, x1, y1), angles).len() == angles.len(),
        forall|i: int|
            0 <= i < angles.len() ==> (#[trigger] scan_of(pose, square_room(x0, y0, x1, y1), angles)[i]).angle
                == angles[i],
{
    let walls = square_room(x0, y0, x1, y1);
    assert forall|i: int| 0 <= i < angles.len() implies (#[trigger] reading(pose, walls, angles[i])) is Some by {
        let ray = ray_for(pose, angles[i]);
        assert(pose.spec_direction(angles[i]) != (Vector { x: 0, y: 0 }));
        lemma_room_is_closed(ray, x0, y0, x1, y1);
    }
    lemma_full_coverage(pose, walls, angles);
}

} // verus!
