use vstd::prelude::*;

use crate::math::div_floor;
use super::point::Point;
use super::ray::Ray;
use super::target::Target;
use super::vector::{perp_dot, Vector, MAX_COORD};

verus! {

/// A straight wall from `start` to `end`.
#[derive(Clone, Copy, Debug, PartialEq, Eq, Structural)]
pub struct Line {
    pub start: Vector,
    pub end: Vector,
}

/// The parameters of the crossing of a ray (origin `p`, direction `r`) with
/// the line through `q` along `s`, as `(d, u, t)`: the crossing lies at
/// `q + s * u / d` and at `p + r * t / d`. The signs are chosen so that
/// `d >= 0`; `d == 0` when the two are parallel.
pub open spec fn crossing(p: Vector, r: Vector, q: Vector, s: Vector) -> (int, int, int) {
    let d = perp_dot(r.x as int, r.y as int, s.x as int, s.y as int);
    let u = perp_dot(q.x - p.x, q.y - p.y, r.x as int, r.y as int);
    let t = perp_dot(q.x - p.x, q.y - p.y, s.x as int, s.y as int);
    if d < 0 {
        (-d, -u, -t)
    } else {
        (d, u, t)
    }
}

impl Line {
    pub open spec fn bounded(self) -> bool {
        self.start.bounded() && self.end.bounded()
    }

    /// The vector from `start` to `end`.
    pub open spec fn span(self) -> Vector {
        Vector { x: (self.end.x - self.start.x) as i64, y: (self.end.y - self.start.y) as i64 }
    }

    /// Where `ray` meets this segment. A parallel ray never meets it, even
    /// one that runs along it. Otherwise the ray meets it where the crossing
    /// lies strictly ahead of the ray's origin (`t > 0`) and on the segment,
    /// both ends included (`0 <= u <= 1`); the point is rounded down to whole
    /// units.
    pub open spec fn hit(self, ray: Ray) -> Option<Vector> {
        let q = self.start;
        let s = self.span();
        let (d, u, t) = crossing(ray.origin, ray.direction, q, s);
        if d != 0 && t > 0 && 0 <= u <= d {
            Some(Vector { x: (q.x + s.x * u / d) as i64, y: (q.y + s.y * u / d) as i64 })
        } else {
            None
        }
    }

    pub fn new(start: Vector, end: Vector) -> (r: Line)
        ensures
            r.start == start,
            r.end == end,
    {
        Line { start, end }
    }
}

impl Target for Line {
    open spec fn admits(&self, ray: Ray) -> bool {
        self.bounded() && ray.bounded()
    }

    open spec fn hits(&self, ray: Ray) -> Seq<Point> {
        match self.hit(ray) {
            Some(v) => seq![Point { pos: v }],
            None => Seq::empty(),
        }
    }

    fn intersect(&self, ray: &Ray) -> (r: Vec<Point>) {
        let p = ray.origin;
        let r = ray.direction;
        let q = self.start;
        let s = self.end.sub(self.start);
        let qp = q.sub(p);
        let d0 = r.cross(s);
        let u0 = qp.cross(r);
        let t0 = qp.cross(s);
        proof {
            lemma_cross_bound(r, s);
            lemma_cross_bound(qp, r);
            lemma_cross_bound(qp, s);
        }
        let (d, u, t) = if d0 < 0 {
            (-d0, -u0, -t0)
        } else {
            (d0, u0, t0)
        };
        if d != 0 && t > 0 && 0 <= u && u <= d {
            proof {
                lemma_share_bound(s.x as int, u as int, d as int);
                lemma_share_bound(s.y as int, u as int, d as int);
            }
            let hx = q.x as i128 + div_floor(s.x as i128 * u, d);
            let hy = q.y as i128 + div_floor(s.y as i128 * u, d);
            let hit = Point::from_vector(Vector::new(hx as i64, hy as i64));
            let mut v: Vec<Point> = Vec::new();
            v.push(hit);
            v
        } else {
            Vec::new()
        }
    }
}

/// The coordinates of a hit lie within three times the world's range.
pub proof fn lemma_hit_bound(line: Line, ray: Ray)
    requires
        line.bounded(),
        ray.bounded(),
    ensures
        line.hit(ray) is Some ==> {
            let h = line.hit(ray)->Some_0;
            -3 * MAX_COORD <= h.x <= 3 * MAX_COORD && -3 * MAX_COORD <= h.y <= 3 * MAX_COORD
        },
{
    let q = line.start;
    let s = line.span();
    let (d, u, t) = crossing(ray.origin, ray.direction, q, s);
    if d != 0 && t > 0 && 0 <= u <= d {
        lemma_cross_bound(ray.direction, s);
        lemma_share_bound(s.x as int, u, d);
        lemma_share_bound(s.y as int, u, d);
    }
}

/// A ray parallel to a segment never meets it, even where the two overlap.
pub proof fn lemma_parallel_miss(line: Line, ray: Ray)
    requires
        line.bounded(),
        perp_dot(
            ray.direction.x as int,
            ray.direction.y as int,
            line.end.x - line.start.x,
            line.end.y - line.start.y,
        ) == 0,
    ensures
        line.hit(ray) is None,
        line.hits(ray) =~= Seq::<Point>::empty(),
{
}

/// A cross product of two vectors that are differences of points of the
/// world fits in 84 bits.
proof fn lemma_cross_bound(a: Vector, b: Vector)
    requires
        -2 * MAX_COORD <= a.x <= 2 * MAX_COORD,
        -2 * MAX_COORD <= a.y <= 2 * MAX_COORD,
        -2 * MAX_COORD <= b.x <= 2 * MAX_COORD,
        -2 * MAX_COORD <= b.y <= 2 * MAX_COORD,
    ensures
        -0x8_0000_0000_0000_0000_0000int <= perp_dot(a.x as int, a.y as int, b.x as int, b.y as int)
            <= 0x8_0000_0000_0000_0000_0000int,
{
    let m: int = 2 * MAX_COORD;
    let (ax, ay, bx, by) = (a.x as int, a.y as int, b.x as int, b.y as int);
    assert(-(m * m) <= ax * by <= m * m) by (nonlinear_arith)
        requires -m <= ax <= m, -m <= by <= m;
    assert(-(m * m) <= bx * ay <= m * m) by (nonlinear_arith)
        requires -m <= bx <= m, -m <= ay <= m;
    assert(m * m == 0x4_0000_0000_0000_0000_0000int) by (nonlinear_arith)
        requires m == 2_199_023_255_552int;
}

/// For `0 <= u <= d`, the share `s * u / d` of `s` lies between `-|s|` and
/// `|s|`, and `s * u` fits in 126 bits.
proof fn lemma_share_bound(s: int, u: int, d: int)
    requires
        -2 * MAX_COORD <= s <= 2 * MAX_COORD,
        0 <= u <= d,
        0 < d <= 0x8_0000_0000_0000_0000_0000int,
    ensures
        -0x1000_0000_0000_0000_0000_0000_0000_0000int <= s * u
            <= 0x1000_0000_0000_0000_0000_0000_0000_0000int,
        -2 * MAX_COORD <= s * u / d <= 2 * MAX_COORD,
        s >= 0 ==> 0 <= s * u / d <= s,
        s < 0 ==> s <= s * u / d <= 0,
{
    let m: int = 2 * MAX_COORD;
    let k: int = 0x8_0000_0000_0000_0000_0000int;
    assert(-(m * k) <= s * u <= m * k) by (nonlinear_arith)
        requires -m <= s <= m, 0 <= u <= k;
    assert(m * k <= 0x1000_0000_0000_0000_0000_0000_0000_0000int) by (nonlinear_arith)
        requires m == 2_199_023_255_552int, k == 0x8_0000_0000_0000_0000_0000int;
    if s >= 0 {
        assert(0 <= s * u <= d * s) by (nonlinear_arith)
            requires s >= 0, 0 <= u <= d;
        vstd::arithmetic::div_mod::lemma_div_is_ordered(0, s * u, d);
        vstd::arithmetic::div_mod::lemma_div_is_ordered(s * u, d * s, d);
        vstd::arithmetic::div_mod::lemma_div_multiples_vanish(s, d);
    } else {
        assert(d * s <= s * u <= 0) by (nonlinear_arith)
            requires s < 0, 0 <= u <= d;
        vstd::arithmetic::div_mod::lemma_div_is_ordered(s * u, 0, d);
        vstd::arithmetic::div_mod::lemma_div_is_ordered(d * s, s * u, d);
        vstd::arithmetic::div_mod::lemma_div_multiples_vanish(s, d);
    }
}

} // verus!
