use vstd::prelude::*;

use crate::math::{div_floor, isqrt, is_isqrt, lemma_div_unit_within, Angle, UNIT};

verus! {

/// Largest magnitude of a coordinate in the world that the library works on.
pub const MAX_COORD: i64 = 1_099_511_627_776;

/// The 2D cross product `a.x * b.y - b.x * a.y`, on plain integers.
pub open spec fn perp_dot(ax: int, ay: int, bx: int, by: int) -> int {
    ax * by - bx * ay
}

/// The integer square root of a nonnegative `n`.
pub open spec fn root(n: int) -> int {
    choose|r: int| is_isqrt(r, n)
}

pub proof fn lemma_isqrt_unique(a: int, b: int, n: int)
    requires
        is_isqrt(a, n),
        is_isqrt(b, n),
    ensures
        a == b,
{
    if a < b {
        assert((a + 1) * (a + 1) <= b * b) by (nonlinear_arith)
            requires 0 <= a, a + 1 <= b;
    } else if b < a {
        assert((b + 1) * (b + 1) <= a * a) by (nonlinear_arith)
            requires 0 <= b, b + 1 <= a;
    }
}

/// The integer square root, computed; it is the one `root` names.
pub fn sqrt_floor(n: u128) -> (r: u64)
    ensures
        r == root(n as int),
        is_isqrt(r as int, n as int),
{
    let r = isqrt(n);
    proof {
        let c = root(n as int);
        assert(is_isqrt(c, n as int));
        lemma_isqrt_unique(r as int, c, n as int);
    }
    r
}

/// A 2D vector in world units (one unit is a millimetre).
#[derive(Clone, Copy, Debug, PartialEq, Eq, Structural)]
pub struct Vector {
    pub x: i64,
    pub y: i64,
}

impl Vector {
    /// Both coordinates lie within the world's range.
    pub open spec fn bounded(self) -> bool {
        -MAX_COORD <= self.x <= MAX_COORD && -MAX_COORD <= self.y <= MAX_COORD
    }

    /// Neither coordinate is `i64::MIN`, so that products of two fit in `i128`.
    pub open spec fn finite(self) -> bool {
        self.x > i64::MIN && self.y > i64::MIN
    }

    pub open spec fn len_sq(self) -> int {
        self.x * self.x + self.y * self.y
    }

    /// Rotation counter-clockwise by `a`, rounded down to whole units.
    pub open spec fn rotated(self, a: Angle) -> Vector {
        Vector {
            x: ((a.cos * self.x - a.sin * self.y) / (UNIT as int)) as i64,
            y: ((a.sin * self.x + a.cos * self.y) / (UNIT as int)) as i64,
        }
    }

    /// The direction of `a` in fixed point: zero faces along `(0, UNIT)`.
    pub open spec fn direction_of(a: Angle) -> Vector {
        Vector { x: -a.sin as i64, y: a.cos }
    }

    pub fn new(x: i64, y: i64) -> (r: Vector)
        ensures
            r.x == x,
            r.y == y,
    {
        Vector { x, y }
    }

    /// The unit vector of `angle`, in the fixed point of `Angle`.
    pub fn from_angle(angle: Angle) -> (r: Vector)
        requires
            angle.wf(),
        ensures
            r == Vector::direction_of(angle),
    {
        Vector { x: -angle.sin, y: angle.cos }
    }

    pub fn add(self, o: Vector) -> (r: Vector)
        requires
            i64::MIN <= self.x + o.x <= i64::MAX,
            i64::MIN <= self.y + o.y <= i64::MAX,
        ensures
            r.x == self.x + o.x,
            r.y == self.y + o.y,
    {
        Vector { x: self.x + o.x, y: self.y + o.y }
    }

    pub fn sub(self, o: Vector) -> (r: Vector)
        requires
            i64::MIN <= self.x - o.x <= i64::MAX,
            i64::MIN <= self.y - o.y <= i64::MAX,
        ensures
            r.x == self.x - o.x,
            r.y == self.y - o.y,
    {
        Vector { x: self.x - o.x, y: self.y - o.y }
    }

    pub fn mul(self, s: i64) -> (r: Vector)
        requires
            i64::MIN <= self.x * s <= i64::MAX,
            i64::MIN <= self.y * s <= i64::MAX,
        ensures
            r.x == self.x * s,
            r.y == self.y * s,
    {
        Vector { x: self.x * s, y: self.y * s }
    }

    pub fn dot(&self, q: Vector) -> (r: i128)
        requires
            self.finite(),
            q.finite(),
        ensures
            r == self.x * q.x + self.y * q.y,
    {
        let (a, b, c, d) = (self.x as i128, q.x as i128, self.y as i128, q.y as i128);
        proof {
            lemma_product_bound(a as int, b as int);
            lemma_product_bound(c as int, d as int);
        }
        a * b + c * d
    }

    pub fn cross(&self, q: Vector) -> (r: i128)
        requires
            self.finite(),
            q.finite(),
        ensures
            r == perp_dot(self.x as int, self.y as int, q.x as int, q.y as int),
    {
        let (a, b, c, d) = (self.x as i128, q.y as i128, q.x as i128, self.y as i128);
        proof {
            lemma_product_bound(a as int, b as int);
            lemma_product_bound(c as int, d as int);
        }
        a * b - c * d
    }

    /// Euclidean norm, rounded down.
    pub fn length(&self) -> (r: u64)
        requires
            self.finite(),
        ensures
            r == root(self.len_sq()),
            is_isqrt(r as int, self.len_sq()),
    {
        let (x, y) = (self.x as i128, self.y as i128);
        proof {
            lemma_product_bound(x as int, x as int);
            lemma_product_bound(y as int, y as int);
            assert(x * x >= 0 && y * y >= 0) by (nonlinear_arith);
        }
        let n = (x * x + y * y) as u128;
        sqrt_floor(n)
    }

    /// The angle of this vector: its cosine is `y / length` and its sine
    /// `-x / length`, in fixed point and rounded down, so that
    /// `from_angle` of it points the same way. The zero vector has angle
    /// zero.
    pub open spec fn spec_angle(self) -> Angle {
        let len = root(self.len_sq());
        if len == 0 {
            Angle { cos: UNIT, sin: 0 }
        } else {
            Angle {
                cos: (self.y * UNIT / len) as i64,
                sin: (-self.x * UNIT / len) as i64,
            }
        }
    }

    pub fn angle(&self) -> (r: Angle)
        requires
            self.bounded(),
        ensures
            r == self.spec_angle(),
            r.wf(),
    {
        let len = self.length();
        if len == 0 {
            return Angle::zero();
        }
        proof {
            let (x, y) = (self.x as int, self.y as int);
            assert(x * x >= 0 && y * y >= 0) by (nonlinear_arith);
            lemma_coord_within_length(self.x as int, self.len_sq(), len as int);
            lemma_coord_within_length(self.y as int, self.len_sq(), len as int);
        }
        let l = len as i128;
        let cos = div_floor(self.y as i128 * UNIT as i128, l);
        let sin = div_floor(-(self.x as i128) * UNIT as i128, l);
        proof {
            lemma_share_of_length(self.y as int, len as int);
            lemma_share_of_length(-self.x as int, len as int);
        }
        Angle { cos: cos as i64, sin: sin as i64 }
    }

    /// Counter-clockwise rotation by `angle`, rounded down to whole units.
    pub fn rotate(&self, angle: Angle) -> (r: Vector)
        requires
            self.bounded(),
            angle.wf(),
        ensures
            r == self.rotated(angle),
            -2 * MAX_COORD <= r.x <= 2 * MAX_COORD,
            -2 * MAX_COORD <= r.y <= 2 * MAX_COORD,
    {
        let (c, s) = (angle.cos as i128, angle.sin as i128);
        let (x, y) = (self.x as i128, self.y as i128);
        proof {
            lemma_scaled_bound(c as int, x as int);
            lemma_scaled_bound(s as int, y as int);
            lemma_scaled_bound(s as int, x as int);
            lemma_scaled_bound(c as int, y as int);
        }
        let rx = div_floor(c * x - s * y, UNIT as i128);
        let ry = div_floor(s * x + c * y, UNIT as i128);
        proof {
            assert(2 * (UNIT * MAX_COORD) == UNIT * (2 * MAX_COORD));
            lemma_div_unit_within(c * x - s * y, 2 * MAX_COORD);
            lemma_div_unit_within(s * x + c * y, 2 * MAX_COORD);
        }
        Vector { x: rx as i64, y: ry as i64 }
    }
}

/// A coordinate is no longer than the rounded-down length of its vector.
proof fn lemma_coord_within_length(c: int, n: int, len: int)
    requires
        is_isqrt(len, n),
        c * c <= n,
    ensures
        -len <= c <= len,
{
    if c > len {
        assert(c * c >= (len + 1) * (len + 1)) by (nonlinear_arith)
            requires c >= len + 1, len >= 0;
    } else if c < -len {
        assert(c * c >= (len + 1) * (len + 1)) by (nonlinear_arith)
            requires -c >= len + 1, len >= 0;
    }
}

/// For `|c| <= len`, `c * UNIT / len` lies within one `UNIT` of zero.
proof fn lemma_share_of_length(c: int, len: int)
    requires
        0 < len <= 0x1_0000_0000_0000_0000int,
        -len <= c <= len,
    ensures
        -UNIT <= c * UNIT / len <= UNIT,
        -0x1_0000_0000_0000_0000_0000_0000int <= c * UNIT <= 0x1_0000_0000_0000_0000_0000_0000int,
{
    let u = UNIT as int;
    assert(-(len * u) <= c * u <= len * u) by (nonlinear_arith)
        requires -len <= c <= len, u > 0;
    assert(len * u <= 0x1_0000_0000_0000_0000_0000_0000int) by (nonlinear_arith)
        requires 0 < len <= 0x1_0000_0000_0000_0000int, u == 65536;
    vstd::arithmetic::div_mod::lemma_div_is_ordered(-(len * u), c * u, len);
    vstd::arithmetic::div_mod::lemma_div_is_ordered(c * u, len * u, len);
    vstd::arithmetic::div_mod::lemma_div_multiples_vanish(u, len);
    vstd::arithmetic::div_mod::lemma_div_multiples_vanish(-u, len);
    assert(len * u == u * len) by (nonlinear_arith);
    assert(-(len * u) == len * (-u)) by (nonlinear_arith);
}

proof fn lemma_product_bound(a: int, b: int)
    requires
        i64::MIN < a <= i64::MAX,
        i64::MIN < b <= i64::MAX,
    ensures
        -0x3fff_ffff_ffff_ffff_0000_0000_0000_0001int <= a * b
            <= 0x3fff_ffff_ffff_ffff_0000_0000_0000_0001int,
{
    let m: int = i64::MAX as int;
    assert(-(m * m) <= a * b <= m * m) by (nonlinear_arith)
        requires -m <= a <= m, -m <= b <= m, m > 0;
    assert(m * m == 0x3fff_ffff_ffff_ffff_0000_0000_0000_0001int);
}

proof fn lemma_scaled_bound(c: int, x: int)
    requires
        -UNIT <= c <= UNIT,
        -MAX_COORD <= x <= MAX_COORD,
    ensures
        -(UNIT * MAX_COORD) <= c * x <= UNIT * MAX_COORD,
{
    assert(-(UNIT * MAX_COORD) <= c * x <= UNIT * MAX_COORD) by (nonlinear_arith)
        requires -UNIT <= c <= UNIT, -MAX_COORD <= x <= MAX_COORD;
}

} // verus!
