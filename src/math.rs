use vstd::prelude::*;

verus! {

/// Floor of `a / b` for a positive divisor. In specifications `/` on `int`
/// is Euclidean division, which for `b > 0` is the floor.
pub fn div_floor(a: i128, b: i128) -> (r: i128)
    requires
        b > 0,
        a > i128::MIN,
    ensures
        r == a / b,
{
    if a >= 0 {
        a / b
    } else {
        let q = (-a - 1) / b;
        proof {
            let n: int = -a - 1;
            let d: int = b as int;
            let qi: int = q as int;
            vstd::arithmetic::div_mod::lemma_fundamental_div_mod(n, d);
            vstd::arithmetic::div_mod::lemma_mod_bound(n, d);
            assert(a as int == (-qi - 1) * d + (d - 1 - n % d)) by (nonlinear_arith)
                requires
                    n == d * (n / d) + n % d,
                    qi == n / d,
                    a == -n - 1,
            ;
            vstd::arithmetic::div_mod::lemma_fundamental_div_mod_converse(
                a as int,
                d,
                -qi - 1,
                d - 1 - n % d,
            );
        }
        -q - 1
    }
}

/// `r` is the integer square root of `n`: the largest `r` with `r * r <= n`.
pub open spec fn is_isqrt(r: int, n: int) -> bool {
    0 <= r && r * r <= n && n < (r + 1) * (r + 1)
}

/// Integer square root, by bisection.
pub fn isqrt(n: u128) -> (r: u64)
    ensures
        is_isqrt(r as int, n as int),
{
    let mut lo: u128 = 0;
    let mut hi: u128 = 0x1_0000_0000_0000_0000;
    assert(n < hi * hi) by (nonlinear_arith)
        requires hi == 0x1_0000_0000_0000_0000u128;
    while lo + 1 < hi
        invariant
            lo < hi <= 0x1_0000_0000_0000_0000u128,
            lo * lo <= n,
            n < hi * hi,
        decreases hi - lo,
    {
        let mid: u128 = lo + (hi - lo) / 2;
        assert(mid * mid < 0x1_0000_0000_0000_0000_0000_0000_0000_0000int) by (nonlinear_arith)
            requires mid < 0x1_0000_0000_0000_0000u128;
        if mid * mid <= n {
            lo = mid;
        } else {
            hi = mid;
        }
    }
    assert(hi == lo + 1);
    lo as u64
}

/// Scale of the fixed-point cosine and sine that make up an `Angle`.
pub const UNIT: i64 = 65536;

/// An angle, held as its cosine and sine in fixed point: `cos / UNIT` and
/// `sin / UNIT`. Angle zero faces along the forward axis, and angles grow
/// counter-clockwise.
#[derive(Clone, Copy, Debug, PartialEq, Eq, Structural)]
pub struct Angle {
    pub cos: i64,
    pub sin: i64,
}

impl Angle {
    /// Both components lie within one unit.
    pub open spec fn wf(self) -> bool {
        -UNIT <= self.cos <= UNIT && -UNIT <= self.sin <= UNIT
    }

    pub fn new(cos: i64, sin: i64) -> (r: Angle)
        requires
            -UNIT <= cos <= UNIT,
            -UNIT <= sin <= UNIT,
        ensures
            r.cos == cos,
            r.sin == sin,
            r.wf(),
    {
        Angle { cos, sin }
    }

    /// The angle zero: the forward axis itself.
    pub fn zero() -> (r: Angle)
        ensures
            r.cos == UNIT,
            r.sin == 0,
            r.wf(),
    {
        Angle { cos: UNIT, sin: 0 }
    }
}

/// Dividing by `UNIT` a number within `UNIT * b` of zero gives one within `b`.
pub proof fn lemma_div_unit_within(n: int, b: int)
    requires
        0 <= b,
        -(UNIT * b) <= n <= UNIT * b,
    ensures
        -b <= n / (UNIT as int) <= b,
{
    let u = UNIT as int;
    vstd::arithmetic::div_mod::lemma_div_is_ordered(-(u * b), n, u);
    vstd::arithmetic::div_mod::lemma_div_is_ordered(n, u * b, u);
    vstd::arithmetic::div_mod::lemma_div_multiples_vanish(b, u);
    vstd::arithmetic::div_mod::lemma_div_multiples_vanish(-b, u);
    assert(u * (-b) == -(u * b)) by (nonlinear_arith);
}

} // verus!
