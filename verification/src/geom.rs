//! Geometry primitives: integer 2D vectors and the arithmetic helpers
//! (truncating division, rounding-away division, integer square root)
//! that the physics code builds on.
use vstd::prelude::*;

verus! {

/// A 2D vector in fixed-point table units.
#[derive(Clone, Copy, Debug, PartialEq, Eq, Structural)]
pub struct Vec2i {
    pub x: i64,
    pub y: i64,
}

impl Vec2i {
    pub fn new(x: i64, y: i64) -> (r: Vec2i)
        ensures
            r == (Vec2i { x, y }),
    {
        Vec2i { x, y }
    }

    /// The zero vector.
    pub fn zero() -> (r: Vec2i)
        ensures
            r == (Vec2i { x: 0i64, y: 0i64 }),
    {
        Vec2i { x: 0, y: 0 }
    }

    /// The squared Euclidean norm, as a mathematical integer.
    pub open spec fn norm_sq(self) -> int {
        self.x * self.x + self.y * self.y
    }
}

/// Quotient of `a / d` truncated toward zero (the semantics of Rust's
/// `/` on signed integers), defined for positive divisors.
pub open spec fn tdiv(a: int, d: int) -> int
    recommends
        d > 0,
{
    if a >= 0 {
        a / d
    } else {
        -((-a) / d)
    }
}

/// Quotient of `a / d` rounded away from zero, defined for positive divisors.
pub open spec fn cdiv_away(a: int, d: int) -> int
    recommends
        d > 0,
{
    if a >= 0 {
        (a + d - 1) / d
    } else {
        -((-a + d - 1) / d)
    }
}

pub proof fn lemma_tdiv_bounds(a: int, d: int)
    requires
        d > 0,
    ensures
        a >= 0 ==> 0 <= tdiv(a, d) <= a,
        a < 0 ==> a <= tdiv(a, d) <= 0,
        tdiv(-a, d) == -tdiv(a, d),
        a >= 0 ==> 0 <= d * tdiv(a, d) <= a,
        a < 0 ==> a <= d * tdiv(a, d) <= 0,
{
    if a >= 0 {
        assert(0 <= a / d <= a && 0 <= d * (a / d) <= a) by (nonlinear_arith)
            requires
                a >= 0,
                d > 0,
        ;
    } else {
        assert(0 <= (-a) / d <= -a && a <= d * (-((-a) / d)) <= 0) by (nonlinear_arith)
            requires
                a < 0,
                d > 0,
        ;
    }
}

/// Truncating signed division for positive divisors.
pub fn tdiv64(a: i64, d: i64) -> (r: i64)
    requires
        d > 0,
    ensures
        r == tdiv(a as int, d as int),
{
    proof {
        lemma_tdiv_bounds(a as int, d as int);
    }
    a.checked_div(d).unwrap()
}

pub proof fn lemma_cdiv_away_bounds(a: int, d: int)
    requires
        d > 0,
    ensures
        a >= 0 ==> 0 <= cdiv_away(a, d),
        a >= 0 ==> d * cdiv_away(a, d) >= a,
        a >= 0 ==> cdiv_away(a, d) <= a,
        a < 0 ==> cdiv_away(a, d) <= 0,
        a < 0 ==> d * cdiv_away(a, d) <= a,
        a < 0 ==> cdiv_away(a, d) >= a,
        cdiv_away(-a, d) == -cdiv_away(a, d),
{
    if a >= 0 {
        assert(0 <= (a + d - 1) / d && d * ((a + d - 1) / d) >= a && (a + d - 1) / d <= a)
            by (nonlinear_arith)
            requires
                a >= 0,
                d > 0,
        ;
    } else {
        assert(0 <= (-a + d - 1) / d && d * (-((-a + d - 1) / d)) <= a && -((-a + d - 1) / d)
            >= a) by (nonlinear_arith)
            requires
                a < 0,
                d > 0,
        ;
    }
}

/// Scaling toward zero by num/den (num <= den) shrinks magnitudes:
/// the scaled value stays between zero and the input, and its square
/// (with either sign) never exceeds the input's square.
pub proof fn lemma_scale_le(a: int, num: int, den: int)
    requires
        0 < num <= den,
    ensures
        a >= 0 ==> 0 <= tdiv(a * num, den) <= a,
        a < 0 ==> a <= tdiv(a * num, den) <= 0,
        tdiv(a * num, den) * tdiv(a * num, den) <= a * a,
        (-tdiv(a * num, den)) * (-tdiv(a * num, den)) <= a * a,
{
    lemma_tdiv_bounds(a * num, den);
    let q = tdiv(a * num, den);
    assert((-q) * (-q) == q * q) by (nonlinear_arith);
    if a >= 0 {
        assert(0 <= a * num <= a * den) by (nonlinear_arith)
            requires
                a >= 0,
                0 < num <= den,
        ;
        assert(q <= a) by (nonlinear_arith)
            requires
                den * q <= a * den,
                den > 0,
        ;
        assert(q * q <= a * a) by (nonlinear_arith)
            requires
                0 <= q <= a,
        ;
    } else {
        assert(a * den <= a * num <= 0) by (nonlinear_arith)
            requires
                a < 0,
                0 < num <= den,
        ;
        assert(a <= q) by (nonlinear_arith)
            requires
                a * den <= den * q,
                den > 0,
        ;
        assert(q * q <= a * a) by (nonlinear_arith)
            requires
                a <= q <= 0,
        ;
    }
}

/// Signed division rounded away from zero, for positive divisors.
pub fn cdiv_away64(a: i64, d: i64) -> (r: i64)
    requires
        d > 0,
        -0x4000_0000_0000_0000 < a < 0x4000_0000_0000_0000,
        d < 0x4000_0000_0000_0000,
    ensures
        r == cdiv_away(a as int, d as int),
{
    proof {
        lemma_cdiv_away_bounds(a as int, d as int);
        lemma_tdiv_bounds(a + d - 1, d as int);
        lemma_tdiv_bounds(a - d + 1, d as int);
    }
    if a >= 0 {
        (a + d - 1).checked_div(d).unwrap()
    } else {
        (a - d + 1).checked_div(d).unwrap()
    }
}

/// The integer square root: the largest `r` with `r * r <= n`.
pub open spec fn sqrt_of(n: nat) -> nat
    decreases n,
{
    if n == 0 {
        0
    } else {
        let s = sqrt_of((n - 1) as nat);
        if (s as int + 1) * (s as int + 1) <= n as int {
            s + 1
        } else {
            s
        }
    }
}

pub proof fn lemma_sqrt_of(n: nat)
    ensures
        (sqrt_of(n) as int) * (sqrt_of(n) as int) <= n as int,
        (n as int) < (sqrt_of(n) as int + 1) * (sqrt_of(n) as int + 1),
        sqrt_of(n) <= n,
    decreases n,
{
    if n > 0 {
        lemma_sqrt_of((n - 1) as nat);
        let s = sqrt_of((n - 1) as nat) as int;
        assert(sqrt_of(n) as int == if (s + 1) * (s + 1) <= n as int {
            s + 1
        } else {
            s
        });
        if (s + 1) * (s + 1) <= n as int {
            assert((s + 1) * (s + 1) < (s + 2) * (s + 2) && s + 1 <= (s + 1) * (s + 1))
                by (nonlinear_arith)
                requires
                    s >= 0,
            ;
            assert(sqrt_of(n) as int == s + 1);
            assert((sqrt_of(n) as int) * (sqrt_of(n) as int) == (s + 1) * (s + 1));
            assert((n as int) < (s + 2) * (s + 2));
        } else {
            assert(sqrt_of(n) as int == s);
            assert((sqrt_of(n) as int) * (sqrt_of(n) as int) == s * s);
        }
    } else {
        assert(sqrt_of(0nat) == 0nat);
    }
}

/// Any `r` in the sandwich `r * r <= n < (r + 1) * (r + 1)` is `sqrt_of(n)`.
pub proof fn lemma_sqrt_unique(n: nat, r: int)
    requires
        0 <= r,
        r * r <= n as int,
        (n as int) < (r + 1) * (r + 1),
    ensures
        r == sqrt_of(n) as int,
{
    lemma_sqrt_of(n);
    let s = sqrt_of(n) as int;
    if r < s {
        assert((r + 1) * (r + 1) <= s * s) by (nonlinear_arith)
            requires
                0 <= r + 1 <= s,
        ;
    }
    if s < r {
        assert((s + 1) * (s + 1) <= r * r) by (nonlinear_arith)
            requires
                0 <= s + 1 <= r,
        ;
    }
}

/// Integer square root by binary search.
pub fn isqrt64(n: i64) -> (r: i64)
    requires
        0 <= n < 0x4000_0000_0000_0000,
    ensures
        0 <= r,
        r * r <= n < (r + 1) * (r + 1),
        r == sqrt_of(n as nat),
{
    let mut lo: i64 = 0;
    let mut hi: i64 = 0x8000_0000;
    proof {
        assert(hi * hi > n);
    }
    while lo + 1 < hi
        invariant
            0 <= lo < hi <= 0x8000_0000,
            n < 0x4000_0000_0000_0000,
            lo * lo <= n,
            n < hi * hi,
        decreases hi - lo,
    {
        let mid = lo + (hi - lo) / 2;
        assert(lo < mid < hi);
        assert(0 <= mid * mid < 0x4000_0000_0000_0000) by (nonlinear_arith)
            requires
                0 < mid < 0x8000_0000,
        ;
        if mid.checked_mul(mid).unwrap() <= n {
            lo = mid;
        } else {
            hi = mid;
        }
    }
    proof {
        lemma_sqrt_unique(n as nat, lo as int);
    }
    lo
}

} // verus!
