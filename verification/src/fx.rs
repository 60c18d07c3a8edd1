//! Fixed-point scalars.
//!
//! A scalar is an `i64` whose real value is the integer divided by `SCALE`.
//! `SCALE` is a power of two, so products and quotients rescale exactly over
//! the mathematical integers; the executable operations round toward zero and
//! their contracts state the rounded value exactly.

use vstd::prelude::*;

verus! {

/// One unit of real value, as a fixed-point integer.
pub const SCALE: i64 = 65536;

/// Magnitude bound for scene inputs (centers, radii, camera data).
pub const INPUT_BOUND: i64 = 268435456;

/// Magnitude bound for ray origins and directions; hit points stay within
/// it, so scattered rays do too.
pub const RAY_BOUND: i64 = 536870912;

/// Magnitude bound for every scalar flowing through the geometry
/// (hit points and ray data stay within four times the input bound).
pub const GEOM_BOUND: i64 = 1073741824;

/// Truncating division of `a` by `b` (rounds toward zero, like Rust's `/`),
/// for a positive divisor.
pub open spec fn tdiv(a: int, b: int) -> int
    recommends
        b > 0,
{
    if a >= 0 {
        a / b
    } else {
        -((-a) / b)
    }
}

/// The fixed-point product of `a` and `b`: the mathematical product,
/// rescaled by one factor of `SCALE`, rounded toward zero.
pub open spec fn fx_mul_spec(a: int, b: int) -> int {
    tdiv(a * b, SCALE as int)
}

/// The fixed-point quotient of `a` by `b`, rounded toward zero;
/// the divisor's sign is taken out front.
pub open spec fn fx_div_spec(a: int, b: int) -> int {
    if b >= 0 {
        tdiv(a * (SCALE as int), b)
    } else {
        tdiv(-(a * (SCALE as int)), -b)
    }
}

/// The magnitude of a truncating quotient never exceeds the magnitude
/// bound of its numerator.
pub proof fn lemma_tdiv_bound(a: int, b: int, m: int)
    requires
        b >= 1,
        -m <= a <= m,
        0 <= m,
    ensures
        -m <= tdiv(a, b) <= m,
        -m <= tdiv(a, b) * b <= m,
        b == 1 ==> tdiv(a, b) == a,
{
    assert(-m <= tdiv(a, b) <= m && -m <= tdiv(a, b) * b <= m && (b == 1 ==> tdiv(a, b) == a))
        by (nonlinear_arith)
        requires
            b >= 1,
            -m <= a <= m,
            0 <= m,
    ;
}

/// Division of an `i128` by a positive divisor, rounding toward zero.
pub fn div_trunc(n: i128, d: i128) -> (r: i128)
    requires
        d > 0,
        -0x4000_0000_0000_0000_0000_0000_0000_0000 < n
            < 0x4000_0000_0000_0000_0000_0000_0000_0000,
    ensures
        r == tdiv(n as int, d as int),
{
    if n >= 0 {
        let q: u128 = (n as u128) / (d as u128);
        proof {
            lemma_tdiv_bound(n as int, d as int, n as int);
        }
        q as i128
    } else {
        let q: u128 = ((-n) as u128) / (d as u128);
        proof {
            lemma_tdiv_bound(-n as int, d as int, -n as int);
        }
        -(q as i128)
    }
}

/// Fixed-point multiplication, exact up to truncation toward zero.
pub fn fx_mul(a: i64, b: i64) -> (r: i64)
    requires
        -0x7fff_ffff_ffff_ffff <= fx_mul_spec(a as int, b as int) <= 0x7fff_ffff_ffff_ffff,
    ensures
        r == fx_mul_spec(a as int, b as int),
{
    let p: i128 = (a as i128) * (b as i128);
    let q: i128 = div_trunc(p, SCALE as i128);
    q as i64
}

/// Fixed-point division, exact up to truncation toward zero.
pub fn fx_div(a: i64, b: i64) -> (r: i64)
    requires
        b != 0,
        -0x7fff_ffff_ffff_ffff <= fx_div_spec(a as int, b as int) <= 0x7fff_ffff_ffff_ffff,
    ensures
        r == fx_div_spec(a as int, b as int),
{
    proof {
        assert(-0x8000_0000_0000_0000_0001_0000 <= a as int * SCALE as int
            <= 0x8000_0000_0000_0000_0000_0000) by (nonlinear_arith)
            requires
                -0x8000_0000_0000_0000 <= a as int <= 0x7fff_ffff_ffff_ffff,
                SCALE == 65536,
        ;
    }
    let n: i128 = (a as i128) * (SCALE as i128);
    let q: i128 = if b > 0 {
        div_trunc(n, b as i128)
    } else {
        div_trunc(-n, -(b as i128))
    };
    q as i64
}

/// A value clamped into `[-limit, limit]`, at the specification level.
pub open spec fn clamp_spec(v: int, limit: int) -> int {
    if v > limit {
        limit
    } else if v < -limit {
        -limit
    } else {
        v
    }
}

/// The floor of the square root of a nonnegative integer, at the
/// specification level.
pub open spec fn sqrt_floor(n: int) -> int {
    choose|r: int| 0 <= r && #[trigger] (r * r) <= n && n < (r + 1) * (r + 1)
}

/// Any bracketing value is the floor square root.
pub proof fn lemma_sqrt_floor_is(n: int, r: int)
    requires
        0 <= r,
        r * r <= n,
        n < (r + 1) * (r + 1),
    ensures
        sqrt_floor(n) == r,
{
    assert(exists|c: int| 0 <= c && #[trigger] (c * c) <= n && n < (c + 1) * (c + 1)) by {
        assert(0 <= r && r * r <= n && n < (r + 1) * (r + 1));
    }
    let c = sqrt_floor(n);
    assert(0 <= c && c * c <= n && n < (c + 1) * (c + 1));
    assert(c == r) by (nonlinear_arith)
        requires
            0 <= r,
            r * r <= n,
            n < (r + 1) * (r + 1),
            0 <= c,
            c * c <= n,
            n < (c + 1) * (c + 1),
    ;
}

/// Every nonnegative integer has a floor square root, and `sqrt_floor`
/// denotes it.
pub proof fn lemma_sqrt_floor_props(n: int)
    requires
        n >= 0,
    ensures
        0 <= sqrt_floor(n),
        sqrt_floor(n) * sqrt_floor(n) <= n,
        n < (sqrt_floor(n) + 1) * (sqrt_floor(n) + 1),
    decreases n,
{
    if n == 0 {
        assert(exists|c: int| 0 <= c && #[trigger] (c * c) <= 0 && 0 < (c + 1) * (c + 1)) by {
            assert(0 <= 0 && 0 * 0 <= 0 && 0 < (0 + 1) * (0 + 1));
        }
    } else {
        lemma_sqrt_floor_props(n - 1);
        let r = sqrt_floor(n - 1);
        if n < (r + 1) * (r + 1) {
            assert(exists|c: int| 0 <= c && #[trigger] (c * c) <= n && n < (c + 1) * (c + 1)) by {
                assert(0 <= r && r * r <= n && n < (r + 1) * (r + 1));
            }
        } else {
            assert(n == (r + 1) * (r + 1));
            assert((r + 1) * (r + 1) < (r + 2) * (r + 2)) by (nonlinear_arith)
                requires
                    r >= 0,
            ;
            assert(exists|c: int| 0 <= c && #[trigger] (c * c) <= n && n < (c + 1) * (c + 1)) by {
                assert(0 <= r + 1 && (r + 1) * (r + 1) <= n && n < (r + 2) * (r + 2));
            }
        }
    }
}

/// Integer square root: the floor of the real square root.
pub fn isqrt(n: u128) -> (r: u128)
    requires
        n < 0x4000_0000_0000_0000_0000_0000_0000_0000,
    ensures
        r * r <= n,
        n < (r + 1) * (r + 1),
        r as int == sqrt_floor(n as int),
{
    let mut lo: u128 = 0;
    let mut hi: u128 = 0x8000_0000_0000_0000;
    while lo + 1 < hi
        invariant
            lo < hi,
            hi <= 0x8000_0000_0000_0000,
            lo as int * lo as int <= n as int,
            n < hi as int * hi as int,
        decreases hi - lo,
    {
        let mid: u128 = lo + (hi - lo) / 2;
        assert(lo < mid < hi);
        assert(mid * mid < 0x8000_0000_0000_0000_0000_0000_0000_0000) by (nonlinear_arith)
            requires
                mid < 0x8000_0000_0000_0000,
        ;
        if mid * mid <= n {
            lo = mid;
        } else {
            hi = mid;
        }
    }
    proof {
        lemma_sqrt_floor_is(n as int, lo as int);
    }
    lo
}

} // verus!
