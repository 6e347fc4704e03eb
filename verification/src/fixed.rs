//! Fixed-point arithmetic helpers shared by the partition and the engine.
//!
//! A fixed-point value `x: i64` stands for the real number `x / SCALE`.
//! The helpers here are the only places where intermediate products are
//! widened; every caller states its own bounds so that each result fits
//! back into an `i64`.

use vstd::prelude::*;

verus! {

/// One whole unit in fixed-point form: the value `SCALE` stands for `1.0`.
pub const SCALE: i64 = 1_000_000;

/// Largest coordinate magnitude (fixed point) the engine accepts per tick.
pub const MAX_COORD: i64 = 1_000_000_000_000;

/// Largest velocity magnitude (fixed point) the engine accepts per tick.
pub const MAX_VEL: i64 = 1_000_000_000_000;

/// Largest time step (fixed point) the engine accepts per tick.
pub const MAX_DT: i64 = 10_000_000;

/// Largest interaction threshold (fixed point) a configuration may hold.
pub const MAX_THRESHOLD: i64 = 1_000_000_000_000;

/// Largest particle radius (fixed point) a configuration may hold.
pub const MAX_RADIUS: i64 = 1_000_000_000_000;

/// Bound on the corner coordinates of any partition or query region.
pub const REGION_BOUND: i64 = 100_000_000_000_000;

/// Largest particle count the engine steps in one tick.
pub const MAX_PARTICLES: usize = 10_000;

/// Magnitude of an integer.
pub open spec fn abs_i(x: int) -> int {
    if x < 0 {
        -x
    } else {
        x
    }
}

/// `a * b / d`, with the division truncating toward zero as Rust's `/` does.
pub open spec fn mul_div_spec(a: int, b: int, d: int) -> int
    recommends
        d >= 1,
{
    let p = a * b;
    if p >= 0 {
        p / d
    } else {
        -((-p) / d)
    }
}

/// The (unique) integer square root of a non-negative integer.
pub open spec fn sqrt_spec(n: int) -> int {
    choose|r: int| 0 <= r <= n && #[trigger] (r * r) <= n && (r + 1) * (r + 1) > n
}

pub proof fn lemma_sqrt_spec_unique(n: int, r: int)
    requires
        0 <= r,
        r * r <= n,
        (r + 1) * (r + 1) > n,
    ensures
        sqrt_spec(n) == r,
{
    assert(r <= n) by (nonlinear_arith)
        requires
            0 <= r,
            r * r <= n,
        ;
    let w = choose|w: int| 0 <= w <= n && #[trigger] (w * w) <= n && (w + 1) * (w + 1) > n;
    assert(0 <= w <= n && w * w <= n && (w + 1) * (w + 1) > n);
    assert(w == r) by (nonlinear_arith)
        requires
            0 <= r,
            r * r <= n,
            (r + 1) * (r + 1) > n,
            0 <= w,
            w * w <= n,
            (w + 1) * (w + 1) > n,
    ;
}

/// Bounds on the factors bound the product.
pub proof fn lemma_abs_mul_le(a: int, b: int, ba: int, bb: int)
    requires
        abs_i(a) <= ba,
        abs_i(b) <= bb,
    ensures
        abs_i(a * b) <= ba * bb,
{
    assert(abs_i(a * b) <= ba * bb) by (nonlinear_arith)
        requires
            abs_i(a) <= ba,
            abs_i(b) <= bb,
            0 <= ba,
            0 <= bb,
    ;
}

/// A bound on the product bounds the truncating quotient.
pub proof fn lemma_mul_div_le(a: int, b: int, d: int, bound: int)
    requires
        d >= 1,
        0 <= bound,
        abs_i(a * b) <= bound * d,
    ensures
        abs_i(mul_div_spec(a, b, d)) <= bound,
{
    let p = a * b;
    if p >= 0 {
        assert(p / d <= bound) by (nonlinear_arith)
            requires
                d >= 1,
                0 <= p <= bound * d,
        ;
        assert(p / d >= 0) by (nonlinear_arith)
            requires
                d >= 1,
                0 <= p,
        ;
    } else {
        assert((-p) / d <= bound) by (nonlinear_arith)
            requires
                d >= 1,
                0 <= -p <= bound * d,
        ;
        assert((-p) / d >= 0) by (nonlinear_arith)
            requires
                d >= 1,
                0 <= -p,
        ;
    }
}

/// A truncating quotient of a non-negative product is non-negative.
pub proof fn lemma_mul_div_nonneg(a: int, b: int, d: int)
    requires
        d >= 1,
        0 <= a,
        0 <= b,
    ensures
        0 <= mul_div_spec(a, b, d),
{
    assert(0 <= a * b) by (nonlinear_arith)
        requires
            0 <= a,
            0 <= b,
    ;
    assert(a * b / d >= 0) by (nonlinear_arith)
        requires
            d >= 1,
            0 <= a * b,
    ;
}

/// Truncating fixed-point multiply-then-divide: `a * b / d` exactly, with
/// the product taken at full width so it cannot overflow.
pub fn mul_div(a: i64, b: i64, d: i64) -> (r: i64)
    requires
        d >= 1,
        abs_i(mul_div_spec(a as int, b as int, d as int)) <= i64::MAX as int,
    ensures
        r as int == mul_div_spec(a as int, b as int, d as int),
{
    proof {
        assert((a as int) * (b as int) <= 0x4000_0000_0000_0000_0000_0000_0000_0000
            && (a as int) * (b as int) >= -0x4000_0000_0000_0000_0000_0000_0000_0000)
            by (nonlinear_arith)
            requires
                -0x8000_0000_0000_0000 <= a as int <= 0x7fff_ffff_ffff_ffff,
                -0x8000_0000_0000_0000 <= b as int <= 0x7fff_ffff_ffff_ffff,
            ;
    }
    let p: i128 = (a as i128) * (b as i128);
    if p >= 0 {
        let q: u128 = (p as u128) / (d as u128);
        q as i64
    } else {
        let q: u128 = ((-p) as u128) / (d as u128);
        -(q as i64)
    }
}

/// Integer square root: the largest `r` with `r * r <= n`.
pub fn isqrt(n: u128) -> (r: u64)
    ensures
        (r as int) * (r as int) <= n as int,
        (r as int + 1) * (r as int + 1) > n as int,
        r as int == sqrt_spec(n as int),
{
    let mut lo: u128 = 0;
    let mut hi: u128 = if n < 0xffff_ffff_ffff_ffff {
        n
    } else {
        0xffff_ffff_ffff_ffff
    };
    proof {
        if n < 0xffff_ffff_ffff_ffff {
            assert((hi as int + 1) * (hi as int + 1) > n as int) by (nonlinear_arith)
                requires
                    hi as int == n as int,
                    0 <= n as int,
                ;
        } else {
            assert((hi as int + 1) * (hi as int + 1) > n as int) by (nonlinear_arith)
                requires
                    hi as int == 0xffff_ffff_ffff_ffff,
                    n as int <= 0xffff_ffff_ffff_ffff_ffff_ffff_ffff_ffff,
                ;
        }
    }
    while lo < hi
        invariant
            0 <= lo <= hi <= 0xffff_ffff_ffff_ffff,
            (lo as int) * (lo as int) <= n as int,
            (hi as int + 1) * (hi as int + 1) > n as int,
        decreases hi - lo,
    {
        let mid: u128 = lo + (hi - lo + 1) / 2;
        assert(lo < mid <= hi);
        if mid <= n / mid {
            proof {
                assert((mid as int) * (mid as int) <= n as int) by (nonlinear_arith)
                    requires
                        1 <= mid as int,
                        mid as int <= (n as int) / (mid as int),
                        0 <= n as int,
                    ;
            }
            lo = mid;
        } else {
            proof {
                assert((mid as int) * (mid as int) > n as int) by (nonlinear_arith)
                    requires
                        1 <= mid as int,
                        mid as int > (n as int) / (mid as int),
                        0 <= n as int,
                    ;
            }
            hi = mid - 1;
        }
    }
    proof {
        lemma_sqrt_spec_unique(n as int, lo as int);
    }
    lo as u64
}

} // verus!
