//! Saturating fixed-point scalar arithmetic.
//!
//! A height or a velocity component is an `i64` that denotes the real number
//! `v / SCALE`.  Every operation is exact integer arithmetic truncated toward
//! zero where a division occurs, and saturates at the `i64` range instead of
//! wrapping or panicking.

use vstd::prelude::*;

verus! {

/// Denominator of the fixed-point representation: a stored value `v` denotes
/// the real number `v / SCALE`.
pub const SCALE: i64 = 1_000_000;

/// Clamp a mathematical integer into the `i64` range.
pub open spec fn sat64(v: int) -> int {
    if v < i64::MIN as int {
        i64::MIN as int
    } else if v > i64::MAX as int {
        i64::MAX as int
    } else {
        v
    }
}

/// Division by a positive divisor, truncated toward zero (the convention of
/// the executable sign-magnitude arithmetic below).
pub open spec fn div_trunc(a: int, d: int) -> int {
    if a >= 0 {
        a / d
    } else {
        -((-a) / d)
    }
}

/// Saturating sum.
pub open spec fn spec_add_sat(a: int, b: int) -> int {
    sat64(a + b)
}

/// Saturating difference.
pub open spec fn spec_sub_sat(a: int, b: int) -> int {
    sat64(a - b)
}

/// Saturating fixed-point product: `(a * b) / SCALE`, truncated toward zero.
pub open spec fn spec_fp_mul(a: int, b: int) -> int {
    sat64(div_trunc(a * b, SCALE as int))
}

/// Halving, truncated toward zero.
pub open spec fn spec_half(a: int) -> int {
    div_trunc(a, 2)
}

/// Magnitude of an `i64`, as a `u64` (total: handles `i64::MIN`).
pub fn abs_u64(a: i64) -> (r: u64)
    ensures
        r as int == if a >= 0 { a as int } else { -(a as int) },
{
    if a >= 0 {
        a as u64
    } else {
        (-(a as i128)) as u64
    }
}

/// Saturating sum of two `i64` values.
pub fn add_sat(a: i64, b: i64) -> (r: i64)
    ensures
        r as int == spec_add_sat(a as int, b as int),
{
    let s: i128 = a as i128 + b as i128;
    if s < i64::MIN as i128 {
        i64::MIN
    } else if s > i64::MAX as i128 {
        i64::MAX
    } else {
        s as i64
    }
}

/// Saturating difference of two `i64` values.
pub fn sub_sat(a: i64, b: i64) -> (r: i64)
    ensures
        r as int == spec_sub_sat(a as int, b as int),
{
    let s: i128 = a as i128 - b as i128;
    if s < i64::MIN as i128 {
        i64::MIN
    } else if s > i64::MAX as i128 {
        i64::MAX
    } else {
        s as i64
    }
}

/// Halve a fixed-point value, truncating toward zero.
pub fn half_trunc(a: i64) -> (r: i64)
    ensures
        r as int == spec_half(a as int),
{
    if a >= 0 {
        ((a as u64) / 2) as i64
    } else {
        let m: u128 = (-(a as i128)) as u128;
        let q: u128 = m / 2;
        (-(q as i128)) as i64
    }
}

/// Clamp a signed magnitude back into `i64`, reapplying the sign.
fn apply_sign_sat(neg: bool, q: u128) -> (r: i64)
    ensures
        r as int == sat64(if neg { -(q as int) } else { q as int }),
{
    if neg {
        if q >= 9_223_372_036_854_775_808u128 {
            i64::MIN
        } else {
            (-(q as i128)) as i64
        }
    } else {
        if q > i64::MAX as u128 {
            i64::MAX
        } else {
            q as i64
        }
    }
}

/// Saturating fixed-point product of two `i64` values.
pub fn fp_mul(a: i64, b: i64) -> (r: i64)
    ensures
        r as int == spec_fp_mul(a as int, b as int),
{
    let neg = (a < 0) != (b < 0);
    let ma = abs_u64(a);
    let mb = abs_u64(b);
    proof {
        assert(ma as int * mb as int <= u128::MAX as int) by (nonlinear_arith)
            requires
                ma as int <= u64::MAX as int,
                mb as int <= u64::MAX as int,
        ;
    }
    let prod: u128 = (ma as u128) * (mb as u128);
    let q: u128 = prod / (SCALE as u128);
    proof {
        assert((a as int) * (b as int) == if neg { -(prod as int) } else { prod as int })
            by (nonlinear_arith)
            requires
                ma as int == if a >= 0 { a as int } else { -(a as int) },
                mb as int == if b >= 0 { b as int } else { -(b as int) },
                neg == ((a < 0) != (b < 0)),
                prod == ma as int * mb as int,
        ;
        assert(div_trunc((a as int) * (b as int), SCALE as int) == if neg {
            -(q as int)
        } else {
            q as int
        });
    }
    apply_sign_sat(neg, q)
}

/// Scale an unsigned integer count by a fixed-point factor (no division:
/// the result keeps the factor's scale), saturating into `i64`.
pub fn int_scale(v: u64, s: i64) -> (r: i64)
    ensures
        r as int == sat64(v as int * s as int),
{
    let neg = s < 0;
    let ms = abs_u64(s);
    proof {
        assert(v as int * ms as int <= u128::MAX as int && v as int * s as int == (if neg {
            -((v as int) * (ms as int))
        } else {
            (v as int) * (ms as int)
        })) by (nonlinear_arith)
            requires
                v as int <= u64::MAX as int,
                ms as int <= 0x8000_0000_0000_0000u128 as int,
                ms as int == if s >= 0 { s as int } else { -(s as int) },
                neg == (s < 0),
        ;
    }
    let prod: u128 = (v as u128) * (ms as u128);
    apply_sign_sat(neg, prod)
}

/// A fixed-point product with a zero factor is zero.
pub proof fn lemma_fp_mul_zero(b: int)
    ensures
        spec_fp_mul(0, b) == 0,
        spec_fp_mul(b, 0) == 0,
{
    assert(0 * b == 0) by (nonlinear_arith);
    assert(b * 0 == 0) by (nonlinear_arith);
}

/// `r` is the floor of the square root of `n`.
pub open spec fn is_sqrt_floor(n: int, r: int) -> bool {
    0 <= r && r * r <= n && n < (r + 1) * (r + 1)
}

/// Floor of the square root of a natural number.
pub open spec fn sqrt_floor(n: nat) -> nat
    decreases n,
{
    if n == 0 {
        0
    } else {
        let s = sqrt_floor((n - 1) as nat);
        if (s + 1) * (s + 1) <= n {
            s + 1
        } else {
            s
        }
    }
}

pub proof fn lemma_sqrt_floor_is(n: nat)
    ensures
        is_sqrt_floor(n as int, sqrt_floor(n) as int),
    decreases n,
{
    if n > 0 {
        lemma_sqrt_floor_is((n - 1) as nat);
        let s = sqrt_floor((n - 1) as nat);
        if (s + 1) * (s + 1) <= n {
            assert((s + 2) * (s + 2) > n) by (nonlinear_arith)
                requires
                    (n - 1) < (s + 1) * (s + 1),
                    s >= 0,
            ;
        }
    }
}

pub proof fn lemma_sqrt_floor_unique(n: int, r1: int, r2: int)
    requires
        is_sqrt_floor(n, r1),
        is_sqrt_floor(n, r2),
    ensures
        r1 == r2,
{
    assert(!(r1 < r2) && !(r2 < r1)) by (nonlinear_arith)
        requires
            0 <= r1 && r1 * r1 <= n && n < (r1 + 1) * (r1 + 1),
            0 <= r2 && r2 * r2 <= n && n < (r2 + 1) * (r2 + 1),
    ;
}

/// Floor of the square root of a `u128`, by bisection.
pub fn isqrt(n: u128) -> (r: u64)
    ensures
        r as nat == sqrt_floor(n as nat),
{
    let mut lo: u128 = 0;
    let mut hi: u128 = 0x1_0000_0000_0000_0000u128;
    proof {
        assert((hi as int) * (hi as int) > u128::MAX as int) by (nonlinear_arith)
            requires
                hi == 0x1_0000_0000_0000_0000u128,
        ;
    }
    while lo + 1 < hi
        invariant
            lo < hi,
            hi <= 0x1_0000_0000_0000_0000u128,
            (lo as int) * (lo as int) <= n as int,
            (n as int) < (hi as int) * (hi as int),
        decreases hi - lo,
    {
        let mid: u128 = lo + (hi - lo) / 2;
        proof {
            assert((mid as int) * (mid as int) <= u128::MAX as int) by (nonlinear_arith)
                requires
                    mid as int <= 0xffff_ffff_ffff_ffffu64 as int,
            ;
        }
        let sq: u128 = mid * mid;
        if sq <= n {
            lo = mid;
        } else {
            hi = mid;
        }
    }
    proof {
        lemma_sqrt_floor_is(n as nat);
        lemma_sqrt_floor_unique(n as int, lo as int, sqrt_floor(n as nat) as int);
    }
    lo as u64
}

/// A cell index, taken into fixed-point units (saturating for indices past
/// `i64::MAX / SCALE`, which no allocatable grid reaches).
pub fn cell_to_fixed(x: usize) -> (r: i64)
    ensures
        r as int == sat64(x as int * SCALE as int),
{
    proof {
        assert(x as int * 1_000_000 <= u128::MAX as int) by (nonlinear_arith)
            requires
                x as int <= u64::MAX as int,
        ;
    }
    let p: u128 = (x as u128) * 1_000_000u128;
    if p > i64::MAX as u128 {
        i64::MAX
    } else {
        p as i64
    }
}

/// Euclidean distance of the fixed-point offset `(dx, dy)` from the origin,
/// rounded down in fixed-point units and clamped into `i64`.
pub open spec fn spec_radius(dx: int, dy: int) -> int {
    sat64(sqrt_floor((dx * dx + dy * dy) as nat) as int)
}

/// Fixed-point Euclidean norm of `(dx, dy)`.
pub fn radius_fp(dx: i64, dy: i64) -> (r: i64)
    ensures
        r as int == spec_radius(dx as int, dy as int),
{
    let ma = abs_u64(dx);
    let mb = abs_u64(dy);
    proof {
        assert(ma as int * ma as int + mb as int * mb as int <= u128::MAX as int
            && ma as int * ma as int == dx as int * dx as int
            && mb as int * mb as int == dy as int * dy as int) by (nonlinear_arith)
            requires
                ma as int == if dx >= 0 { dx as int } else { -(dx as int) },
                mb as int == if dy >= 0 { dy as int } else { -(dy as int) },
                ma as int <= 0x8000_0000_0000_0000u128 as int,
                mb as int <= 0x8000_0000_0000_0000u128 as int,
        ;
    }
    let sum: u128 = (ma as u128) * (ma as u128) + (mb as u128) * (mb as u128);
    let root: u64 = isqrt(sum);
    if root > i64::MAX as u64 {
        i64::MAX
    } else {
        root as i64
    }
}

} // verus!
