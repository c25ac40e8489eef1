//! Saturating Q16.16 fixed-point arithmetic.
//!
//! Every geometric quantity in this crate is a signed 64-bit integer holding a
//! real number scaled by `SCALE`: the value `v` stands for the real `v / SCALE`.
//! All operations are total: results that would leave the `i64` range saturate
//! at `i64::MIN` / `i64::MAX`, and division by zero yields zero.  Each
//! executable operation is pinned to a spec-level mirror, so higher layers can
//! reason about the arithmetic exactly.

use vstd::prelude::*;

verus! {

/// The unit of the Q16.16 format: the fixed-point encoding of the real 1.0.
pub const SCALE: i64 = 65536;

/// Magnitude of an integer.
pub open spec fn int_abs(v: int) -> int {
    if v < 0 {
        -v
    } else {
        v
    }
}

/// Saturation of an unbounded integer into the `i64` range.
pub open spec fn clip_i64(v: int) -> int {
    if v > i64::MAX {
        i64::MAX as int
    } else if v < i64::MIN {
        i64::MIN as int
    } else {
        v
    }
}

/// Truncating (round-toward-zero) division, written over magnitudes so that it
/// matches the behaviour of hardware division on every sign combination.
pub open spec fn trunc_div(a: int, b: int) -> int
    recommends
        b != 0,
{
    if (a < 0) != (b < 0) {
        -(int_abs(a) / int_abs(b))
    } else {
        int_abs(a) / int_abs(b)
    }
}

/// The fixed-point product `a * b / SCALE`, rounded toward zero and saturated.
pub open spec fn spec_mul_fx(a: int, b: int) -> int {
    clip_i64(trunc_div(a * b, SCALE as int))
}

/// The fixed-point quotient `a * SCALE / b`, rounded toward zero and
/// saturated; zero when the divisor is zero.
pub open spec fn spec_div_fx(a: int, b: int) -> int {
    if b == 0 {
        0
    } else {
        clip_i64(trunc_div(a * SCALE, b))
    }
}

/// The saturated sum.
pub open spec fn spec_add_fx(a: int, b: int) -> int {
    clip_i64(a + b)
}

/// The saturated difference.
pub open spec fn spec_sub_fx(a: int, b: int) -> int {
    clip_i64(a - b)
}

/// The saturated negation.
pub open spec fn spec_neg_fx(a: int) -> int {
    clip_i64(-a)
}

proof fn lemma_trunc_div_is_magnitude_div(a: int, b: int)
    requires
        b > 0,
    ensures
        trunc_div(a, b) == if a < 0 {
            -(int_abs(a) / b)
        } else {
            a / b
        },
{
}

/// Saturated fixed-point multiplication.
pub fn mul_fx(a: i64, b: i64) -> (r: i64)
    ensures
        r == spec_mul_fx(a as int, b as int),
{
    let neg: bool = (a < 0) != (b < 0);
    let ma: u128 = i64_magnitude(a) as u128;
    let mb: u128 = i64_magnitude(b) as u128;
    proof {
        assert(ma * mb <= 0x8000000000000000u128 * 0x8000000000000000u128) by (nonlinear_arith)
            requires
                ma <= 0x8000000000000000u128,
                mb <= 0x8000000000000000u128,
        ;
    }
    let m: u128 = (ma * mb) / (SCALE as u128);
    proof {
        assert(ma * mb == int_abs(a as int) * int_abs(b as int)) by (nonlinear_arith)
            requires
                ma == int_abs(a as int),
                mb == int_abs(b as int),
        ;
        assert(int_abs((a as int) * (b as int)) == int_abs(a as int) * int_abs(b as int))
            by (nonlinear_arith);
        assert(((a as int) * (b as int) < 0) ==> ((a < 0) != (b < 0))) by (nonlinear_arith);
        assert((((a as int) * (b as int) > 0) && ((a < 0) != (b < 0))) ==> false)
            by (nonlinear_arith);
    }
    clip_signed(neg, m)
}

/// Saturated fixed-point division; zero when the divisor is zero.
pub fn div_fx(a: i64, b: i64) -> (r: i64)
    ensures
        r == spec_div_fx(a as int, b as int),
{
    if b == 0 {
        return 0;
    }
    let neg: bool = (a < 0) != (b < 0);
    let ma: u128 = i64_magnitude(a) as u128;
    let mb: u128 = i64_magnitude(b) as u128;
    let m: u128 = (ma * (SCALE as u128)) / mb;
    proof {
        assert(ma * (SCALE as u128) == int_abs(a as int) * (SCALE as int)) by (nonlinear_arith)
            requires
                ma == int_abs(a as int),
        ;
        assert(int_abs((a as int) * (SCALE as int)) == int_abs(a as int) * (SCALE as int))
            by (nonlinear_arith);
        assert(((a as int) * (SCALE as int) < 0) ==> a < 0) by (nonlinear_arith);
        assert(((a as int) * (SCALE as int) > 0) ==> a > 0) by (nonlinear_arith);
        assert(((a as int) * (SCALE as int) == 0) ==> a == 0) by (nonlinear_arith);
    }
    clip_signed(neg, m)
}

/// Saturated addition.
pub fn add_fx(a: i64, b: i64) -> (r: i64)
    ensures
        r == spec_add_fx(a as int, b as int),
{
    let s: i128 = a as i128 + b as i128;
    if s > i64::MAX as i128 {
        i64::MAX
    } else if s < i64::MIN as i128 {
        i64::MIN
    } else {
        s as i64
    }
}

/// Saturated subtraction.
pub fn sub_fx(a: i64, b: i64) -> (r: i64)
    ensures
        r == spec_sub_fx(a as int, b as int),
{
    let s: i128 = a as i128 - b as i128;
    if s > i64::MAX as i128 {
        i64::MAX
    } else if s < i64::MIN as i128 {
        i64::MIN
    } else {
        s as i64
    }
}

/// Saturated negation.
pub fn neg_fx(a: i64) -> (r: i64)
    ensures
        r == spec_neg_fx(a as int),
{
    if a == i64::MIN {
        i64::MAX
    } else {
        -a
    }
}

/// The magnitude of an `i64`, as a `u64` (total, also at `i64::MIN`).
fn i64_magnitude(a: i64) -> (r: u64)
    ensures
        r == int_abs(a as int),
{
    let wide: i128 = a as i128;
    if wide < 0 {
        (-wide) as u64
    } else {
        wide as u64
    }
}

/// Applies a sign to a magnitude and saturates into `i64`.
fn clip_signed(neg: bool, m: u128) -> (r: i64)
    ensures
        r == clip_i64(if neg {
            -(m as int)
        } else {
            m as int
        }),
{
    if neg {
        if m >= 9223372036854775808u128 {
            i64::MIN
        } else {
            -(m as i64)
        }
    } else {
        if m > i64::MAX as u128 {
            i64::MAX
        } else {
            m as i64
        }
    }
}

/// Euclidean division of a non-negative integer by a positive one is
/// non-negative and shrinks the dividend.
pub proof fn lemma_div_bound(a: int, d: int)
    requires
        a >= 0,
        d >= 1,
    ensures
        0 <= a / d,
        (a / d) * d <= a,
{
    vstd::arithmetic::div_mod::lemma_fundamental_div_mod(a, d);
    let q = a / d;
    let m = a % d;
    assert(0 <= q && q * d <= a) by (nonlinear_arith)
        requires
            a == d * q + m,
            0 <= m < d,
            a >= 0,
            d >= 1,
    ;
}

/// The magnitude of a product is the product of the magnitudes.
pub proof fn lemma_abs_mul(a: int, b: int)
    ensures
        int_abs(a * b) == int_abs(a) * int_abs(b),
{
    if a >= 0 && b >= 0 {
        assert(a * b >= 0 && a * b == int_abs(a) * int_abs(b)) by (nonlinear_arith)
            requires
                a >= 0,
                b >= 0,
                int_abs(a) == a,
                int_abs(b) == b,
        ;
    } else if a >= 0 && b < 0 {
        assert(a * b <= 0 && -(a * b) == int_abs(a) * int_abs(b)) by (nonlinear_arith)
            requires
                a >= 0,
                b < 0,
                int_abs(a) == a,
                int_abs(b) == -b,
        ;
    } else if a < 0 && b >= 0 {
        assert(a * b <= 0 && -(a * b) == int_abs(a) * int_abs(b)) by (nonlinear_arith)
            requires
                a < 0,
                b >= 0,
                int_abs(a) == -a,
                int_abs(b) == b,
        ;
    } else {
        assert(a * b >= 0 && a * b == int_abs(a) * int_abs(b)) by (nonlinear_arith)
            requires
                a < 0,
                b < 0,
                int_abs(a) == -a,
                int_abs(b) == -b,
        ;
    }
}

/// A square equals the square of the magnitude.
pub proof fn lemma_abs_square(a: int)
    ensures
        a * a == int_abs(a) * int_abs(a),
        a * a >= 0,
{
    lemma_abs_mul(a, a);
    assert(a * a >= 0) by (nonlinear_arith);
}

/// The integer square root: the largest `r >= 0` with `r * r <= n`
/// (zero for negative arguments).
pub open spec fn spec_isqrt(n: int) -> int
    decreases n,
{
    if n < 1 {
        0
    } else {
        let r = 2 * spec_isqrt(n / 4);
        if (r + 1) * (r + 1) <= n {
            r + 1
        } else {
            r
        }
    }
}

/// The defining property of `spec_isqrt`.
pub proof fn lemma_isqrt(n: int)
    requires
        n >= 0,
    ensures
        0 <= spec_isqrt(n),
        spec_isqrt(n) * spec_isqrt(n) <= n,
        n < (spec_isqrt(n) + 1) * (spec_isqrt(n) + 1),
    decreases n,
{
    if n < 1 {
    } else {
        let q = n / 4;
        lemma_isqrt(q);
        let r0 = spec_isqrt(q);
        assert(n == 4 * q + n % 4 && 0 <= n % 4 < 4);
        assert((2 * r0) * (2 * r0) <= n) by (nonlinear_arith)
            requires
                r0 * r0 <= q,
                n >= 4 * q,
        ;
        assert(n < (2 * r0 + 2) * (2 * r0 + 2)) by (nonlinear_arith)
            requires
                q < (r0 + 1) * (r0 + 1),
                n < 4 * q + 4,
        ;
    }
}

/// A value is the integer square root as soon as it is squeezed between
/// consecutive squares.
pub proof fn lemma_isqrt_unique(n: int, r: int)
    requires
        n >= 0,
        r >= 0,
        r * r <= n,
        n < (r + 1) * (r + 1),
    ensures
        r == spec_isqrt(n),
{
    lemma_isqrt(n);
    let s = spec_isqrt(n);
    assert(r == s) by (nonlinear_arith)
        requires
            r >= 0,
            s >= 0,
            r * r <= n,
            n < (r + 1) * (r + 1),
            s * s <= n,
            n < (s + 1) * (s + 1),
    ;
}

/// Binary-search integer square root over the full `u128` range.
pub fn isqrt_u128(n: u128) -> (r: u128)
    ensures
        r == spec_isqrt(n as int),
        r * r <= n,
{
    let mut lo: u128 = 0;
    let mut hi: u128 = 18446744073709551616u128;
    proof {
        assert((18446744073709551616u128 as int) * (18446744073709551616u128 as int) > n as int)
            by (nonlinear_arith)
            requires
                n <= u128::MAX,
        ;
    }
    while lo + 1 < hi
        invariant
            0 <= lo < hi <= 18446744073709551616u128,
            (lo as int) * (lo as int) <= n as int,
            (n as int) < (hi as int) * (hi as int),
        decreases hi - lo,
    {
        let mid: u128 = lo + (hi - lo) / 2;
        proof {
            assert((mid as int) * (mid as int) < 340282366920938463463374607431768211456int)
                by (nonlinear_arith)
                requires
                    mid < 18446744073709551616u128,
            ;
        }
        if mid * mid <= n {
            lo = mid;
        } else {
            hi = mid;
        }
    }
    proof {
        lemma_isqrt_unique(n as int, lo as int);
    }
    lo
}

/// The integer cube root: the largest `r >= 0` with `r * r * r <= n`
/// (zero for negative arguments).
pub open spec fn spec_icbrt(n: int) -> int
    decreases n,
{
    if n < 1 {
        0
    } else {
        let r = 2 * spec_icbrt(n / 8);
        if (r + 1) * (r + 1) * (r + 1) <= n {
            r + 1
        } else {
            r
        }
    }
}

/// The defining property of `spec_icbrt`.
pub proof fn lemma_icbrt(n: int)
    requires
        n >= 0,
    ensures
        0 <= spec_icbrt(n),
        spec_icbrt(n) * spec_icbrt(n) * spec_icbrt(n) <= n,
        n < (spec_icbrt(n) + 1) * (spec_icbrt(n) + 1) * (spec_icbrt(n) + 1),
    decreases n,
{
    if n < 1 {
    } else {
        let q = n / 8;
        lemma_icbrt(q);
        let r0 = spec_icbrt(q);
        assert(n == 8 * q + n % 8 && 0 <= n % 8 < 8);
        assert((2 * r0) * (2 * r0) * (2 * r0) <= n) by (nonlinear_arith)
            requires
                r0 * r0 * r0 <= q,
                n >= 8 * q,
        ;
        assert(n < (2 * r0 + 2) * (2 * r0 + 2) * (2 * r0 + 2)) by (nonlinear_arith)
            requires
                q < (r0 + 1) * (r0 + 1) * (r0 + 1),
                n < 8 * q + 8,
        ;
    }
}

/// A value squeezed between consecutive cubes is the integer cube root.
pub proof fn lemma_icbrt_unique(n: int, r: int)
    requires
        n >= 0,
        r >= 0,
        r * r * r <= n,
        n < (r + 1) * (r + 1) * (r + 1),
    ensures
        r == spec_icbrt(n),
{
    lemma_icbrt(n);
    let s = spec_icbrt(n);
    assert(r == s) by (nonlinear_arith)
        requires
            r >= 0,
            s >= 0,
            r * r * r <= n,
            n < (r + 1) * (r + 1) * (r + 1),
            s * s * s <= n,
            n < (s + 1) * (s + 1) * (s + 1),
    ;
}

/// Binary-search integer cube root for arguments below `2^96`.
pub fn icbrt_u128(n: u128) -> (r: u128)
    requires
        n < 79228162514264337593543950336u128,  // 2^96
    ensures
        r == spec_icbrt(n as int),
{
    let mut lo: u128 = 0;
    let mut hi: u128 = 4294967296u128;  // 2^32
    proof {
        assert((4294967296int) * (4294967296int) * (4294967296int) > n as int);
    }
    while lo + 1 < hi
        invariant
            0 <= lo < hi <= 4294967296u128,
            (lo as int) * (lo as int) * (lo as int) <= n as int,
            (n as int) < (hi as int) * (hi as int) * (hi as int),
        decreases hi - lo,
    {
        let mid: u128 = lo + (hi - lo) / 2;
        proof {
            assert((mid as int) * (mid as int) <= 18446744073709551616int
                && (mid as int) * (mid as int) * (mid as int)
                    <= 79228162514264337593543950336int) by (nonlinear_arith)
                requires
                    mid < 4294967296u128,
            ;
        }
        if mid * mid * mid <= n {
            lo = mid;
        } else {
            hi = mid;
        }
    }
    proof {
        lemma_icbrt_unique(n as int, lo as int);
    }
    lo
}

/// The fixed-point square root of a non-negative fixed-point value.
pub open spec fn spec_sqrt_fx(a: int) -> int {
    spec_isqrt(a * (SCALE as int))
}

/// Fixed-point square root: `r / SCALE` is the rounded-down square root of
/// `a / SCALE`.
pub fn sqrt_fx(a: i64) -> (r: i64)
    requires
        a >= 0,
    ensures
        r == spec_sqrt_fx(a as int),
        r >= 0,
{
    let wide: u128 = (a as u128) * 65536u128;
    let root: u128 = isqrt_u128(wide);
    proof {
        assert(root < 2199023255552u128) by (nonlinear_arith)
            requires
                (root as int) * (root as int) <= wide as int,
                wide < 4835703278458516698824704u128,
        ;
    }
    root as i64
}

} // verus!
