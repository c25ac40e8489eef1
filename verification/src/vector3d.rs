//! Three-component vectors in Q16.16 fixed point.
//!
//! A `Vector3D` serves interchangeably as a point, a direction, or a colour
//! (one channel per component, 1.0 == `SCALE`).  Every operation mirrors a
//! spec-level function exactly, and the algebraic laws the renderer depends on
//! are proved below for all inputs on which the saturating arithmetic is exact.

use vstd::prelude::*;

use crate::fixed::{
    SCALE, add_fx, clip_i64, div_fx, int_abs, isqrt_u128, lemma_isqrt, mul_fx, spec_add_fx,
    spec_div_fx, spec_isqrt, spec_mul_fx, spec_neg_fx, spec_sub_fx, sub_fx, trunc_div,
};
use crate::rng::Sampler;

verus! {

#[derive(Clone, Copy, PartialEq, Eq, Structural, Debug)]
pub struct Vector3D {
    pub x: i64,
    pub y: i64,
    pub z: i64,
}

/// The exact (unsaturated) squared Euclidean norm, in Q32.32 units.
pub open spec fn spec_norm_sq(v: Vector3D) -> int {
    (v.x as int) * (v.x as int) + (v.y as int) * (v.y as int) + (v.z as int) * (v.z as int)
}

pub open spec fn spec_vec_sum(u: Vector3D, v: Vector3D) -> Vector3D {
    Vector3D {
        x: spec_add_fx(u.x as int, v.x as int) as i64,
        y: spec_add_fx(u.y as int, v.y as int) as i64,
        z: spec_add_fx(u.z as int, v.z as int) as i64,
    }
}

pub open spec fn spec_vec_sub(u: Vector3D, v: Vector3D) -> Vector3D {
    Vector3D {
        x: spec_sub_fx(u.x as int, v.x as int) as i64,
        y: spec_sub_fx(u.y as int, v.y as int) as i64,
        z: spec_sub_fx(u.z as int, v.z as int) as i64,
    }
}

pub open spec fn spec_vec_scale(u: Vector3D, s: int) -> Vector3D {
    Vector3D {
        x: spec_mul_fx(u.x as int, s) as i64,
        y: spec_mul_fx(u.y as int, s) as i64,
        z: spec_mul_fx(u.z as int, s) as i64,
    }
}

pub open spec fn spec_vec_div(u: Vector3D, s: int) -> Vector3D {
    Vector3D {
        x: spec_div_fx(u.x as int, s) as i64,
        y: spec_div_fx(u.y as int, s) as i64,
        z: spec_div_fx(u.z as int, s) as i64,
    }
}

pub open spec fn spec_vec_hadamard(u: Vector3D, v: Vector3D) -> Vector3D {
    Vector3D {
        x: spec_mul_fx(u.x as int, v.x as int) as i64,
        y: spec_mul_fx(u.y as int, v.y as int) as i64,
        z: spec_mul_fx(u.z as int, v.z as int) as i64,
    }
}

/// The saturating fixed-point dot product, summed left to right.
pub open spec fn spec_vec_dot(u: Vector3D, v: Vector3D) -> int {
    spec_add_fx(
        spec_add_fx(spec_mul_fx(u.x as int, v.x as int), spec_mul_fx(u.y as int, v.y as int)),
        spec_mul_fx(u.z as int, v.z as int),
    )
}

pub open spec fn spec_vec_cross(u: Vector3D, v: Vector3D) -> Vector3D {
    Vector3D {
        x: spec_sub_fx(spec_mul_fx(u.y as int, v.z as int), spec_mul_fx(u.z as int, v.y as int))
            as i64,
        y: spec_sub_fx(spec_mul_fx(u.z as int, v.x as int), spec_mul_fx(u.x as int, v.z as int))
            as i64,
        z: spec_sub_fx(spec_mul_fx(u.x as int, v.y as int), spec_mul_fx(u.y as int, v.x as int))
            as i64,
    }
}

/// The fixed-point length: the integer square root of the exact squared norm,
/// saturated into `i64`.
pub open spec fn spec_vec_len(v: Vector3D) -> int {
    clip_i64(spec_isqrt(spec_norm_sq(v)))
}

/// Normalisation is division by the length; the zero vector maps to itself.
pub open spec fn spec_vec_normalize(v: Vector3D) -> Vector3D {
    spec_vec_div(v, spec_vec_len(v))
}

impl Vector3D {
    pub fn new(x: i64, y: i64, z: i64) -> (r: Vector3D)
        ensures
            r == (Vector3D { x, y, z }),
    {
        Vector3D { x, y, z }
    }

    pub fn new_as_zero() -> (r: Vector3D)
        ensures
            r == (Vector3D { x: 0i64, y: 0i64, z: 0i64 }),
    {
        Vector3D { x: 0, y: 0, z: 0 }
    }

    pub fn new_as_one() -> (r: Vector3D)
        ensures
            r == (Vector3D { x: SCALE, y: SCALE, z: SCALE }),
    {
        Vector3D { x: SCALE, y: SCALE, z: SCALE }
    }
}

pub fn vec_sum(u: &Vector3D, v: &Vector3D) -> (r: Vector3D)
    ensures
        r == spec_vec_sum(*u, *v),
{
    Vector3D { x: add_fx(u.x, v.x), y: add_fx(u.y, v.y), z: add_fx(u.z, v.z) }
}

pub fn vec_sum_components(u: &Vector3D, x: i64, y: i64, z: i64) -> (r: Vector3D)
    ensures
        r == spec_vec_sum(*u, Vector3D { x, y, z }),
{
    Vector3D { x: add_fx(u.x, x), y: add_fx(u.y, y), z: add_fx(u.z, z) }
}

pub fn vec_sub(u: &Vector3D, v: &Vector3D) -> (r: Vector3D)
    ensures
        r == spec_vec_sub(*u, *v),
{
    Vector3D { x: sub_fx(u.x, v.x), y: sub_fx(u.y, v.y), z: sub_fx(u.z, v.z) }
}

pub fn vec_multiplication(u: &Vector3D, scalar: i64) -> (r: Vector3D)
    ensures
        r == spec_vec_scale(*u, scalar as int),
{
    Vector3D { x: mul_fx(u.x, scalar), y: mul_fx(u.y, scalar), z: mul_fx(u.z, scalar) }
}

pub fn vec_division(u: &Vector3D, scalar: i64) -> (r: Vector3D)
    ensures
        r == spec_vec_div(*u, scalar as int),
{
    Vector3D { x: div_fx(u.x, scalar), y: div_fx(u.y, scalar), z: div_fx(u.z, scalar) }
}

pub fn vec_hadamard(u: &Vector3D, v: &Vector3D) -> (r: Vector3D)
    ensures
        r == spec_vec_hadamard(*u, *v),
{
    Vector3D { x: mul_fx(u.x, v.x), y: mul_fx(u.y, v.y), z: mul_fx(u.z, v.z) }
}

pub fn vec_dot(u: &Vector3D, v: &Vector3D) -> (r: i64)
    ensures
        r == spec_vec_dot(*u, *v),
{
    add_fx(add_fx(mul_fx(u.x, v.x), mul_fx(u.y, v.y)), mul_fx(u.z, v.z))
}

pub fn vec_cross(u: &Vector3D, v: &Vector3D) -> (r: Vector3D)
    ensures
        r == spec_vec_cross(*u, *v),
{
    Vector3D {
        x: sub_fx(mul_fx(u.y, v.z), mul_fx(u.z, v.y)),
        y: sub_fx(mul_fx(u.z, v.x), mul_fx(u.x, v.z)),
        z: sub_fx(mul_fx(u.x, v.y), mul_fx(u.y, v.x)),
    }
}

/// The exact squared norm, computed in 128-bit arithmetic.
fn norm_sq_u128(v: &Vector3D) -> (r: u128)
    ensures
        r == spec_norm_sq(*v),
{
    proof {
        lemma_square_bound(v.x as int);
        lemma_square_bound(v.y as int);
        lemma_square_bound(v.z as int);
    }
    let sx: u128 = ((v.x as i128) * (v.x as i128)) as u128;
    let sy: u128 = ((v.y as i128) * (v.y as i128)) as u128;
    let sz: u128 = ((v.z as i128) * (v.z as i128)) as u128;
    sx + sy + sz
}

proof fn lemma_square_bound(a: int)
    requires
        -0x8000000000000000 <= a <= 0x7fffffffffffffff,
    ensures
        0 <= a * a <= 0x8000000000000000 * 0x8000000000000000,
{
    assert(0 <= a * a <= 0x8000000000000000 * 0x8000000000000000) by (nonlinear_arith)
        requires
            -0x8000000000000000 <= a <= 0x7fffffffffffffff,
    ;
}

pub fn vec_get_length(v: &Vector3D) -> (r: i64)
    ensures
        r == spec_vec_len(*v),
        r >= 0,
{
    let s: u128 = norm_sq_u128(v);
    let root: u128 = isqrt_u128(s);
    if root > i64::MAX as u128 {
        i64::MAX
    } else {
        root as i64
    }
}

pub fn vec_normalize(v: &Vector3D) -> (r: Vector3D)
    ensures
        r == spec_vec_normalize(*v),
{
    let length: i64 = vec_get_length(v);
    vec_division(v, length)
}

/// Direction-preserving rescale of `c` to length at most `limit`: vectors no
/// longer than `limit` pass through unchanged, longer ones are scaled by
/// `limit / |c|` componentwise.
pub open spec fn spec_vec_clamp_len(c: Vector3D, limit: int) -> Vector3D {
    let s = spec_norm_sq(c);
    if s <= limit * limit {
        c
    } else {
        let l = spec_isqrt(s);
        Vector3D {
            x: trunc_div((c.x as int) * limit, l) as i64,
            y: trunc_div((c.y as int) * limit, l) as i64,
            z: trunc_div((c.z as int) * limit, l) as i64,
        }
    }
}

/// One signed component of the rescale: `c_i * limit / l`, rounded toward zero.
fn clamp_component(ci: i64, limit: i64, l: u128) -> (r: i64)
    requires
        1 <= limit,
        l > 0,
        int_abs(ci as int) <= l as int,
    ensures
        r == trunc_div((ci as int) * (limit as int), l as int),
        int_abs(r as int) <= limit,
        int_abs(r as int) * (l as int) <= int_abs(ci as int) * (limit as int),
{
    let neg: bool = ci < 0;
    let wide: i128 = ci as i128;
    let mi: u128 = if wide < 0 {
        (-wide) as u128
    } else {
        wide as u128
    };
    proof {
        assert(mi == int_abs(ci as int));
        assert(mi * (limit as u128) <= 0x8000000000000000u128 * 0x7fffffffffffffffu128)
            by (nonlinear_arith)
            requires
                mi <= 0x8000000000000000u128,
                limit as u128 <= 0x7fffffffffffffffu128,
        ;
    }
    let q: u128 = (mi * (limit as u128)) / l;
    proof {
        crate::fixed::lemma_div_bound((mi * (limit as u128)) as int, l as int);
        assert(q <= limit as u128) by (nonlinear_arith)
            requires
                (q as int) * (l as int) <= (mi as int) * (limit as int),
                (mi as int) <= (l as int),
                l > 0,
                limit >= 1,
                q >= 0,
        ;
        crate::fixed::lemma_abs_mul(ci as int, limit as int);
        assert(((ci as int) * (limit as int) < 0) ==> ci < 0) by (nonlinear_arith)
            requires
                limit >= 1,
        ;
        assert((ci < 0 && mi > 0) ==> (ci as int) * (limit as int) < 0) by (nonlinear_arith)
            requires
                limit >= 1,
                mi == int_abs(ci as int),
        ;
    }
    if neg {
        -(q as i64)
    } else {
        q as i64
    }
}

/// Rescales a vector so its Euclidean length cannot meaningfully exceed
/// `limit`: the exact squared norm of the result is at most
/// `limit^2 + 2 * limit` (one rounding step above `limit^2`), and vectors
/// already within the limit are returned unchanged.
pub fn vec_clamp_length(c: &Vector3D, limit: i64) -> (r: Vector3D)
    requires
        1 <= limit,
    ensures
        r == spec_vec_clamp_len(*c, limit as int),
        spec_norm_sq(*c) <= (limit as int) * (limit as int) ==> r == *c,
        spec_norm_sq(r) <= (limit as int) * (limit as int) + 2 * limit,
{
    let s: u128 = norm_sq_u128(c);
    proof {
        assert((limit as u128) * (limit as u128) <= 0x8000000000000000u128
            * 0x8000000000000000u128) by (nonlinear_arith)
            requires
                limit as u128 <= 0x8000000000000000u128,
        ;
    }
    let limit_sq: u128 = (limit as u128) * (limit as u128);
    if s <= limit_sq {
        return *c;
    }
    let l: u128 = isqrt_u128(s);
    proof {
        lemma_isqrt(s as int);
        assert(l >= limit as u128) by (nonlinear_arith)
            requires
                (s as int) < ((l as int) + 1) * ((l as int) + 1),
                (limit as int) * (limit as int) < s as int,
                l >= 0,
                limit >= 1,
        ;
        lemma_square_bound(c.x as int);
        lemma_square_bound(c.y as int);
        lemma_square_bound(c.z as int);
        lemma_abs_in_root_range(c.x as int, s as int, l as int);
        lemma_abs_in_root_range(c.y as int, s as int, l as int);
        lemma_abs_in_root_range(c.z as int, s as int, l as int);
    }
    let rx: i64 = clamp_component(c.x, limit, l);
    let ry: i64 = clamp_component(c.y, limit, l);
    let rz: i64 = clamp_component(c.z, limit, l);
    let r = Vector3D { x: rx, y: ry, z: rz };
    proof {
        crate::fixed::lemma_abs_square(rx as int);
        crate::fixed::lemma_abs_square(ry as int);
        crate::fixed::lemma_abs_square(rz as int);
        crate::fixed::lemma_abs_square(c.x as int);
        crate::fixed::lemma_abs_square(c.y as int);
        crate::fixed::lemma_abs_square(c.z as int);
        lemma_clamp_norm_bound(
            int_abs(rx as int),
            int_abs(ry as int),
            int_abs(rz as int),
            int_abs(c.x as int),
            int_abs(c.y as int),
            int_abs(c.z as int),
            l as int,
            limit as int,
            s as int,
        );
    }
    r
}

/// A component of a vector is bounded in magnitude by the integer square root
/// of the squared norm.
proof fn lemma_abs_in_root_range(ci: int, s: int, l: int)
    requires
        ci * ci <= s,
        s < (l + 1) * (l + 1),
        l >= 0,
    ensures
        int_abs(ci) <= l,
{
    crate::fixed::lemma_abs_square(ci);
    assert(int_abs(ci) <= l) by (nonlinear_arith)
        requires
            int_abs(ci) * int_abs(ci) <= s,
            s < (l + 1) * (l + 1),
            l >= 0,
            int_abs(ci) >= 0,
    ;
}

/// The norm bound behind `vec_clamp_length`: if each rescaled magnitude
/// `q_i` satisfies `q_i * l <= a_i * limit` with `a_i <= l` and
/// `a_x^2 + a_y^2 + a_z^2 == s < (l + 1)^2`, then the rescaled squared norm
/// stays within one rounding step of `limit^2`.
proof fn lemma_clamp_norm_bound(
    qx: int,
    qy: int,
    qz: int,
    ax: int,
    ay: int,
    az: int,
    l: int,
    limit: int,
    s: int,
)
    requires
        0 <= qx && 0 <= qy && 0 <= qz,
        0 <= ax && 0 <= ay && 0 <= az,
        1 <= limit <= l,
        qx * l <= ax * limit,
        qy * l <= ay * limit,
        qz * l <= az * limit,
        s == ax * ax + ay * ay + az * az,
        s < (l + 1) * (l + 1),
    ensures
        qx * qx + qy * qy + qz * qz <= limit * limit + 2 * limit,
{
    assert(qx * qx * (l * l) <= ax * ax * (limit * limit)) by (nonlinear_arith)
        requires
            0 <= qx,
            0 <= ax,
            0 <= l,
            0 <= limit,
            qx * l <= ax * limit,
    ;
    assert(qy * qy * (l * l) <= ay * ay * (limit * limit)) by (nonlinear_arith)
        requires
            0 <= qy,
            0 <= ay,
            0 <= l,
            0 <= limit,
            qy * l <= ay * limit,
    ;
    assert(qz * qz * (l * l) <= az * az * (limit * limit)) by (nonlinear_arith)
        requires
            0 <= qz,
            0 <= az,
            0 <= l,
            0 <= limit,
            qz * l <= az * limit,
    ;
    let qq = qx * qx + qy * qy + qz * qz;
    assert(qq * (l * l) <= s * (limit * limit)) by (nonlinear_arith)
        requires
            qx * qx * (l * l) <= ax * ax * (limit * limit),
            qy * qy * (l * l) <= ay * ay * (limit * limit),
            qz * qz * (l * l) <= az * az * (limit * limit),
            qq == qx * qx + qy * qy + qz * qz,
            s == ax * ax + ay * ay + az * az,
    ;
    assert(qq <= limit * limit + 2 * limit) by (nonlinear_arith)
        requires
            qq * (l * l) <= s * (limit * limit),
            s < (l + 1) * (l + 1),
            1 <= limit <= l,
            qq >= 0,
    ;
}

/// A pseudo-random direction of (fixed-point) unit length, scaled by
/// `multiplier`: the stochastic kick that turns the mirror reflection into a
/// rough one.  Uses rejection sampling inside the unit cube — only vectors
/// with length in `[0.5, 1]` are accepted, so normalising them is accurate —
/// with a fixed axis as fallback so the function is total.  Every outcome is
/// bounded componentwise by the multiplier's magnitude, and its squared norm
/// is within a fraction of `multiplier^2` on both sides: at most a
/// `1/16384` relative excess above, and below it by at most six parts in
/// `SCALE` plus six units of `|multiplier|`.
impl Vector3D {
    pub fn new_random(multiplier: i64, sampler: &mut Sampler) -> (r: Vector3D)
        ensures
            int_abs(r.x as int) <= int_abs(multiplier as int),
            int_abs(r.y as int) <= int_abs(multiplier as int),
            int_abs(r.z as int) <= int_abs(multiplier as int),
            16384 * spec_norm_sq(r) <= 16385 * ((multiplier as int) * (multiplier as int)),
            (SCALE as int) * (SCALE as int) * spec_norm_sq(r) + (6 * (SCALE as int) + 3) * ((
            multiplier as int) * (multiplier as int)) + (6 * (SCALE as int) * (SCALE as int) + 6 * (
            SCALE as int)) * int_abs(multiplier as int) + 3 * (SCALE as int) * (SCALE as int) >= (
            SCALE as int) * (SCALE as int) * ((multiplier as int) * (multiplier as int)),
    {
        if multiplier == i64::MIN {
            let axis = Vector3D { x: 0, y: 0, z: SCALE };
            let r = vec_multiplication(&axis, multiplier);
            proof {
                lemma_scale_of_unit_bounded(axis, multiplier as int);
                lemma_mul_fx_scale_identity(multiplier as int);
                crate::fixed::lemma_abs_square(multiplier as int);
                assert(r.x == 0 && r.y == 0 && r.z == multiplier);
            }
            return r;
        }
        let mut attempt: u64 = 0;
        while attempt < 16
            invariant
                attempt <= 16,
                multiplier != i64::MIN,
            decreases 16 - attempt,
        {
            let x: i64 = sampler.next_below(131073) as i64 - 65536;
            let y: i64 = sampler.next_below(131073) as i64 - 65536;
            let z: i64 = sampler.next_below(131073) as i64 - 65536;
            let v = Vector3D { x, y, z };
            let s: u128 = norm_sq_u128(&v);
            if 1073741824 <= s && s <= 4294967296u128 {
                let unit = vec_normalize(&v);
                proof {
                    lemma_normalize_small_is_bounded(v);
                    lemma_scale_of_unit_bounded(unit, multiplier as int);
                    lemma_kick_norm(v, multiplier as int);
                }
                return vec_multiplication(&unit, multiplier);
            }
            attempt = attempt + 1;
        }
        let axis = Vector3D { x: 0, y: 0, z: SCALE };
        let r = vec_multiplication(&axis, multiplier);
        proof {
            lemma_scale_of_unit_bounded(axis, multiplier as int);
            lemma_mul_fx_scale_identity(multiplier as int);
            crate::fixed::lemma_abs_square(multiplier as int);
            assert(r.x == 0 && r.y == 0 && r.z == multiplier);
        }
        r
    }
}

/// One magnitude channel of the normalise-then-scale pipeline: with
/// `b = a * SCALE / l` and `q = b * mm / SCALE`, the result `q` is within
/// one rounding step of `a * mm / l` on either side, stated product-form.
proof fn lemma_kick_component(a: int, l: int, mm: int) -> (q: int)
    requires
        0 <= a <= l,
        32768 <= l <= 65536,
        0 <= mm <= 0x7fffffffffffffff,
    ensures
        q == (((a * (SCALE as int)) / l) * mm) / (SCALE as int),
        0 <= q <= mm,
        q * l <= a * mm,
        q * q * (((SCALE as int) * (SCALE as int)) * (l * l)) + (l * l) * (2 * (SCALE as int) * mm
            * (mm + (SCALE as int)) + (mm + (SCALE as int)) * (mm + (SCALE as int))) >= ((a * a) * ((
        SCALE as int) * (SCALE as int))) * (mm * mm),
{
    let k = SCALE as int;
    let b = (a * k) / l;
    crate::fixed::lemma_div_bound(a * k, l);
    vstd::arithmetic::div_mod::lemma_fundamental_div_mod(a * k, l);
    assert(b * l >= a * k - l + 1) by (nonlinear_arith)
        requires
            a * k == l * b + (a * k) % l,
            (a * k) % l < l,
    ;
    assert(b <= k) by (nonlinear_arith)
        requires
            b * l <= a * k,
            a <= l,
            l >= 1,
            b >= 0,
            k >= 1,
    ;
    let q = (b * mm) / k;
    crate::fixed::lemma_div_bound(b * mm, k);
    vstd::arithmetic::div_mod::lemma_fundamental_div_mod(b * mm, k);
    assert(q * k >= b * mm - k + 1) by (nonlinear_arith)
        requires
            b * mm == k * q + (b * mm) % k,
            (b * mm) % k < k,
    ;
    assert(q <= mm) by (nonlinear_arith)
        requires
            q * k <= b * mm,
            b <= k,
            k >= 1,
            q >= 0,
            mm >= 0,
    ;
    assert(q * l <= a * mm) by (nonlinear_arith)
        requires
            q * k <= b * mm,
            b * l <= a * k,
            0 <= q && 0 <= b && 0 <= a && 0 <= mm,
            1 <= l,
            k == 65536,
    ;
    let u = q * k * l;
    let w = mm + k;
    let slack = 2 * k * mm * w + w * w;
    assert(u + l * w >= a * k * mm) by (nonlinear_arith)
        requires
            u == q * k * l,
            q * k >= b * mm - k + 1,
            b * l >= a * k - l + 1,
            0 <= q && 0 <= b && 0 <= a && 0 <= mm,
            1 <= l,
            k == 65536,
            w == mm + k,
    ;
    if a * k * mm >= l * w {
        let vv = a * k * mm - l * w;
        assert(u * u >= vv * vv) by (nonlinear_arith)
            requires
                u >= vv,
                vv >= 0,
        ;
        assert(vv * vv + (l * l) * slack >= ((a * a) * (k * k)) * (mm * mm)) by (nonlinear_arith)
            requires
                vv == a * k * mm - l * w,
                slack == 2 * k * mm * w + w * w,
                0 <= a <= l,
                0 <= mm,
                k == 65536,
                1 <= l,
                w == mm + k,
        ;
        assert(u * u == q * q * ((k * k) * (l * l))) by (nonlinear_arith)
            requires
                u == q * k * l,
        ;
    } else {
        assert(((a * a) * (k * k)) * (mm * mm) <= (l * l) * slack) by (nonlinear_arith)
            requires
                a * k * mm < l * w,
                0 <= a && 0 <= mm && 0 <= l,
                k == 65536,
                w == mm + k,
                slack == 2 * k * mm * w + w * w,
        ;
        assert(q * q * ((k * k) * (l * l)) >= 0) by (nonlinear_arith);
    }
    q
}

/// The two-sided norm bound for the random kick: a vector with length in
/// `[0.5, 1]`, normalised and scaled by `m`, has squared norm at most
/// `m^2 * 16385/16384` and at least `m^2` less small rounding terms.
proof fn lemma_kick_norm(v: Vector3D, m: int)
    requires
        1073741824 <= spec_norm_sq(v),
        spec_norm_sq(v) <= 4294967296,
        i64::MIN < m <= i64::MAX,
    ensures
        16384 * spec_norm_sq(spec_vec_scale(spec_vec_normalize(v), m)) <= 16385 * (m * m),
        (SCALE as int) * (SCALE as int) * spec_norm_sq(spec_vec_scale(spec_vec_normalize(v), m)) + (
        6 * (SCALE as int) + 3) * (m * m) + (6 * (SCALE as int) * (SCALE as int) + 6 * (
        SCALE as int)) * int_abs(m) + 3 * (SCALE as int) * (SCALE as int) >= (SCALE as int) * (
        SCALE as int) * (m * m),
{
    let k = SCALE as int;
    let s = spec_norm_sq(v);
    crate::fixed::lemma_isqrt(s);
    let l = crate::fixed::spec_isqrt(s);
    assert(l >= 32768) by (nonlinear_arith)
        requires
            s < (l + 1) * (l + 1),
            s >= 1073741824,
            l >= 0,
    ;
    assert(l <= 65536) by (nonlinear_arith)
        requires
            l * l <= s,
            s <= 4294967296,
            l >= 0,
    ;
    assert(spec_vec_len(v) == l);
    crate::fixed::lemma_abs_square(v.x as int);
    crate::fixed::lemma_abs_square(v.y as int);
    crate::fixed::lemma_abs_square(v.z as int);
    lemma_abs_in_root_range(v.x as int, s, l);
    lemma_abs_in_root_range(v.y as int, s, l);
    lemma_abs_in_root_range(v.z as int, s, l);
    let mm = int_abs(m);
    crate::fixed::lemma_abs_square(m);
    let qx = lemma_kick_component(int_abs(v.x as int), l, mm);
    let qy = lemma_kick_component(int_abs(v.y as int), l, mm);
    let qz = lemma_kick_component(int_abs(v.z as int), l, mm);
    lemma_kick_channel_matches(v.x as int, l, m, qx);
    lemma_kick_channel_matches(v.y as int, l, m, qy);
    lemma_kick_channel_matches(v.z as int, l, m, qz);
    let r = spec_vec_scale(spec_vec_normalize(v), m);
    let aa = qx * qx + qy * qy + qz * qz;
    assert(spec_norm_sq(r) == aa) by {
        crate::fixed::lemma_abs_square(r.x as int);
        crate::fixed::lemma_abs_square(r.y as int);
        crate::fixed::lemma_abs_square(r.z as int);
    }
    // Upper direction.
    assert(qx * qx * (l * l) <= (int_abs(v.x as int) * int_abs(v.x as int)) * (mm * mm))
        by (nonlinear_arith)
        requires
            qx * l <= int_abs(v.x as int) * mm,
            0 <= qx && 0 <= l && 0 <= int_abs(v.x as int) && 0 <= mm,
    ;
    assert(qy * qy * (l * l) <= (int_abs(v.y as int) * int_abs(v.y as int)) * (mm * mm))
        by (nonlinear_arith)
        requires
            qy * l <= int_abs(v.y as int) * mm,
            0 <= qy && 0 <= l && 0 <= int_abs(v.y as int) && 0 <= mm,
    ;
    assert(qz * qz * (l * l) <= (int_abs(v.z as int) * int_abs(v.z as int)) * (mm * mm))
        by (nonlinear_arith)
        requires
            qz * l <= int_abs(v.z as int) * mm,
            0 <= qz && 0 <= l && 0 <= int_abs(v.z as int) && 0 <= mm,
    ;
    assert(aa * (l * l) <= s * (mm * mm)) by (nonlinear_arith)
        requires
            qx * qx * (l * l) <= (int_abs(v.x as int) * int_abs(v.x as int)) * (mm * mm),
            qy * qy * (l * l) <= (int_abs(v.y as int) * int_abs(v.y as int)) * (mm * mm),
            qz * qz * (l * l) <= (int_abs(v.z as int) * int_abs(v.z as int)) * (mm * mm),
            aa == qx * qx + qy * qy + qz * qz,
            s == int_abs(v.x as int) * int_abs(v.x as int) + int_abs(v.y as int) * int_abs(
                v.y as int,
            ) + int_abs(v.z as int) * int_abs(v.z as int),
    ;
    assert(16384 * aa <= 16385 * (mm * mm)) by (nonlinear_arith)
        requires
            aa * (l * l) <= s * (mm * mm),
            s < (l + 1) * (l + 1),
            32768 <= l,
            0 <= aa,
            0 <= mm,
    ;
    // Lower direction: sum the component bounds, then cancel the common
    // factor of l * l.
    let w = mm + k;
    let slack = 2 * k * mm * w + w * w;
    let kk = k * k;
    let ll = l * l;
    let m2 = mm * mm;
    assert(ll >= 1 && kk >= 1 && m2 >= 0) by (nonlinear_arith)
        requires
            l >= 32768,
            k == 65536,
            ll == l * l,
            kk == k * k,
            m2 == mm * mm,
    ;
    let ax = int_abs(v.x as int);
    let ay = int_abs(v.y as int);
    let az = int_abs(v.z as int);
    assert(aa * (kk * ll) == qx * qx * (kk * ll) + qy * qy * (kk * ll) + qz * qz * (kk * ll))
        by (nonlinear_arith)
        requires
            aa == qx * qx + qy * qy + qz * qz,
    ;
    assert((s * kk) * m2 == ((ax * ax) * kk) * m2 + ((ay * ay) * kk) * m2 + ((az * az) * kk) * m2)
        by (nonlinear_arith)
        requires
            s == ax * ax + ay * ay + az * az,
    ;
    assert(aa * (kk * ll) + 3 * (ll * slack) >= (s * kk) * m2);
    assert((s * kk) * m2 >= (ll * kk) * m2) by (nonlinear_arith)
        requires
            s >= ll,
            0 <= kk,
            0 <= m2,
    ;
    let lower_lhs = aa * kk + 3 * slack;
    let lower_rhs = kk * m2;
    assert(ll * lower_lhs == aa * (kk * ll) + 3 * (ll * slack)) by (nonlinear_arith)
        requires
            lower_lhs == aa * kk + 3 * slack,
    ;
    assert(ll * lower_rhs == (ll * kk) * m2) by (nonlinear_arith)
        requires
            lower_rhs == kk * m2,
    ;
    assert(lower_lhs >= lower_rhs) by (nonlinear_arith)
        requires
            ll * lower_lhs >= ll * lower_rhs,
            ll >= 1,
    ;
    assert(3 * slack == (6 * k + 3) * (mm * mm) + (6 * k * k + 6 * k) * mm + 3 * (k * k))
        by (nonlinear_arith)
        requires
            slack == 2 * k * mm * (mm + k) + (mm + k) * (mm + k),
    ;
}

/// The spec-level channel of `scale(normalize(v), m)` has exactly the
/// magnitude that `lemma_kick_component` computes.
proof fn lemma_kick_channel_matches(xi: int, l: int, m: int, q: int)
    requires
        32768 <= l <= 65536,
        int_abs(xi) <= l,
        i64::MIN <= xi <= i64::MAX,
        i64::MIN < m <= i64::MAX,
        q == (((int_abs(xi) * (SCALE as int)) / l) * int_abs(m)) / (SCALE as int),
        0 <= q <= int_abs(m),
    ensures
        int_abs(spec_mul_fx(spec_div_fx(xi, l) as i64 as int, m) as i64 as int) == q,
{
    let k = SCALE as int;
    let a = int_abs(xi);
    crate::fixed::lemma_abs_mul(xi, k);
    crate::fixed::lemma_div_bound(a * k, l);
    let b = (a * k) / l;
    assert(b <= k) by (nonlinear_arith)
        requires
            b * l <= a * k,
            a <= l,
            l >= 1,
            b >= 0,
            k >= 1,
    ;
    let n = spec_div_fx(xi, l);
    assert(int_abs(n) == b);
    assert(n as i64 as int == n);
    crate::fixed::lemma_abs_mul(n as i64 as int, m);
    crate::fixed::lemma_div_bound(b * int_abs(m), k);
    assert((b * int_abs(m)) / k <= int_abs(m)) by (nonlinear_arith)
        requires
            ((b * int_abs(m)) / k) * k <= b * int_abs(m),
            b <= k,
            k >= 1,
            (b * int_abs(m)) / k >= 0,
            int_abs(m) >= 0,
    ;
    assert(int_abs(spec_mul_fx(n, m)) == (b * int_abs(m)) / k);
    assert(spec_mul_fx(n, m) as i64 as int == spec_mul_fx(n, m));
}

/// Normalising a vector whose components lie within one unit keeps every
/// component within one unit.
proof fn lemma_normalize_small_is_bounded(v: Vector3D)
    requires
        1 <= spec_norm_sq(v),
        spec_norm_sq(v) <= (SCALE as int) * (SCALE as int),
    ensures
        int_abs(spec_vec_normalize(v).x as int) <= SCALE as int,
        int_abs(spec_vec_normalize(v).y as int) <= SCALE as int,
        int_abs(spec_vec_normalize(v).z as int) <= SCALE as int,
{
    let s = spec_norm_sq(v);
    lemma_isqrt(s);
    let root = spec_isqrt(s);
    assert(root >= 1) by (nonlinear_arith)
        requires
            s >= 1,
            root >= 0,
            s < (root + 1) * (root + 1),
    ;
    assert(root <= SCALE as int) by (nonlinear_arith)
        requires
            root * root <= s,
            s <= (SCALE as int) * (SCALE as int),
            root >= 0,
    ;
    let l = spec_vec_len(v);
    assert(l == root);
    crate::fixed::lemma_abs_square(v.x as int);
    crate::fixed::lemma_abs_square(v.y as int);
    crate::fixed::lemma_abs_square(v.z as int);
    lemma_normalize_component(v.x as int, s, root);
    lemma_normalize_component(v.y as int, s, root);
    lemma_normalize_component(v.z as int, s, root);
}

/// One component of a normalised vector has magnitude at most `SCALE`.
proof fn lemma_normalize_component(ci: int, s: int, root: int)
    requires
        1 <= root,
        ci * ci <= s,
        s < (root + 1) * (root + 1),
    ensures
        int_abs(spec_div_fx(ci, root) as i64 as int) <= SCALE as int,
{
    lemma_abs_in_root_range(ci, s, root);
    crate::fixed::lemma_abs_mul(ci, SCALE as int);
    crate::fixed::lemma_div_bound(int_abs(ci) * (SCALE as int), root);
    let q = (int_abs(ci) * (SCALE as int)) / root;
    assert(q <= SCALE as int) by (nonlinear_arith)
        requires
            q * root <= int_abs(ci) * (SCALE as int),
            int_abs(ci) <= root,
            root >= 1,
            q >= 0,
    ;
}

/// Scaling a componentwise-unit vector by `m` keeps every component within
/// `|m|`.
proof fn lemma_scale_of_unit_bounded(u: Vector3D, m: int)
    requires
        int_abs(u.x as int) <= SCALE as int,
        int_abs(u.y as int) <= SCALE as int,
        int_abs(u.z as int) <= SCALE as int,
        i64::MIN <= m <= i64::MAX,
    ensures
        int_abs(spec_vec_scale(u, m).x as int) <= int_abs(m),
        int_abs(spec_vec_scale(u, m).y as int) <= int_abs(m),
        int_abs(spec_vec_scale(u, m).z as int) <= int_abs(m),
{
    lemma_mul_fx_unit_bound(u.x as int, m);
    lemma_mul_fx_unit_bound(u.y as int, m);
    lemma_mul_fx_unit_bound(u.z as int, m);
}

/// `|a| <= SCALE` implies `|a * b / SCALE| <= |b|` for the saturating
/// fixed-point product.
proof fn lemma_mul_fx_unit_bound(a: int, b: int)
    requires
        int_abs(a) <= SCALE as int,
    ensures
        int_abs(spec_mul_fx(a, b)) <= int_abs(b),
{
    crate::fixed::lemma_abs_mul(a, b);
    assert(int_abs(a) * int_abs(b) <= (SCALE as int) * int_abs(b)) by (nonlinear_arith)
        requires
            int_abs(a) <= SCALE as int,
            int_abs(b) >= 0,
    ;
    crate::fixed::lemma_div_bound(int_abs(a * b), SCALE as int);
    let q = int_abs(a * b) / (SCALE as int);
    assert(q <= int_abs(b)) by (nonlinear_arith)
        requires
            q * (SCALE as int) <= int_abs(a * b),
            int_abs(a * b) <= (SCALE as int) * int_abs(b),
            q >= 0,
    ;
}

/// Law: normalising a unit vector is the identity, and its length is exactly
/// one — for every vector whose exact squared norm equals `SCALE * SCALE`
/// (the fixed-point encoding of 1), `vec_normalize` returns the vector
/// unchanged and `vec_get_length` returns exactly `SCALE`.
pub proof fn lemma_normalize_unit_exact(v: Vector3D)
    requires
        spec_norm_sq(v) == (SCALE as int) * (SCALE as int),
    ensures
        spec_vec_len(v) == SCALE as int,
        spec_vec_normalize(v) == v,
        spec_vec_len(spec_vec_normalize(v)) == SCALE as int,
{
    let s = spec_norm_sq(v);
    crate::fixed::lemma_isqrt_unique(s, SCALE as int);
    assert(spec_vec_len(v) == SCALE as int);
    lemma_div_fx_by_scale(v.x as int);
    lemma_div_fx_by_scale(v.y as int);
    lemma_div_fx_by_scale(v.z as int);
    assert(spec_vec_normalize(v) == v);
}

/// Dividing by the fixed-point unit is the identity.
proof fn lemma_div_fx_by_scale(ci: int)
    requires
        i64::MIN <= ci <= i64::MAX,
    ensures
        spec_div_fx(ci, SCALE as int) == ci,
{
    crate::fixed::lemma_abs_mul(ci, SCALE as int);
    vstd::arithmetic::div_mod::lemma_div_multiples_vanish(int_abs(ci), SCALE as int);
    assert((SCALE as int) * int_abs(ci) == int_abs(ci) * (SCALE as int)) by (nonlinear_arith);
    assert(((ci * (SCALE as int)) < 0) <==> ci < 0) by (nonlinear_arith);
}

/// Law: the dot product of a vector with itself agrees with the square of its
/// length up to fixed-point rounding.  For every vector whose components stay
/// below `2^38` in magnitude (so no saturation occurs), the fixed-point square
/// of the length is within two units below `dot(v, v)` and
/// `2 * (length / SCALE) + 3` units above it.
pub proof fn lemma_dot_matches_length_squared(v: Vector3D)
    requires
        int_abs(v.x as int) <= 0x4000000000,
        int_abs(v.y as int) <= 0x4000000000,
        int_abs(v.z as int) <= 0x4000000000,
    ensures
        spec_mul_fx(spec_vec_len(v), spec_vec_len(v)) <= spec_vec_dot(v, v) + 2,
        spec_vec_dot(v, v) <= spec_mul_fx(spec_vec_len(v), spec_vec_len(v)) + 2 * (spec_vec_len(v)
            / (SCALE as int)) + 3,
{
    let k = SCALE as int;
    let s = spec_norm_sq(v);
    let tx = lemma_square_term(v.x as int);
    let ty = lemma_square_term(v.y as int);
    let tz = lemma_square_term(v.z as int);
    let d = spec_vec_dot(v, v);
    assert(d == tx + ty + tz);
    assert(d * k <= s < d * k + 3 * k) by (nonlinear_arith)
        requires
            s == (v.x as int) * (v.x as int) + (v.y as int) * (v.y as int) + (v.z as int)
                * (v.z as int),
            tx * k <= (v.x as int) * (v.x as int) < tx * k + k,
            ty * k <= (v.y as int) * (v.y as int) < ty * k + k,
            tz * k <= (v.z as int) * (v.z as int) < tz * k + k,
            d == tx + ty + tz,
    ;
    crate::fixed::lemma_isqrt(s);
    let root = crate::fixed::spec_isqrt(s);
    assert(root < 0x8000000000) by (nonlinear_arith)
        requires
            root * root <= s,
            s < 0x8000000000int * 0x8000000000int,
            root >= 0,
    ;
    let l = spec_vec_len(v);
    assert(l == root);
    // Upper direction: l * l / k <= d + 2.
    crate::fixed::lemma_abs_mul(l, l);
    vstd::arithmetic::div_mod::lemma_div_is_ordered(l * l, s, k);
    vstd::arithmetic::div_mod::lemma_div_is_ordered(s, d * k + 3 * k - 1, k);
    vstd::arithmetic::div_mod::lemma_div_multiples_vanish_fancy(d + 2, k - 1, k);
    assert(k * (d + 2) + (k - 1) == d * k + 3 * k - 1) by (nonlinear_arith);
    assert((l * l) / k <= d + 2);
    assert(spec_mul_fx(l, l) == (l * l) / k) by {
        assert((l * l) / k >= 0 && (l * l) / k <= (0x8000000000int * 0x8000000000int) / k)
            by (nonlinear_arith)
            requires
                0 <= l * l <= 0x8000000000int * 0x8000000000int,
                k == SCALE as int,
        ;
    }
    // Lower direction: d <= l * l / k + 2 * (l / k) + 3.
    assert(s <= l * l + 2 * l) by (nonlinear_arith)
        requires
            s < (l + 1) * (l + 1),
    ;
    vstd::arithmetic::div_mod::lemma_div_multiples_vanish(d, k);
    assert(k * d == d * k) by (nonlinear_arith);
    vstd::arithmetic::div_mod::lemma_div_is_ordered(d * k, s, k);
    vstd::arithmetic::div_mod::lemma_div_is_ordered(s, l * l + 2 * l, k);
    lemma_floor_div_split(l * l, 2 * l, k);
    vstd::arithmetic::div_mod::lemma_fundamental_div_mod(l, k);
    let lq = l / k;
    assert((2 * l) / k <= 2 * lq + 1) by {
        vstd::arithmetic::div_mod::lemma_div_multiples_vanish_fancy(2 * lq + 1, k - 1, k);
        assert(k * (2 * lq + 1) + (k - 1) == 2 * (k * lq) + 2 * k - 1) by (nonlinear_arith);
        assert(2 * l <= 2 * (k * lq) + 2 * (k - 1)) by (nonlinear_arith)
            requires
                l == k * lq + l % k,
                l % k <= k - 1,
        ;
        vstd::arithmetic::div_mod::lemma_div_is_ordered(2 * l, 2 * (k * lq) + 2 * k - 1, k);
    }
    assert(d <= spec_mul_fx(l, l) + 2 * lq + 3);
}

/// The fixed-point square of a moderate component, with its rounding bounds.
proof fn lemma_square_term(ci: int) -> (t: int)
    requires
        int_abs(ci) <= 0x4000000000,
    ensures
        t == spec_mul_fx(ci, ci),
        t * (SCALE as int) <= ci * ci < t * (SCALE as int) + SCALE as int,
        0 <= t <= 0x1000000000000000,
{
    let k = SCALE as int;
    crate::fixed::lemma_abs_square(ci);
    assert(ci * ci <= 0x4000000000int * 0x4000000000int) by (nonlinear_arith)
        requires
            int_abs(ci) <= 0x4000000000,
            ci * ci == int_abs(ci) * int_abs(ci),
    ;
    let t = (ci * ci) / k;
    vstd::arithmetic::div_mod::lemma_fundamental_div_mod(ci * ci, k);
    crate::fixed::lemma_div_bound(ci * ci, k);
    vstd::arithmetic::div_mod::lemma_div_is_ordered(ci * ci, 0x4000000000int * 0x4000000000int, k);
    assert(0x4000000000int * 0x4000000000int == 0x1000000000000000int * 0x10000int);
    vstd::arithmetic::div_mod::lemma_div_by_multiple(0x1000000000000000int, 0x10000int);
    assert(t * k <= ci * ci < t * k + k) by (nonlinear_arith)
        requires
            ci * ci == k * t + (ci * ci) % k,
            0 <= (ci * ci) % k < k,
    ;
    t
}

/// Floor division splits over a sum with at most one unit of loss.
proof fn lemma_floor_div_split(a: int, b: int, k: int)
    requires
        a >= 0,
        b >= 0,
        k >= 1,
    ensures
        (a + b) / k <= a / k + b / k + 1,
{
    vstd::arithmetic::div_mod::lemma_fundamental_div_mod(a, k);
    vstd::arithmetic::div_mod::lemma_fundamental_div_mod(b, k);
    let qa = a / k;
    let qb = b / k;
    assert(a + b <= k * (qa + qb + 1) + (k - 1)) by (nonlinear_arith)
        requires
            a == k * qa + a % k,
            b == k * qb + b % k,
            a % k <= k - 1,
            b % k <= k - 1,
    ;
    vstd::arithmetic::div_mod::lemma_div_multiples_vanish_fancy(qa + qb + 1, k - 1, k);
    vstd::arithmetic::div_mod::lemma_div_is_ordered(a + b, k * (qa + qb + 1) + (k - 1), k);
}

/// Law: the cross product is antisymmetric — for all vectors whose components
/// stay below `2^38` in magnitude (so no saturation occurs),
/// `cross(u, v) == -cross(v, u)`, componentwise and exactly.
pub proof fn lemma_cross_antisymmetric(u: Vector3D, v: Vector3D)
    requires
        int_abs(u.x as int) <= 0x4000000000,
        int_abs(u.y as int) <= 0x4000000000,
        int_abs(u.z as int) <= 0x4000000000,
        int_abs(v.x as int) <= 0x4000000000,
        int_abs(v.y as int) <= 0x4000000000,
        int_abs(v.z as int) <= 0x4000000000,
    ensures
        spec_vec_cross(u, v).x == spec_neg_fx(spec_vec_cross(v, u).x as int),
        spec_vec_cross(u, v).y == spec_neg_fx(spec_vec_cross(v, u).y as int),
        spec_vec_cross(u, v).z == spec_neg_fx(spec_vec_cross(v, u).z as int),
{
    lemma_cross_component(u.y as int, v.z as int, u.z as int, v.y as int);
    lemma_cross_component(u.z as int, v.x as int, u.x as int, v.z as int);
    lemma_cross_component(u.x as int, v.y as int, u.y as int, v.x as int);
}

/// One component of the antisymmetry law: with bounded inputs,
/// `a * b - c * d` and `d * c - b * a` are exact negations in fixed point.
proof fn lemma_cross_component(a: int, b: int, c: int, d: int)
    requires
        int_abs(a) <= 0x4000000000,
        int_abs(b) <= 0x4000000000,
        int_abs(c) <= 0x4000000000,
        int_abs(d) <= 0x4000000000,
    ensures
        spec_sub_fx(spec_mul_fx(a, b), spec_mul_fx(c, d)) == spec_neg_fx(
            spec_sub_fx(spec_mul_fx(d, c), spec_mul_fx(b, a)),
        ),
{
    let k = SCALE as int;
    lemma_mul_fx_moderate_bound(a, b);
    lemma_mul_fx_moderate_bound(c, d);
    assert(a * b == b * a) by (nonlinear_arith);
    assert(c * d == d * c) by (nonlinear_arith);
}

/// With both factors below `2^38` in magnitude, the fixed-point product does
/// not saturate and its magnitude stays below `2^60`.
proof fn lemma_mul_fx_moderate_bound(a: int, b: int)
    requires
        int_abs(a) <= 0x4000000000,
        int_abs(b) <= 0x4000000000,
    ensures
        spec_mul_fx(a, b) == trunc_div(a * b, SCALE as int),
        int_abs(spec_mul_fx(a, b)) <= 0x1000000000000000,
{
    let k = SCALE as int;
    crate::fixed::lemma_abs_mul(a, b);
    assert(int_abs(a) * int_abs(b) <= 0x4000000000int * 0x4000000000int) by (nonlinear_arith)
        requires
            0 <= int_abs(a) <= 0x4000000000,
            0 <= int_abs(b) <= 0x4000000000,
    ;
    crate::fixed::lemma_div_bound(int_abs(a * b), k);
    vstd::arithmetic::div_mod::lemma_div_is_ordered(
        int_abs(a * b),
        0x4000000000int * 0x4000000000int,
        k,
    );
    assert(0x4000000000int * 0x4000000000int == 0x1000000000000000int * 0x10000int);
    vstd::arithmetic::div_mod::lemma_div_by_multiple(0x1000000000000000int, 0x10000int);
}

/// Elementwise product with the all-ones colour is the identity.
pub proof fn lemma_vec_hadamard_ones(v: Vector3D)
    ensures
        spec_vec_hadamard(Vector3D { x: SCALE, y: SCALE, z: SCALE }, v) == v,
{
    lemma_mul_fx_scale_identity(v.x as int);
    lemma_mul_fx_scale_identity(v.y as int);
    lemma_mul_fx_scale_identity(v.z as int);
}

/// Multiplying by the fixed-point unit is the identity.
proof fn lemma_mul_fx_scale_identity(ci: int)
    requires
        i64::MIN <= ci <= i64::MAX,
    ensures
        spec_mul_fx(SCALE as int, ci) == ci,
{
    crate::fixed::lemma_abs_mul(SCALE as int, ci);
    vstd::arithmetic::div_mod::lemma_div_multiples_vanish(int_abs(ci), SCALE as int);
    assert((SCALE as int) * int_abs(ci) == int_abs(SCALE as int) * int_abs(ci));
    assert(((SCALE as int) * ci < 0) <==> ci < 0) by (nonlinear_arith);
}

/// Adding the zero vector is the identity.
pub proof fn lemma_vec_sum_zero(v: Vector3D)
    ensures
        spec_vec_sum(Vector3D { x: 0i64, y: 0i64, z: 0i64 }, v) == v,
{
}

} // verus!
