//! Materials and colour conversion.
//!
//! Colours are `Vector3D` values with one channel per component and 1.0 ==
//! `SCALE`.  The sRGB encoding implements the standard piecewise curve — a
//! linear segment below the 0.0031308 knee and `1.055 * l^(1/2.4) - 0.055`
//! above it — entirely in integer arithmetic: the twelfth root is a cube root
//! followed by two square roots.

use vstd::prelude::*;

use crate::fixed::{
    SCALE, icbrt_u128, isqrt_u128, lemma_icbrt_unique, lemma_isqrt_unique, spec_icbrt, spec_isqrt,
};
use crate::vector3d::Vector3D;

verus! {

/// Surface behaviour: how a hit attenuates, emits and scatters light.
#[derive(Clone, Copy, PartialEq, Eq, Structural, Debug)]
pub struct Material {
    pub base_color: Vector3D,
    pub emission_color: Vector3D,
    /// Spread of the random kick added to mirror reflections, 1.0 == `SCALE`.
    pub roughness: i64,
    /// How much light passes the base-colour absorption unattenuated.
    pub metallic: i64,
}

impl Material {
    pub fn new(base: Vector3D, emit: Vector3D, roughness: i64, metallic: i64) -> (r: Material)
        ensures
            r == (Material {
                base_color: base,
                emission_color: emit,
                roughness,
                metallic,
            }),
    {
        Material { base_color: base, emission_color: emit, roughness, metallic }
    }

    /// A matte material: no emission, moderate roughness.
    pub fn new_base(base: Vector3D) -> (r: Material)
        ensures
            r == (Material {
                base_color: base,
                emission_color: Vector3D { x: 0i64, y: 0i64, z: 0i64 },
                roughness: 16384i64,
                metallic: 0i64,
            }),
    {
        Material::new(base, Vector3D::new_as_zero(), 16384, 0)
    }

    /// A light source: emits its own colour, high roughness.
    pub fn new_light(emit: Vector3D) -> (r: Material)
        ensures
            r == (Material {
                base_color: emit,
                emission_color: emit,
                roughness: 52429i64,
                metallic: 0i64,
            }),
    {
        Material::new(emit, emit, 52429, 0)
    }
}

/// One byte of an 8-bit colour, mapped into the fixed-point unit interval.
pub open spec fn spec_channel_from_byte(b: int) -> int {
    (b * (SCALE as int)) / 255
}

/// Converts three 8-bit channel values into a linear fixed-point colour.
pub fn float_color_from_bytes(r: u8, g: u8, b: u8) -> (c: Vector3D)
    ensures
        c.x == spec_channel_from_byte(r as int),
        c.y == spec_channel_from_byte(g as int),
        c.z == spec_channel_from_byte(b as int),
{
    Vector3D {
        x: ((r as u64 * SCALE as u64) / 255) as i64,
        y: ((g as u64 * SCALE as u64) / 255) as i64,
        z: ((b as u64 * SCALE as u64) / 255) as i64,
    }
}

/// A fixed-point channel reduced to an 8-bit value, rounded to nearest (so
/// that byte -> linear colour -> byte round-trips): negative values clamp to
/// zero, values above one clamp to 255.
pub open spec fn spec_channel_to_byte(x: int) -> int {
    if x < 0 {
        0
    } else if (x * 255 + 32768) / (SCALE as int) > 255 {
        255
    } else {
        (x * 255 + 32768) / (SCALE as int)
    }
}

fn channel_to_byte(x: i64) -> (r: u32)
    ensures
        r == spec_channel_to_byte(x as int),
        r <= 255,
{
    if x < 0 {
        return 0;
    }
    let t: u128 = ((x as u128) * 255 + 32768) / (SCALE as u128);
    if t > 255 {
        255
    } else {
        t as u32
    }
}

/// Packs a colour into a `0x00RRGGBB` 24-bit pixel.
pub fn color_to_u32(c: &Vector3D) -> (r: u32)
    ensures
        r == spec_channel_to_byte(c.x as int) * 65536 + spec_channel_to_byte(c.y as int) * 256
            + spec_channel_to_byte(c.z as int),
{
    let cr: u32 = channel_to_byte(c.x);
    let cg: u32 = channel_to_byte(c.y);
    let cb: u32 = channel_to_byte(c.z);
    cr * 65536 + cg * 256 + cb
}

/// The integer sRGB transfer curve on one channel, clamped into `[0, SCALE]`.
///
/// Below the knee (0.0031308, here 205 fixed-point units) the curve is the
/// linear ramp `12.92 * l`; above it, `1.055 * l^(1/2.4) - 0.055`, with the
/// twelfth root of `l^5` computed as a cube root followed by two square
/// roots, every step rounded down.
pub open spec fn spec_gamma_channel(x: int) -> int {
    let k = SCALE as int;
    let l = if x > k {
        k
    } else if x < 0 {
        0
    } else {
        x
    };
    if l <= 205 {
        (l * 846725) / k
    } else {
        let c = spec_icbrt(l * l * l * l * l * k);
        let y = spec_isqrt(spec_isqrt(c * k * k));
        let g = (y * 69140) / k - 3604;
        if g > k {
            k
        } else if g < 0 {
            0
        } else {
            g
        }
    }
}

fn gamma_correct(x: i64) -> (r: i64)
    ensures
        r == spec_gamma_channel(x as int),
        0 <= r <= SCALE,
{
    let l: i64 = if x > SCALE {
        SCALE
    } else if x < 0 {
        0
    } else {
        x
    };
    if l <= 205 {
        return (((l as u64) * 846725) / (SCALE as u64)) as i64;
    }
    if l == SCALE {
        proof {
            lemma_icbrt_unique(
                65536int * 65536int * 65536int * 65536int * 65536int * 65536int,
                4294967296int,
            );
            lemma_isqrt_unique(4294967296int * 65536int * 65536int, 4294967296int);
            lemma_isqrt_unique(4294967296int, 65536int);
        }
        return SCALE;
    }
    let lu: u128 = l as u128;
    proof {
        assert(lu * lu < 0x100000000u128 && lu * lu * lu < 0x1000000000000u128 && lu * lu * lu
            * lu < 0x10000000000000000u128 && lu * lu * lu * lu * lu
            < 0x100000000000000000000u128) by (nonlinear_arith)
            requires
                lu < 0x10000u128,
        ;
    }
    let l5k: u128 = lu * lu * lu * lu * lu * (SCALE as u128);
    let c: u128 = icbrt_u128(l5k);
    proof {
        crate::fixed::lemma_icbrt(l5k as int);
        assert(c < 0x100000000u128) by (nonlinear_arith)
            requires
                (c as int) * (c as int) * (c as int) <= l5k as int,
                (l5k as int) < 0x1000000000000000000000000int,
                c >= 0,
        ;
    }
    let ckk: u128 = c * (SCALE as u128) * (SCALE as u128);
    let s1: u128 = isqrt_u128(ckk);
    proof {
        crate::fixed::lemma_isqrt(ckk as int);
        assert(s1 < 0x100000000u128) by (nonlinear_arith)
            requires
                (s1 as int) * (s1 as int) <= ckk as int,
                (ckk as int) < 0x10000000000000000int,
                s1 >= 0,
        ;
    }
    let y: u128 = isqrt_u128(s1);
    proof {
        crate::fixed::lemma_isqrt(s1 as int);
        assert(y < 0x10000000u128) by (nonlinear_arith)
            requires
                (y as int) * (y as int) <= s1 as int,
                (s1 as int) < 0x100000000u128,
                y >= 0,
        ;
    }
    let t: i64 = ((y * 69140) / (SCALE as u128)) as i64;
    let g: i64 = t - 3604;
    if g > SCALE {
        SCALE
    } else if g < 0 {
        0
    } else {
        g
    }
}

/// Converts a linear colour to its sRGB encoding, channel by channel.
pub fn linear_color_to_srgb(color: &Vector3D) -> (r: Vector3D)
    ensures
        r.x == spec_gamma_channel(color.x as int),
        r.y == spec_gamma_channel(color.y as int),
        r.z == spec_gamma_channel(color.z as int),
        0 <= r.x <= SCALE && 0 <= r.y <= SCALE && 0 <= r.z <= SCALE,
{
    Vector3D {
        x: gamma_correct(color.x),
        y: gamma_correct(color.y),
        z: gamma_correct(color.z),
    }
}

} // verus!
