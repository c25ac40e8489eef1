//! A small path-tracing renderer over verified fixed-point arithmetic.
//!
//! The scene (`World`) is an immutable aggregate of materials, primitives and
//! point lights; `trace` walks a ray through it, bounce by bounce, and
//! returns a radiance estimate whose magnitude is provably clamped.  The
//! scheduler in [`render`] splits the frame buffer into slices that provably
//! cover every pixel exactly once.

pub mod fixed;
pub mod rng;
pub mod vector3d;
pub mod color;
pub mod geometry;
pub mod camera;
pub mod render;
pub mod loaders;

use vstd::prelude::*;

use crate::color::Material;
use crate::fixed::{
    SCALE, add_fx, div_fx, mul_fx, spec_add_fx, spec_div_fx, spec_mul_fx, spec_sub_fx, sub_fx,
};
use crate::geometry::{
    Line, Primitive, spec_line_point, spec_primitive_intersects, spec_primitive_material,
    spec_primitive_normal,
};
use crate::rng::Sampler;
use crate::vector3d::{
    Vector3D, spec_norm_sq, spec_vec_clamp_len, spec_vec_dot, spec_vec_hadamard, spec_vec_len,
    spec_vec_normalize, spec_vec_scale, spec_vec_sub, spec_vec_sum, vec_clamp_length, vec_dot,
    vec_get_length, vec_hadamard, vec_multiplication, vec_normalize, vec_sub, vec_sum,
};

verus! {

/// Radiance magnitudes are clamped to 1.73 (the diagonal of the unit RGB
/// cube) in Q16.16.
pub const RADIANCE_LIMIT: i64 = 113377;

/// 0.5 in Q16.16.
pub const HALF_SCALE: i64 = 32768;

/// 0.25 in Q16.16.
pub const QUARTER_SCALE: i64 = 16384;

/// 0.1 in Q16.16: the floor of the diffuse light coefficient.
pub const ONE_TENTH_SCALE: i64 = 6554;

/// A point light with linear range falloff.
#[derive(Clone, Copy, PartialEq, Eq, Structural, Debug)]
pub struct PointLight {
    pub position: Vector3D,
    pub color: Vector3D,
    pub range: i64,
}

impl PointLight {
    pub fn new(pos: Vector3D, color: Vector3D, range: i64) -> (r: PointLight)
        ensures
            r == (PointLight { position: pos, color, range }),
    {
        PointLight { position: pos, color, range }
    }
}

/// The scene: materials (index 0 is the sky), primitives and lights.
/// Immutable for the duration of a render.
pub struct World {
    pub materials: Vec<Material>,
    pub primitives: Vec<Primitive>,
    pub lights: Vec<PointLight>,
}

impl World {
    /// Scene well-formedness: the sky material exists, every primitive's
    /// material index resolves, and every light has a positive range.
    pub open spec fn wf(self) -> bool {
        &&& self.materials@.len() >= 1
        &&& forall|j: int|
            0 <= j < self.primitives@.len() ==> 0 <= spec_primitive_material(
                #[trigger] self.primitives@[j],
            ) < self.materials@.len()
        &&& forall|j: int| 0 <= j < self.lights@.len() ==> (#[trigger] self.lights@[j]).range > 0
    }

    /// What a ray that escapes the scene contributes: the sky material's
    /// emission.
    pub open spec fn sky_emission(self) -> Vector3D {
        self.materials@[0].emission_color
    }

    pub fn new() -> (r: World)
        ensures
            r.materials@.len() == 0,
            r.primitives@.len() == 0,
            r.lights@.len() == 0,
    {
        World { materials: Vec::new(), primitives: Vec::new(), lights: Vec::new() }
    }
}

/// No primitive of `prims` intersects the ray `l`.
pub open spec fn spec_misses_all(prims: Seq<Primitive>, l: Line) -> bool {
    forall|j: int| 0 <= j < prims.len() ==> spec_primitive_intersects(#[trigger] prims[j], l) is None
}

/// Whether one primitive blocks a shadow ray before the light.
pub open spec fn spec_occludes(p: Primitive, ray: Line, dist: int) -> bool {
    match spec_primitive_intersects(p, ray) {
        Option::Some(t) => t < dist,
        Option::None => false,
    }
}

/// Some primitive blocks the shadow ray before the light.
pub open spec fn spec_occluded(prims: Seq<Primitive>, ray: Line, dist: int) -> bool {
    exists|j: int| 0 <= j < prims.len() && spec_occludes(#[trigger] prims[j], ray, dist)
}

/// The record of the closest forward intersection of a ray.
#[derive(Clone, Copy, PartialEq, Eq, Structural, Debug)]
pub struct Hit {
    pub distance: i64,
    pub point: Vector3D,
    pub normal: Vector3D,
    pub material_index: usize,
}

/// The closest forward intersection of the ray over a scan of the
/// primitives: the smallest intersection distance wins, and on a tie the
/// earlier primitive keeps the hit.
pub open spec fn spec_closest_hit(prims: Seq<Primitive>, line: Line) -> Option<Hit>
    decreases prims.len(),
{
    if prims.len() == 0 {
        Option::None
    } else {
        let rest = spec_closest_hit(prims.drop_last(), line);
        match spec_primitive_intersects(prims.last(), line) {
            Option::None => rest,
            Option::Some(t) => {
                let replaces = match rest {
                    Option::None => true,
                    Option::Some(h) => t < h.distance,
                };
                if replaces {
                    let point = spec_line_point(line, t as int);
                    Option::Some(
                        Hit {
                            distance: t,
                            point,
                            normal: spec_primitive_normal(prims.last(), point),
                            material_index: spec_primitive_material(prims.last()) as usize,
                        },
                    )
                } else {
                    rest
                }
            },
        }
    }
}

/// Linear scan over all primitives for the closest intersection ahead of the
/// ray, returning exactly `spec_closest_hit` of the scene.
/// Returns `None` exactly when nothing is hit; a returned hit carries
/// the smallest intersection distance over the whole scene (the first
/// primitive wins a tie), together with the hit point, surface normal and
/// material index of the primitive that produced it.
pub fn closest_hit(world: &World, line: &Line) -> (r: Option<Hit>)
    requires
        world.wf(),
    ensures
        r == spec_closest_hit(world.primitives@, *line),
        (r is None) <==> spec_misses_all(world.primitives@, *line),
        match r {
            Option::Some(h) => {
                &&& exists|j: int|
                    0 <= j < world.primitives@.len() && spec_primitive_intersects(
                        #[trigger] world.primitives@[j],
                        *line,
                    ) == Option::Some(h.distance) && h.material_index == spec_primitive_material(
                        world.primitives@[j],
                    ) && h.point == spec_line_point(*line, h.distance as int) && h.normal
                        == spec_primitive_normal(world.primitives@[j], h.point)
                &&& forall|j: int|
                    0 <= j < world.primitives@.len() && spec_primitive_intersects(
                        #[trigger] world.primitives@[j],
                        *line,
                    ) is Some ==> h.distance <= spec_primitive_intersects(
                        world.primitives@[j],
                        *line,
                    )->Some_0
                &&& h.material_index < world.materials@.len()
            },
            Option::None => true,
        },
{
    let ghost prims = world.primitives@;
    let mut best: Option<Hit> = None;
    let ghost mut best_j: int = 0;
    let n: usize = world.primitives.len();
    let mut idx: usize = 0;
    proof {
        assert(prims.take(0) =~= Seq::<Primitive>::empty());
    }
    while idx < n
        invariant
            n == prims.len(),
            prims == world.primitives@,
            world.wf(),
            idx <= n,
            best == spec_closest_hit(prims.take(idx as int), *line),
            match best {
                Option::Some(h) => {
                    &&& 0 <= best_j < idx
                    &&& spec_primitive_intersects(prims[best_j], *line) == Option::Some(h.distance)
                    &&& h.material_index == spec_primitive_material(prims[best_j])
                    &&& h.point == spec_line_point(*line, h.distance as int)
                    &&& h.normal == spec_primitive_normal(prims[best_j], h.point)
                    &&& h.material_index < world.materials@.len()
                    &&& forall|j: int|
                        0 <= j < idx && spec_primitive_intersects(#[trigger] prims[j], *line)
                            is Some ==> h.distance <= spec_primitive_intersects(
                            prims[j],
                            *line,
                        )->Some_0
                },
                Option::None => forall|j: int|
                    0 <= j < idx ==> spec_primitive_intersects(#[trigger] prims[j], *line) is None,
            },
        decreases n - idx,
    {
        let prim: &Primitive = &world.primitives[idx];
        proof {
            assert(prims.take(idx as int + 1).drop_last() =~= prims.take(idx as int));
            assert(prims.take(idx as int + 1).last() == prims[idx as int]);
        }
        if let Some(t) = prim.intersects(line) {
            let take: bool = match &best {
                Option::Some(h) => t < h.distance,
                Option::None => true,
            };
            if take {
                let point: Vector3D = line.get_point(t);
                let normal: Vector3D = prim.get_normal(&point);
                let mat: usize = prim.get_material_index();
                best = Some(Hit { distance: t, point, normal, material_index: mat });
                proof {
                    best_j = idx as int;
                }
            }
        }
        idx = idx + 1;
    }
    proof {
        assert(prims.take(n as int) =~= prims);
    }
    best
}

/// Scans all primitives along a shadow ray for any occluder nearer than the
/// light; returns exactly whether one exists.
fn shadowed(world: &World, ray: &Line, dist: i64) -> (r: bool)
    ensures
        r == spec_occluded(world.primitives@, *ray, dist as int),
{
    let ghost prims = world.primitives@;
    let n: usize = world.primitives.len();
    let mut idx: usize = 0;
    while idx < n
        invariant
            n == prims.len(),
            prims == world.primitives@,
            idx <= n,
            forall|j: int| 0 <= j < idx ==> !spec_occludes(#[trigger] prims[j], *ray, dist as int),
        decreases n - idx,
    {
        if let Some(t) = world.primitives[idx].intersects(ray) {
            if t < dist {
                proof {
                    assert(spec_occludes(prims[idx as int], *ray, dist as int));
                }
                return true;
            }
        }
        idx = idx + 1;
    }
    false
}

/// The weighted contribution of one point light at a surface point: a
/// diffuse coefficient floored at 0.1 and quartered when the light is
/// occluded, and the light's colour scaled by its linear range falloff.
pub open spec fn spec_light_contribution(
    prims: Seq<Primitive>,
    point: Vector3D,
    normal: Vector3D,
    light: PointLight,
) -> (int, Vector3D) {
    let to_light = spec_vec_sub(light.position, point);
    let dir = spec_vec_normalize(to_light);
    let dist = spec_vec_len(to_light);
    let base = spec_add_fx(SCALE as int, spec_vec_dot(normal, dir));
    let floored = if base < ONE_TENTH_SCALE as int {
        ONE_TENTH_SCALE as int
    } else {
        base
    };
    let coef = if spec_occluded(prims, Line { origin: point, direction: dir }, dist) {
        spec_mul_fx(floored, QUARTER_SCALE as int)
    } else {
        floored
    };
    let percent = spec_div_fx(dist, light.range as int);
    let capped = if percent > SCALE as int {
        SCALE as int
    } else {
        percent
    };
    let power = spec_sub_fx(SCALE as int, capped);
    (coef, spec_vec_scale(light.color, power))
}

/// Computes one light's (coefficient, weighted colour) pair, exactly as
/// `spec_light_contribution` states it.
fn light_contribution(world: &World, point: &Vector3D, normal: &Vector3D, light: &PointLight) -> (r:
    (i64, Vector3D))
    ensures
        r.0 == spec_light_contribution(world.primitives@, *point, *normal, *light).0,
        r.1 == spec_light_contribution(world.primitives@, *point, *normal, *light).1,
{
    let to_light: Vector3D = vec_sub(&light.position, point);
    let dir: Vector3D = vec_normalize(&to_light);
    let dist: i64 = vec_get_length(&to_light);
    let base: i64 = add_fx(SCALE, vec_dot(normal, &dir));
    let floored: i64 = if base < ONE_TENTH_SCALE {
        ONE_TENTH_SCALE
    } else {
        base
    };
    let shadow_ray = Line { origin: *point, direction: dir };
    let coef: i64 = if shadowed(world, &shadow_ray, dist) {
        mul_fx(floored, QUARTER_SCALE)
    } else {
        floored
    };
    let percent: i64 = div_fx(dist, light.range);
    let capped: i64 = if percent > SCALE {
        SCALE
    } else {
        percent
    };
    let power: i64 = sub_fx(SCALE, capped);
    (coef, vec_multiplication(&light.color, power))
}

/// The direct-lighting fold: starting from an accumulated colour and a
/// coefficient of one, each light in turn adds its attenuated, weighted
/// contribution to the colour and multiplies its coefficient into the
/// running product.
pub open spec fn spec_light_pass(
    prims: Seq<Primitive>,
    lights: Seq<PointLight>,
    point: Vector3D,
    normal: Vector3D,
    atten: Vector3D,
    acc: Vector3D,
    coef: int,
) -> (Vector3D, int)
    decreases lights.len(),
{
    if lights.len() == 0 {
        (acc, coef)
    } else {
        let lc = spec_light_contribution(prims, point, normal, lights[0]);
        let diffuse = spec_vec_hadamard(lc.1, atten);
        spec_light_pass(
            prims,
            lights.drop_first(),
            point,
            normal,
            atten,
            spec_vec_sum(acc, spec_vec_scale(diffuse, lc.0)),
            spec_mul_fx(coef, lc.0),
        )
    }
}

/// One shading step at a hit, starting from accumulated colour `result0` and
/// attenuation `atten0`: the material's emission is accumulated through the
/// attenuation, the attenuation absorbs the base colour (less for metallic
/// surfaces), every light contributes, and the lights' occlusion
/// coefficients fold back into the attenuation.  Returns the new accumulated
/// colour and the new attenuation.
pub open spec fn spec_shade_result(world: World, hit: Hit, result0: Vector3D, atten0: Vector3D) -> (
    Vector3D,
    Vector3D,
) {
    let m = world.materials@[hit.material_index as int];
    let result1 = spec_vec_sum(result0, spec_vec_hadamard(atten0, m.emission_color));
    let factor = spec_sub_fx(
        SCALE as int,
        spec_add_fx(HALF_SCALE as int, spec_mul_fx(m.metallic as int, HALF_SCALE as int)),
    );
    let atten1 = spec_vec_hadamard(atten0, spec_vec_scale(m.base_color, factor));
    let folded = spec_light_pass(
        world.primitives@,
        world.lights@,
        hit.point,
        hit.normal,
        atten1,
        result1,
        SCALE as int,
    );
    (folded.0, spec_vec_scale(atten1, folded.1))
}

/// The radiance accumulated by the primary ray's first bounce: shading the
/// closest hit from zero colour and full attenuation.
pub open spec fn spec_first_bounce_radiance(world: World, line: Line) -> Vector3D {
    spec_shade_result(
        world,
        spec_closest_hit(world.primitives@, line)->Some_0,
        Vector3D { x: 0i64, y: 0i64, z: 0i64 },
        Vector3D { x: SCALE, y: SCALE, z: SCALE },
    ).0
}

/// Shades one bounce exactly as `spec_shade_result` states it, and builds
/// the next ray: the mirror reflection of `direction` about the surface
/// normal, perturbed by the given random `kick` and renormalised.
fn shade_bounce(
    world: &World,
    hit: &Hit,
    direction: &Vector3D,
    kick: &Vector3D,
    result0: &Vector3D,
    atten0: &Vector3D,
) -> (r: (Vector3D, Vector3D, Vector3D))
    requires
        world.wf(),
        hit.material_index < world.materials@.len(),
    ensures
        r.0 == spec_shade_result(*world, *hit, *result0, *atten0).0,
        r.1 == spec_shade_result(*world, *hit, *result0, *atten0).1,
        r.2 == spec_vec_normalize(
            spec_vec_sum(
                spec_vec_sub(
                    *direction,
                    spec_vec_scale(
                        hit.normal,
                        spec_add_fx(
                            spec_vec_dot(*direction, hit.normal),
                            spec_vec_dot(*direction, hit.normal),
                        ),
                    ),
                ),
                *kick,
            ),
        ),
{
    let ghost prims = world.primitives@;
    let ghost lights = world.lights@;
    let material: Material = world.materials[hit.material_index];

    // Perfect mirror reflection, perturbed by the kick.
    let refl_dot: i64 = vec_dot(direction, &hit.normal);
    let refl_coef: i64 = add_fx(refl_dot, refl_dot);
    let pure_reflection: Vector3D = vec_sub(
        direction,
        &vec_multiplication(&hit.normal, refl_coef),
    );
    let reflection: Vector3D = vec_normalize(&vec_sum(&pure_reflection, kick));

    // Emission reaches the camera through all prior attenuation.
    let mut res: Vector3D = vec_sum(result0, &vec_hadamard(atten0, &material.emission_color));

    // Absorption: more metallic surfaces attenuate less.
    let factor: i64 = sub_fx(SCALE, add_fx(HALF_SCALE, mul_fx(material.metallic, HALF_SCALE)));
    let atten: Vector3D = vec_hadamard(atten0, &vec_multiplication(&material.base_color, factor));
    let ghost res1 = res;

    // Direct lighting: every light contributes, weighted by its diffuse
    // coefficient; the coefficients fold back into the attenuation.
    let mut coef_sum: i64 = SCALE;
    let nl: usize = world.lights.len();
    let mut li: usize = 0;
    proof {
        assert(lights.skip(0) =~= lights);
    }
    while li < nl
        invariant
            world.wf(),
            prims == world.primitives@,
            lights == world.lights@,
            nl == lights.len(),
            li <= nl,
            spec_light_pass(prims, lights.skip(li as int), hit.point, hit.normal, atten, res,
                coef_sum as int) == spec_light_pass(prims, lights, hit.point, hit.normal, atten,
                res1, SCALE as int),
        decreases nl - li,
    {
        proof {
            assert(lights.skip(li as int)[0] == lights[li as int]);
            assert(lights.skip(li as int).drop_first() =~= lights.skip(li as int + 1));
        }
        let light: PointLight = world.lights[li];
        let light_term: (i64, Vector3D) = light_contribution(world, &hit.point, &hit.normal, &light);
        let diffuse: Vector3D = vec_hadamard(&light_term.1, &atten);
        res = vec_sum(&res, &vec_multiplication(&diffuse, light_term.0));
        coef_sum = mul_fx(coef_sum, light_term.0);
        li = li + 1;
    }
    proof {
        assert(lights.skip(nl as int) =~= Seq::<PointLight>::empty());
    }
    let atten_out: Vector3D = vec_multiplication(&atten, coef_sum);
    (res, atten_out, reflection)
}

/// The path-tracing kernel: walks `line` through the scene for at most
/// `max_bounces` reflections, accumulating emission and direct lighting
/// attenuated by every surface met on the way, and returns the radiance
/// estimate together with the number of bounces performed.
///
/// The contract pins down every deterministic face of the kernel: the bounce
/// count never exceeds the budget and is zero exactly when the primary ray
/// escapes (or no bounces were allowed); a ray that misses everything — in
/// particular any ray in an empty scene — yields exactly the sky emission
/// (clamped); with a one-bounce budget and a hit, the radiance is exactly
/// the first bounce's shading (the random kick only aims the discarded next
/// ray); and the returned radiance magnitude never exceeds the 1.73 clamp by
/// more than one rounding step, no matter how bright the scene is.
pub fn trace(world: &World, line: &Line, max_bounces: u32, sampler: &mut Sampler) -> (r: (
    Vector3D,
    u32,
))
    requires
        world.wf(),
    ensures
        r.1 <= max_bounces,
        spec_norm_sq(r.0) <= (RADIANCE_LIMIT as int) * (RADIANCE_LIMIT as int) + 2 * (
        RADIANCE_LIMIT as int),
        max_bounces == 0 ==> r.0 == spec_vec_clamp_len(world.sky_emission(), RADIANCE_LIMIT as int)
            && r.1 == 0,
        max_bounces > 0 ==> ((r.1 == 0) <==> spec_misses_all(world.primitives@, *line)),
        max_bounces > 0 && spec_misses_all(world.primitives@, *line) ==> r.0 == spec_vec_clamp_len(
            world.sky_emission(),
            RADIANCE_LIMIT as int,
        ) && r.1 == 0,
        max_bounces == 1 && !spec_misses_all(world.primitives@, *line) ==> r.1 == 1 && r.0
            == spec_vec_clamp_len(spec_first_bounce_radiance(*world, *line), RADIANCE_LIMIT as int),
{
    let ghost prims = world.primitives@;
    let sky: Vector3D = world.materials[0].emission_color;
    if max_bounces == 0 {
        return (vec_clamp_length(&sky, RADIANCE_LIMIT), 0);
    }
    let mut result: Vector3D = Vector3D::new_as_zero();
    let mut attenuation: Vector3D = Vector3D::new_as_one();
    let mut current: Line = Line::from(line);
    let mut bounces: u32 = 0;
    while bounces < max_bounces
        invariant_except_break
            max_bounces >= 1,
            world.wf(),
            prims == world.primitives@,
            sky == world.sky_emission(),
            bounces <= max_bounces,
            bounces == 0 ==> result == (Vector3D { x: 0i64, y: 0i64, z: 0i64 }) && attenuation == (
            Vector3D { x: SCALE, y: SCALE, z: SCALE }) && current == *line,
            bounces > 0 ==> !spec_misses_all(prims, *line),
            max_bounces == 1 && bounces == 1 ==> result == spec_first_bounce_radiance(
                *world,
                *line,
            ),
        ensures
            bounces <= max_bounces,
            (bounces == 0) ==> spec_misses_all(prims, *line) && result == world.sky_emission(),
            (bounces > 0) ==> !spec_misses_all(prims, *line),
            max_bounces == 1 && bounces == 1 ==> result == spec_first_bounce_radiance(
                *world,
                *line,
            ),
        decreases max_bounces - bounces,
    {
        match closest_hit(world, &current) {
            Option::None => {
                result = vec_sum(&result, &vec_hadamard(&attenuation, &sky));
                proof {
                    if bounces == 0 {
                        crate::vector3d::lemma_vec_hadamard_ones(sky);
                        crate::vector3d::lemma_vec_sum_zero(sky);
                    }
                }
                break ;
            },
            Option::Some(hit) => {
                // The random kick scattering the mirror reflection, scaled
                // by the material's roughness.
                let material: Material = world.materials[hit.material_index];
                let kick: Vector3D = Vector3D::new_random(material.roughness, sampler);
                let shaded: (Vector3D, Vector3D, Vector3D) = shade_bounce(
                    world,
                    &hit,
                    &current.direction,
                    &kick,
                    &result,
                    &attenuation,
                );
                result = shaded.0;
                attenuation = shaded.1;
                current = Line::new(hit.point, shaded.2);
                bounces = bounces + 1;
            },
        }
    }
    (vec_clamp_length(&result, RADIANCE_LIMIT), bounces)
}

} // verus!
