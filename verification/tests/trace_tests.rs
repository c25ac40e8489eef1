use raytracer::color::Material;
use raytracer::fixed::SCALE;
use raytracer::geometry::{Line, Primitive, Sphere};
use raytracer::rng::Sampler;
use raytracer::vector3d::Vector3D;
use raytracer::{PointLight, RADIANCE_LIMIT, World, closest_hit, trace};

fn v(x: i64, y: i64, z: i64) -> Vector3D {
    Vector3D::new(x * SCALE, y * SCALE, z * SCALE)
}

fn sky_world(sky: Vector3D) -> World {
    let mut world = World::new();
    world.materials.push(Material::new_light(sky));
    world
}

fn norm_sq(c: &Vector3D) -> i128 {
    (c.x as i128) * (c.x as i128) + (c.y as i128) * (c.y as i128) + (c.z as i128) * (c.z as i128)
}

// With no bounces allowed, trace returns the sky contribution immediately.
#[test]
fn trace_zero_bounces_returns_sky() {
    let sky = Vector3D::new(6554, 6554, 9830);
    let world = sky_world(sky);
    let mut sampler = Sampler::from_seed(1);
    let ray = Line::new(v(0, 0, 0), v(0, 0, -1));
    let (color, bounces) = trace(&world, &ray, 0, &mut sampler);
    assert_eq!(bounces, 0);
    assert_eq!(color, sky);
}

// An empty scene yields exactly the sky emission with zero bounces, for any
// ray.
#[test]
fn trace_empty_scene_returns_sky() {
    let sky = Vector3D::new(6554, 6554, 9830);
    let world = sky_world(sky);
    let mut sampler = Sampler::from_seed(2);
    let rays = [
        Line::new(v(0, 0, 0), v(0, 0, -1)),
        Line::new(v(5, -3, 2), v(1, 0, 0)),
        Line::new(v(-7, 1, 4), Vector3D::new(100, -200, 300)),
    ];
    for ray in rays.iter() {
        let (color, bounces) = trace(&world, ray, 16, &mut sampler);
        assert_eq!(bounces, 0);
        assert_eq!(color, sky);
    }
}

// Radiance is clamped to magnitude 1.73 no matter how bright the scene is.
#[test]
fn trace_clamps_pathologically_bright_sky() {
    let world = sky_world(v(100, 100, 100));
    let mut sampler = Sampler::from_seed(3);
    let ray = Line::new(v(0, 0, 0), v(0, 0, -1));
    let (color, bounces) = trace(&world, &ray, 16, &mut sampler);
    assert_eq!(bounces, 0);
    let bound = (RADIANCE_LIMIT as i128) * (RADIANCE_LIMIT as i128)
        + 2 * (RADIANCE_LIMIT as i128);
    assert!(norm_sq(&color) <= bound);
}

// The clamp also holds when rays bounce around emissive geometry.
#[test]
fn trace_clamps_bright_geometry() {
    let mut world = sky_world(v(50, 50, 50));
    world.materials.push(Material::new(v(1, 1, 1), v(80, 80, 80), 32768, 0));
    world.primitives.push(Primitive::Sphere { sphere: Sphere::new(v(0, 0, 0), SCALE, 1) });
    world.lights.push(PointLight::new(v(2, 5, 0), v(90, 90, 90), 5 * SCALE));
    let mut sampler = Sampler::from_seed(4);
    let bound = (RADIANCE_LIMIT as i128) * (RADIANCE_LIMIT as i128)
        + 2 * (RADIANCE_LIMIT as i128);
    for trial in 0..20 {
        let ray = Line::new(v(0, 0, 5), v(0, 0, -1));
        let (color, bounces) = trace(&world, &ray, 16, &mut sampler);
        assert!(bounces >= 1, "trial {trial}: primary ray should hit the sphere");
        assert!(bounces <= 16);
        assert!(norm_sq(&color) <= bound, "trial {trial}: radiance over the clamp");
    }
}

// With a one-bounce budget the radiance is deterministic: for an emissive
// sphere in an unlit scene it is exactly the material's emission, whatever
// the random kick was.
#[test]
fn trace_single_bounce_is_deterministic() {
    let mut world = sky_world(v(0, 0, 0));
    let emission = Vector3D::new(19661, 13107, 6554);  // (0.3, 0.2, 0.1)
    world.materials.push(Material::new(v(1, 1, 1), emission, 32768, 0));
    world.primitives.push(Primitive::Sphere { sphere: Sphere::new(v(0, 0, 0), SCALE, 1) });
    for seed in 0..10 {
        let mut sampler = Sampler::from_seed(seed);
        let ray = Line::new(v(0, 0, 5), v(0, 0, -1));
        let (color, bounces) = trace(&world, &ray, 1, &mut sampler);
        assert_eq!(bounces, 1);
        assert_eq!(color, emission);
    }
}

// A ray that hits geometry reports at least one bounce; bounce counts never
// exceed the budget.
#[test]
fn trace_bounce_counts() {
    let mut world = sky_world(v(0, 0, 0));
    world.materials.push(Material::new_base(v(1, 1, 1)));
    world.primitives.push(Primitive::Sphere { sphere: Sphere::new(v(0, 0, 0), SCALE, 1) });
    let mut sampler = Sampler::from_seed(5);
    let hit_ray = Line::new(v(0, 0, 5), v(0, 0, -1));
    let (_, bounces) = trace(&world, &hit_ray, 3, &mut sampler);
    assert!(bounces >= 1 && bounces <= 3);
    let miss_ray = Line::new(v(0, 0, 5), v(0, 0, 1));
    let (_, bounces) = trace(&world, &miss_ray, 3, &mut sampler);
    assert_eq!(bounces, 0);
}

// The closest of several intersected primitives wins the scan.
#[test]
fn closest_hit_picks_nearest_primitive() {
    let mut world = sky_world(v(0, 0, 0));
    world.materials.push(Material::new_base(v(1, 0, 0)));
    world.materials.push(Material::new_base(v(0, 1, 0)));
    // The far sphere comes first in the list.
    world.primitives.push(Primitive::Sphere { sphere: Sphere::new(v(0, 0, -6), SCALE, 2) });
    world.primitives.push(Primitive::Sphere { sphere: Sphere::new(v(0, 0, 0), SCALE, 1) });
    let ray = Line::new(v(0, 0, 5), v(0, 0, -1));
    let hit = closest_hit(&world, &ray).expect("the ray crosses both spheres");
    assert_eq!(hit.distance, 4 * SCALE);
    assert_eq!(hit.material_index, 1);
    assert_eq!(hit.normal, v(0, 0, 1));
    assert_eq!(hit.point, v(0, 0, 1));
}

#[test]
fn closest_hit_none_when_everything_misses() {
    let mut world = sky_world(v(0, 0, 0));
    world.materials.push(Material::new_base(v(1, 0, 0)));
    world.primitives.push(Primitive::Sphere { sphere: Sphere::new(v(0, 0, -6), SCALE, 1) });
    let ray = Line::new(v(0, 0, 5), v(0, 0, 1));
    assert!(closest_hit(&world, &ray).is_none());
}

#[test]
fn world_and_light_constructors() {
    let world = World::new();
    assert_eq!(world.materials.len(), 0);
    assert_eq!(world.primitives.len(), 0);
    assert_eq!(world.lights.len(), 0);
    let light = PointLight::new(v(2, 5, 0), Vector3D::new(58982, 58982, 58982), 5 * SCALE);
    assert_eq!(light.position, v(2, 5, 0));
    assert_eq!(light.range, 5 * SCALE);
}
