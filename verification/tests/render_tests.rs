use raytracer::camera::Camera;
use raytracer::color::{Material, linear_color_to_srgb};
use raytracer::fixed::SCALE;
use raytracer::render::{make_slices, render_slice, sample_pixel};
use raytracer::rng::Sampler;
use raytracer::vector3d::Vector3D;
use raytracer::World;

fn v(x: i64, y: i64, z: i64) -> Vector3D {
    Vector3D::new(x * SCALE, y * SCALE, z * SCALE)
}

fn sky_world(sky: Vector3D) -> World {
    let mut world = World::new();
    world.materials.push(Material::new_light(sky));
    world
}

fn test_camera() -> Camera {
    Camera::new(v(0, 2, 6), v(0, 0, 0), 2 * SCALE)
}

// Every pixel index lies in exactly one slice: no gaps, no overlap.
fn assert_exact_cover(slices: &[(usize, usize)], total: usize) {
    let mut covered = vec![0usize; total];
    for &(start, end) in slices {
        assert!(start <= end && end <= total, "slice ({start}, {end}) out of range");
        for p in start..end {
            covered[p] += 1;
        }
    }
    for (p, &count) in covered.iter().enumerate() {
        assert_eq!(count, 1, "pixel {p} covered {count} times");
    }
}

#[test]
fn slices_partition_the_frame_buffer() {
    let slices = make_slices(512 * 512, 256);
    assert_eq!(slices.len(), 256);
    assert_eq!(slices[0].0, 0);
    assert_eq!(slices[slices.len() - 1].1, 512 * 512);
    for w in slices.windows(2) {
        assert_eq!(w[0].1, w[1].0);
    }
    assert_exact_cover(&slices, 512 * 512);
}

#[test]
fn slices_spread_the_remainder() {
    let slices = make_slices(10, 3);
    assert_eq!(slices, vec![(0, 4), (4, 7), (7, 10)]);
    assert_exact_cover(&slices, 10);
}

#[test]
fn slices_survive_more_slices_than_pixels() {
    let slices = make_slices(2, 5);
    assert_eq!(slices.len(), 5);
    assert_exact_cover(&slices, 2);
}

// A shuffle permutes the slices: same multiset, and the cover is still exact.
#[test]
fn shuffled_slices_still_cover_every_pixel_once() {
    let ordered = make_slices(1000, 7);
    let mut shuffled = ordered.clone();
    let mut sampler = Sampler::from_seed(11);
    sampler.shuffle_ranges(&mut shuffled);
    assert_eq!(shuffled.len(), ordered.len());
    assert_exact_cover(&shuffled, 1000);
    let mut sorted = shuffled.clone();
    sorted.sort();
    assert_eq!(sorted, ordered);
}

// For a pixel whose rays always miss, sampling stops after exactly
// max(samples / 4, 2) consecutive no-bounce samples.
#[test]
fn early_exit_after_quarter_of_samples() {
    let sky = Vector3D::new(6554, 6554, 9830);
    let world = sky_world(sky);
    let camera = test_camera();
    let mut sampler = Sampler::from_seed(21);
    let (color, taken, bounces) =
        sample_pixel(&world, &camera, 3, 2, 8, 8, 40, 16, &mut sampler);
    assert_eq!(taken, 10);  // 40 / 4
    assert_eq!(bounces, 0);
    assert_eq!(color, sky);
}

#[test]
fn early_exit_floor_is_two_samples() {
    let sky = Vector3D::new(6554, 6554, 9830);
    let world = sky_world(sky);
    let camera = test_camera();
    let mut sampler = Sampler::from_seed(22);
    let (color, taken, bounces) =
        sample_pixel(&world, &camera, 0, 0, 8, 8, 8, 16, &mut sampler);
    assert_eq!(taken, 2);  // max(8 / 4, 2)
    assert_eq!(bounces, 0);
    assert_eq!(color, sky);
}

#[test]
fn tiny_sample_budget_runs_to_completion() {
    let world = sky_world(Vector3D::new(6554, 6554, 9830));
    let camera = test_camera();
    let mut sampler = Sampler::from_seed(23);
    let (_, taken, bounces) = sample_pixel(&world, &camera, 1, 1, 4, 4, 1, 16, &mut sampler);
    assert_eq!(taken, 1);  // the threshold (2) exceeds the budget
    assert_eq!(bounces, 0);
}

// A rendered slice reports every one of its pixels exactly once, in order.
#[test]
fn render_slice_covers_its_pixels_in_order() {
    let sky = Vector3D::new(6554, 6554, 9830);
    let world = sky_world(sky);
    let camera = test_camera();
    let mut sampler = Sampler::from_seed(31);
    let (pixels, bounces) = render_slice(&world, &camera, 5, 13, 4, 4, 8, 16, &mut sampler);
    assert_eq!(pixels.len(), 8);
    let expected = linear_color_to_srgb(&sky);
    for (k, (index, color)) in pixels.iter().enumerate() {
        assert_eq!(*index, 5 + k);
        assert_eq!(*color, expected);
    }
    assert_eq!(bounces, 0);
}

#[test]
fn camera_maps_screen_corners_symmetrically() {
    // A camera at the origin looking down -z with unit aspect.
    let camera = Camera::new(v(0, 0, 0), v(0, 0, -1), 2 * SCALE);
    assert_eq!(camera.look_direction, v(0, 0, -1));
    assert_eq!(camera.right, v(1, 0, 0));
    assert_eq!(camera.up, v(0, 1, 0));
    assert_eq!(camera.projection_plane_position, v(0, 0, -2));
    let top_left = camera.screen_point_to_projection_plane(0, 3, 0, 3);
    assert_eq!(top_left, Vector3D::new(-SCALE, SCALE, -2 * SCALE));
    let centre = camera.screen_point_to_projection_plane(1, 3, 1, 3);
    assert_eq!(centre, Vector3D::new(0, 0, -2 * SCALE));
    let bottom_right = camera.screen_point_to_projection_plane(2, 3, 2, 3);
    assert_eq!(bottom_right, Vector3D::new(SCALE, -SCALE, -2 * SCALE));
}
