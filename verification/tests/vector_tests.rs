use raytracer::RADIANCE_LIMIT;
use raytracer::fixed::SCALE;
use raytracer::rng::Sampler;
use raytracer::vector3d::{
    Vector3D, vec_clamp_length, vec_cross, vec_division, vec_dot, vec_get_length, vec_hadamard,
    vec_multiplication, vec_normalize, vec_sub, vec_sum, vec_sum_components,
};

#[test]
fn constructors() {
    assert_eq!(Vector3D::new(1, 2, 3), Vector3D { x: 1, y: 2, z: 3 });
    assert_eq!(Vector3D::new_as_zero(), Vector3D { x: 0, y: 0, z: 0 });
    assert_eq!(Vector3D::new_as_one(), Vector3D { x: SCALE, y: SCALE, z: SCALE });
}

#[test]
fn componentwise_operations() {
    let u = Vector3D::new(SCALE, 2 * SCALE, -SCALE);
    let v = Vector3D::new(SCALE / 2, SCALE, SCALE);
    assert_eq!(vec_sum(&u, &v), Vector3D::new(98304, 196608, 0));
    assert_eq!(vec_sub(&u, &v), Vector3D::new(32768, SCALE, -131072));
    assert_eq!(vec_hadamard(&u, &v), Vector3D::new(32768, 131072, -SCALE));
    assert_eq!(vec_multiplication(&u, 2 * SCALE), Vector3D::new(131072, 262144, -131072));
    assert_eq!(vec_division(&u, 2 * SCALE), Vector3D::new(32768, SCALE, -32768));
    assert_eq!(vec_sum_components(&u, 1, 2, 3), Vector3D::new(SCALE + 1, 2 * SCALE + 2, -SCALE + 3));
}

#[test]
fn dot_product_matches_hand_computation() {
    let u = Vector3D::new(SCALE, 2 * SCALE, 3 * SCALE);
    let v = Vector3D::new(4 * SCALE, 5 * SCALE, 6 * SCALE);
    // 1*4 + 2*5 + 3*6 == 32
    assert_eq!(vec_dot(&u, &v), 32 * SCALE);
}

// Unit-length vectors normalise to themselves and report length exactly one.
#[test]
fn normalize_of_unit_vector_is_identity() {
    let v = Vector3D::new(SCALE, 0, 0);
    assert_eq!(vec_get_length(&v), SCALE);
    assert_eq!(vec_normalize(&v), v);
    let w = Vector3D::new(0, -SCALE, 0);
    assert_eq!(vec_get_length(&w), SCALE);
    assert_eq!(vec_normalize(&w), w);
    // a 3-4-5 unit vector: (0.6, 0.8, 0) scaled
    let p = Vector3D::new(39322, 52428, 0);
    let n = vec_normalize(&p);
    let len = vec_get_length(&n);
    assert!((len - SCALE).abs() <= 2, "length of normalised vector was {len}");
}

#[test]
fn normalize_scales_down_exactly() {
    let v = Vector3D::new(2 * SCALE, 0, 0);
    assert_eq!(vec_normalize(&v), Vector3D::new(SCALE, 0, 0));
    let w = Vector3D::new(3 * SCALE, 4 * SCALE, 0);
    assert_eq!(vec_get_length(&w), 5 * SCALE);
    assert_eq!(vec_normalize(&w), Vector3D::new(39321, 52428, 0));
}

#[test]
fn normalize_of_zero_vector_is_zero() {
    let z = Vector3D::new(0, 0, 0);
    assert_eq!(vec_normalize(&z), z);
}

// dot(v, v) agrees with length(v)^2 up to fixed-point rounding, exactly on
// a Pythagorean vector.
#[test]
fn dot_with_self_is_squared_length() {
    let v = Vector3D::new(3 * SCALE, 4 * SCALE, 0);
    let len = vec_get_length(&v);
    assert_eq!(len, 5 * SCALE);
    assert_eq!(vec_dot(&v, &v), 25 * SCALE);
}

// cross(u, v) == -cross(v, u)
#[test]
fn cross_product_antisymmetry() {
    let u = Vector3D::new(SCALE, 2 * SCALE, 3 * SCALE);
    let v = Vector3D::new(4 * SCALE, 5 * SCALE, 6 * SCALE);
    let uv = vec_cross(&u, &v);
    let vu = vec_cross(&v, &u);
    assert_eq!(uv, Vector3D::new(-3 * SCALE, 6 * SCALE, -3 * SCALE));
    assert_eq!(vu, Vector3D::new(3 * SCALE, -6 * SCALE, 3 * SCALE));
    assert_eq!(uv, Vector3D::new(-vu.x, -vu.y, -vu.z));
}

#[test]
fn saturating_vector_sum() {
    let big = Vector3D::new(i64::MAX, 0, i64::MIN);
    let r = vec_sum(&big, &big);
    assert_eq!(r.x, i64::MAX);
    assert_eq!(r.y, 0);
    assert_eq!(r.z, i64::MIN);
}

#[test]
fn clamp_length_passes_short_vectors_through() {
    let v = Vector3D::new(SCALE, 0, 0);
    assert_eq!(vec_clamp_length(&v, RADIANCE_LIMIT), v);
}

#[test]
fn clamp_length_rescales_long_vectors() {
    let v = Vector3D::new(2 * SCALE, 2 * SCALE, 2 * SCALE);
    let r = vec_clamp_length(&v, RADIANCE_LIMIT);
    // direction preserved: all components still equal
    assert_eq!(r.x, r.y);
    assert_eq!(r.y, r.z);
    assert!(r.x > 0 && r.x < 2 * SCALE);
    // magnitude within one rounding step of the limit
    let norm_sq = 3 * (r.x as i128) * (r.x as i128);
    let bound = (RADIANCE_LIMIT as i128) * (RADIANCE_LIMIT as i128)
        + 2 * (RADIANCE_LIMIT as i128);
    assert!(norm_sq <= bound, "norm_sq {norm_sq} over bound {bound}");
    // and not absurdly small either: at least (limit - 1)^2 overall
    let low = ((RADIANCE_LIMIT - 2) as i128) * ((RADIANCE_LIMIT - 2) as i128);
    assert!(norm_sq >= low, "norm_sq {norm_sq} under {low}");
}

#[test]
fn random_direction_is_bounded_by_multiplier() {
    let mut sampler = Sampler::from_seed(7);
    for _ in 0..50 {
        let r = Vector3D::new_random(32768, &mut sampler);
        assert!(r.x.abs() <= 32768);
        assert!(r.y.abs() <= 32768);
        assert!(r.z.abs() <= 32768);
    }
    let zero = Vector3D::new_random(0, &mut sampler);
    assert_eq!(zero, Vector3D::new(0, 0, 0));
}

// The kick's length stays within a fraction of the multiplier on both sides.
#[test]
fn random_direction_has_multiplier_length() {
    let k = SCALE as i128;
    for seed in 0..20u64 {
        let mut sampler = Sampler::from_seed(seed);
        let m: i64 = 32768;
        let r = Vector3D::new_random(m, &mut sampler);
        let norm_sq = (r.x as i128) * (r.x as i128) + (r.y as i128) * (r.y as i128)
            + (r.z as i128) * (r.z as i128);
        let m2 = (m as i128) * (m as i128);
        assert!(16384 * norm_sq <= 16385 * m2, "kick too long: {norm_sq}");
        assert!(
            k * k * norm_sq + (6 * k + 3) * m2 + (6 * k * k + 6 * k) * (m as i128) + 3 * k * k
                >= k * k * m2,
            "kick too short: {norm_sq}"
        );
    }
}

#[test]
fn sampler_draws_stay_below_bound() {
    let mut sampler = Sampler::from_seed(99);
    for _ in 0..100 {
        assert_eq!(sampler.next_below(1), 0);
        assert!(sampler.next_below(7) < 7);
        assert!(sampler.next_below(131073) < 131073);
    }
}

#[test]
fn sampler_is_reproducible_from_seed() {
    let mut a = Sampler::from_seed(42);
    let mut b = Sampler::from_seed(42);
    for _ in 0..20 {
        assert_eq!(a.next_below(1000000), b.next_below(1000000));
    }
}
