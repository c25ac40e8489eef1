use raytracer::color::{Material, color_to_u32, float_color_from_bytes, linear_color_to_srgb};
use raytracer::fixed::SCALE;
use raytracer::vector3d::Vector3D;

#[test]
fn material_constructors() {
    let base = Vector3D::new(SCALE, 0, 0);
    let m = Material::new(base, Vector3D::new_as_zero(), 1000, 2000);
    assert_eq!(m.base_color, base);
    assert_eq!(m.emission_color, Vector3D::new_as_zero());
    assert_eq!(m.roughness, 1000);
    assert_eq!(m.metallic, 2000);

    let matte = Material::new_base(base);
    assert_eq!(matte.base_color, base);
    assert_eq!(matte.emission_color, Vector3D::new_as_zero());
    assert_eq!(matte.roughness, 16384);  // 0.25
    assert_eq!(matte.metallic, 0);

    let light = Material::new_light(base);
    assert_eq!(light.base_color, base);
    assert_eq!(light.emission_color, base);
    assert_eq!(light.roughness, 52429);  // 0.8
}

#[test]
fn bytes_to_linear_color() {
    let c = float_color_from_bytes(255, 0, 128);
    assert_eq!(c.x, SCALE);  // 255/255 == 1.0
    assert_eq!(c.y, 0);
    assert_eq!(c.z, 32896);  // 128 * 65536 / 255, rounded down
}

#[test]
fn color_packs_into_24_bits() {
    let c = Vector3D::new(SCALE, 0, SCALE / 2);
    // channels: 255, 0, and (32768 * 255 + 32768) / 65536 == 128
    assert_eq!(color_to_u32(&c), 0x00FF0080);
}

#[test]
fn byte_color_round_trips_through_packing() {
    for b in 0..=255u8 {
        let c = float_color_from_bytes(b, 255 - b, b ^ 0x55);
        let packed = color_to_u32(&c);
        let expected =
            ((b as u32) << 16) | (((255 - b) as u32) << 8) | ((b ^ 0x55) as u32);
        assert_eq!(packed, expected, "byte {b} did not round-trip");
    }
}

#[test]
fn color_packing_clamps_out_of_range_channels() {
    let c = Vector3D::new(2 * SCALE, -SCALE, 0);
    assert_eq!(color_to_u32(&c), 0x00FF0000);
}

#[test]
fn srgb_endpoints_are_exact() {
    let z = linear_color_to_srgb(&Vector3D::new(0, 0, 0));
    assert_eq!(z, Vector3D::new(0, 0, 0));
    let one = linear_color_to_srgb(&Vector3D::new(SCALE, SCALE, SCALE));
    assert_eq!(one, Vector3D::new(SCALE, SCALE, SCALE));
    // inputs outside [0, 1] clamp to the endpoints first
    let wild = linear_color_to_srgb(&Vector3D::new(-SCALE, 3 * SCALE, 0));
    assert_eq!(wild, Vector3D::new(0, SCALE, 0));
}

#[test]
fn srgb_linear_segment_is_exact() {
    // Below the 0.0031308 knee the curve is 12.92 * l:
    // 100 * 846725 / 65536 == 1291 and 205 * 846725 / 65536 == 2648.
    let c = linear_color_to_srgb(&Vector3D::new(100, 205, 1));
    assert_eq!(c.x, 1291);
    assert_eq!(c.y, 2648);
    assert_eq!(c.z, 12);
}

#[test]
fn srgb_curve_brightens_midtones() {
    // 0.5 linear encodes near 0.7354 in sRGB.
    let c = linear_color_to_srgb(&Vector3D::new(SCALE / 2, SCALE / 2, SCALE / 2));
    assert_eq!(c.x, c.y);
    assert_eq!(c.y, c.z);
    assert!(
        c.x >= 48000 && c.x <= 48400,
        "srgb(0.5) was {} ({}/65536)",
        c.x,
        c.x,
    );
    // monotone along the curve
    let lo = linear_color_to_srgb(&Vector3D::new(SCALE / 4, 0, 0));
    assert!(lo.x < c.x);
    assert!(c.x < SCALE);
}
