use raytracer::fixed::SCALE;
use raytracer::geometry::{Line, Plane, Primitive, Sphere, Triangle};
use raytracer::vector3d::Vector3D;

fn v(x: i64, y: i64, z: i64) -> Vector3D {
    Vector3D::new(x * SCALE, y * SCALE, z * SCALE)
}

#[test]
fn line_evaluates_points() {
    let line = Line::new(v(1, 2, 3), v(0, 0, -1));
    assert_eq!(line.get_point(2 * SCALE), v(1, 2, 1));
    let copy = Line::from(&line);
    assert_eq!(copy, line);
}

// A ray from (0, 5, 0) straight down hits the ground plane at distance 5.
#[test]
fn plane_hit_straight_down() {
    let plane = Plane::new(v(0, 1, 0), v(0, 0, 0));
    let ray = Line::new(v(0, 5, 0), v(0, -1, 0));
    assert_eq!(plane.intersects(&ray), Some(5 * SCALE));
}

// A ray parallel to the plane misses it.
#[test]
fn plane_miss_parallel_ray() {
    let plane = Plane::new(v(0, 1, 0), v(0, 0, 0));
    let ray = Line::new(v(0, 5, 0), v(1, 0, 0));
    assert_eq!(plane.intersects(&ray), None);
}

// The plane is back-face culled: approaching along the normal's own side
// counts as a miss.
#[test]
fn plane_miss_from_behind() {
    let plane = Plane::new(v(0, 1, 0), v(0, 0, 0));
    let ray = Line::new(v(0, -5, 0), v(0, 1, 0));
    assert_eq!(plane.intersects(&ray), None);
}

#[test]
fn plane_rejects_hits_behind_origin() {
    let plane = Plane::new(v(0, 1, 0), v(0, 0, 0));
    // The plane lies behind the ray origin along this direction.
    let ray = Line::new(v(0, -5, 0), v(0, -1, 0));
    assert_eq!(plane.intersects(&ray), None);
}

#[test]
fn plane_normal_is_normalized_at_construction() {
    let plane = Plane::new(v(0, 7, 0), v(1, 2, 3));
    assert_eq!(plane.normal, v(0, 1, 0));
    assert_eq!(plane.get_normal(&v(0, 0, 0)), v(0, 1, 0));
}

// A ray from (0, 0, 5) at a unit sphere in the origin hits at distance 4.
#[test]
fn sphere_hit_head_on() {
    let sphere = Sphere::new(v(0, 0, 0), SCALE, 1);
    let ray = Line::new(v(0, 0, 5), v(0, 0, -1));
    assert_eq!(sphere.intersects(&ray), Some(4 * SCALE));
}

#[test]
fn sphere_miss_entirely() {
    let sphere = Sphere::new(v(0, 0, 0), SCALE, 1);
    let ray = Line::new(v(5, 5, 5), v(1, 0, 0));
    assert_eq!(sphere.intersects(&ray), None);
}

#[test]
fn sphere_normal_points_outward() {
    let sphere = Sphere::new(v(0, 0, 0), SCALE, 2);
    assert_eq!(sphere.get_normal(&v(0, 0, 1)), v(0, 0, 1));
    assert_eq!(sphere.get_material_index(), 2);
}

fn upward_triangle() -> Triangle {
    // Counter-clockwise seen from +z, so the face normal points up.
    Triangle::new(v(0, 0, 0), v(2, 0, 0), v(0, 2, 0), 1)
}

// A ray from above through the centroid hits the triangle.
#[test]
fn triangle_hit_at_centroid() {
    let tri = upward_triangle();
    assert_eq!(tri.get_normal(&v(0, 0, 0)), v(0, 0, 1));
    let centroid_x: i64 = 2 * SCALE / 3;
    let centroid_y: i64 = 2 * SCALE / 3;
    let ray = Line::new(
        Vector3D::new(centroid_x, centroid_y, 5 * SCALE),
        v(0, 0, -1),
    );
    assert_eq!(tri.intersects(&ray), Some(5 * SCALE));
}

// A ray on the supporting plane but outside the edges misses.
#[test]
fn triangle_miss_outside_edges() {
    let tri = upward_triangle();
    let ray = Line::new(v(3, 3, 5), v(0, 0, -1));
    assert_eq!(tri.intersects(&ray), None);
}

// A hit point exactly on an edge counts as outside.
#[test]
fn triangle_edge_counts_as_outside() {
    let tri = upward_triangle();
    let ray = Line::new(v(1, 0, 5), v(0, 0, -1));
    assert_eq!(tri.intersects(&ray), None);
}

#[test]
fn primitive_dispatch_matches_shapes() {
    let sphere = Sphere::new(v(0, 0, 0), SCALE, 3);
    let prim = Primitive::Sphere { sphere };
    let ray = Line::new(v(0, 0, 5), v(0, 0, -1));
    assert_eq!(prim.intersects(&ray), Some(4 * SCALE));
    assert_eq!(prim.get_material_index(), 3);
    assert_eq!(prim.get_normal(&v(0, 0, 1)), v(0, 0, 1));

    let plane = Plane::new(v(0, 1, 0), v(0, 0, 0));
    let pprim = Primitive::Plane { plane, material_index: 4 };
    assert_eq!(pprim.get_material_index(), 4);

    let tri = upward_triangle();
    let tprim = Primitive::Triangle { triangle: tri };
    assert_eq!(tprim.get_material_index(), 1);
}
