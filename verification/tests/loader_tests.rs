use raytracer::fixed::SCALE;
use raytracer::loaders::load_obj;
use raytracer::vector3d::Vector3D;

#[test]
fn loads_a_single_triangle() {
    let obj = String::from("v 0 0 0\nv 2 0 0\nv 0 2 0\nf 1 3 2\n");
    let mesh = load_obj(obj, 3);
    assert_eq!(mesh.triangles.len(), 1);
    let t = &mesh.triangles[0];
    assert_eq!(t.material_index, 3);
    // Face vertices are taken in file order.
    assert_eq!(t.a, Vector3D::new(0, 0, 0));
    assert_eq!(t.b, Vector3D::new(0, 2 * SCALE, 0));
    assert_eq!(t.c, Vector3D::new(2 * SCALE, 0, 0));
}

#[test]
fn parses_signed_decimal_coordinates() {
    let obj = String::from("v 1.5 -2.25 0.125\nv 0 0 0\nv 0 0 1\nf 1 2 3\n");
    let mesh = load_obj(obj, 1);
    assert_eq!(mesh.triangles.len(), 1);
    let t = &mesh.triangles[0];
    assert_eq!(t.a, Vector3D::new(98304, -147456, 8192));
}

#[test]
fn face_references_with_slashes() {
    let obj = String::from("v 1 0 0\nv 0 1 0\nv 0 0 1\nf 1/1/1 2/2/1 3/3/1\n");
    let mesh = load_obj(obj, 2);
    assert_eq!(mesh.triangles.len(), 1);
    assert_eq!(mesh.triangles[0].a, Vector3D::new(SCALE, 0, 0));
}

#[test]
fn quads_use_their_first_three_references() {
    let obj = String::from("v 0 0 0\nv 1 0 0\nv 1 1 0\nv 0 1 0\nf 1 2 3 4\n");
    let mesh = load_obj(obj, 1);
    assert_eq!(mesh.triangles.len(), 1);
    let t = &mesh.triangles[0];
    assert_eq!(t.a, Vector3D::new(0, 0, 0));
    assert_eq!(t.b, Vector3D::new(SCALE, 0, 0));
    assert_eq!(t.c, Vector3D::new(SCALE, SCALE, 0));
}

#[test]
fn malformed_lines_are_skipped() {
    let obj = String::from(
        "# a comment\nv 1 2\nv not numbers here\nf 1 2 3\nvt 0 0\nf 9 9 9\n",
    );
    let mesh = load_obj(obj, 1);
    assert_eq!(mesh.triangles.len(), 0);
}

#[test]
fn out_of_range_face_indices_are_dropped() {
    let obj = String::from("v 0 0 0\nv 1 0 0\nf 1 2 5\n");
    let mesh = load_obj(obj, 1);
    // Only two of the three references resolve, so no triangle is built.
    assert_eq!(mesh.triangles.len(), 0);
}

#[test]
fn empty_input_gives_empty_mesh() {
    let mesh = load_obj(String::new(), 1);
    assert_eq!(mesh.triangles.len(), 0);
}
