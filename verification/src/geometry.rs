//! Rays and geometric primitives with their analytic intersection tests.
//!
//! Each intersection test returns the smallest forward parametric distance
//! `t` beyond a small margin (so a bounced ray does not immediately re-hit the
//! surface it starts on), or `None` when no valid forward intersection
//! exists.  Degenerate cases — a ray parallel to a plane, a quadratic with a
//! negative discriminant, a zero direction — all resolve to `None` rather
//! than to meaningless values.  Every executable test is pinned exactly to a
//! spec-level mirror, which is what the tracing kernel's contracts quantify
//! over.

use vstd::prelude::*;

use crate::fixed::{
    SCALE, add_fx, div_fx, int_abs, mul_fx, neg_fx, spec_add_fx, spec_div_fx, spec_mul_fx,
    spec_neg_fx, spec_sub_fx, sqrt_fx, spec_sqrt_fx, sub_fx,
};
use crate::vector3d::{
    Vector3D, spec_vec_cross, spec_vec_div, spec_vec_dot, spec_vec_normalize, spec_vec_scale,
    spec_vec_sub, spec_vec_sum, vec_cross, vec_dot, vec_normalize, vec_sub, vec_sum,
    vec_multiplication,
};

verus! {

/// Intersection tests reject distances below this margin (about 0.001).
pub const MARGIN: i64 = 66;

// ================================================
// Line (ray)
// ================================================
#[derive(Clone, Copy, PartialEq, Eq, Structural, Debug)]
pub struct Line {
    pub origin: Vector3D,
    pub direction: Vector3D,
}

/// The point `origin + direction * t`.
pub open spec fn spec_line_point(l: Line, t: int) -> Vector3D {
    spec_vec_sum(l.origin, spec_vec_scale(l.direction, t))
}

impl Line {
    pub fn new(o: Vector3D, d: Vector3D) -> (r: Line)
        ensures
            r == (Line { origin: o, direction: d }),
    {
        Line { origin: o, direction: d }
    }

    pub fn from(line: &Line) -> (r: Line)
        ensures
            r == *line,
    {
        Line { origin: line.origin, direction: line.direction }
    }

    pub fn get_point(&self, t: i64) -> (r: Vector3D)
        ensures
            r == spec_line_point(*self, t as int),
    {
        vec_sum(&self.origin, &vec_multiplication(&self.direction, t))
    }
}

// ================================================
// Plane
// ================================================
#[derive(Clone, Copy, PartialEq, Eq, Structural, Debug)]
pub struct Plane {
    pub normal: Vector3D,
    pub point: Vector3D,
}

/// The back-face-culled ray/plane intersection: the ray must approach against
/// the normal (`dot(n, d) <= -MARGIN`), and the solution of
/// `dot(n, o + t * d - p) == 0` must lie at least `MARGIN` ahead.
pub open spec fn spec_plane_intersects(p: Plane, l: Line) -> Option<i64> {
    let denom = spec_vec_dot(p.normal, l.direction);
    if int_abs(denom) < MARGIN as int || denom >= 0 {
        None
    } else {
        let t = spec_div_fx(
            spec_sub_fx(spec_vec_dot(p.normal, p.point), spec_vec_dot(p.normal, l.origin)),
            denom,
        );
        if t < MARGIN as int {
            None
        } else {
            Some(t as i64)
        }
    }
}

impl Plane {
    /// A plane through `p` with (normalised) normal `n`.
    pub fn new(n: Vector3D, p: Vector3D) -> (r: Plane)
        ensures
            r == (Plane { normal: spec_vec_normalize(n), point: p }),
    {
        Plane { normal: vec_normalize(&n), point: p }
    }

    pub fn intersects(&self, line: &Line) -> (r: Option<i64>)
        ensures
            r == spec_plane_intersects(*self, *line),
    {
        let denom: i64 = vec_dot(&self.normal, &line.direction);
        let abs_denom: i64 = if denom < 0 {
            neg_fx(denom)
        } else {
            denom
        };
        if abs_denom < MARGIN || denom >= 0 {
            return None;
        }
        let t: i64 = div_fx(
            sub_fx(vec_dot(&self.normal, &self.point), vec_dot(&self.normal, &line.origin)),
            denom,
        );
        if t < MARGIN {
            return None;
        }
        Some(t)
    }

    pub fn get_normal(&self, _surface_point: &Vector3D) -> (r: Vector3D)
        ensures
            r == self.normal,
    {
        self.normal
    }
}

// ================================================
// Sphere
// ================================================
#[derive(Clone, Copy, PartialEq, Eq, Structural, Debug)]
pub struct Sphere {
    pub origin: Vector3D,
    pub radius: i64,
    pub material_index: usize,
}

/// The ray/sphere intersection by the quadratic formula: with the ray origin
/// relative to the centre, `a = dot(d, d)`, `b = 2 dot(o, d)`,
/// `c = dot(o, o) - r^2`; a negative discriminant means a miss, otherwise the
/// smaller positive root is preferred and the margin test applies.
pub open spec fn spec_sphere_intersects(s: Sphere, l: Line) -> Option<i64> {
    let o = spec_vec_sub(l.origin, s.origin);
    let a = spec_vec_dot(l.direction, l.direction);
    if int_abs(a) < MARGIN as int {
        None
    } else {
        let b = spec_add_fx(spec_vec_dot(o, l.direction), spec_vec_dot(o, l.direction));
        let c = spec_sub_fx(spec_vec_dot(o, o), spec_mul_fx(s.radius as int, s.radius as int));
        let ac = spec_mul_fx(a, c);
        let four_ac = spec_add_fx(spec_add_fx(ac, ac), spec_add_fx(ac, ac));
        let disc = spec_sub_fx(spec_mul_fx(b, b), four_ac);
        if disc < 0 {
            None
        } else {
            let sq = spec_sqrt_fx(disc);
            let two_a = spec_add_fx(a, a);
            let tn = spec_div_fx(spec_sub_fx(spec_neg_fx(b), sq), two_a);
            let tp = spec_div_fx(spec_add_fx(spec_neg_fx(b), sq), two_a);
            let t = if tn > 0 && tn < tp {
                tn
            } else {
                tp
            };
            if t < MARGIN as int {
                None
            } else {
                Some(t as i64)
            }
        }
    }
}

impl Sphere {
    pub fn new(o: Vector3D, r: i64, mat_index: usize) -> (s: Sphere)
        ensures
            s == (Sphere { origin: o, radius: r, material_index: mat_index }),
    {
        Sphere { origin: o, radius: r, material_index: mat_index }
    }

    pub fn intersects(&self, line: &Line) -> (r: Option<i64>)
        ensures
            r == spec_sphere_intersects(*self, *line),
    {
        let o: Vector3D = vec_sub(&line.origin, &self.origin);
        let a: i64 = vec_dot(&line.direction, &line.direction);
        let abs_a: i64 = if a < 0 {
            neg_fx(a)
        } else {
            a
        };
        if abs_a < MARGIN {
            return None;
        }
        let od: i64 = vec_dot(&o, &line.direction);
        let b: i64 = add_fx(od, od);
        let c: i64 = sub_fx(vec_dot(&o, &o), mul_fx(self.radius, self.radius));
        let ac: i64 = mul_fx(a, c);
        let four_ac: i64 = add_fx(add_fx(ac, ac), add_fx(ac, ac));
        let disc: i64 = sub_fx(mul_fx(b, b), four_ac);
        if disc < 0 {
            return None;
        }
        let sq: i64 = sqrt_fx(disc);
        let two_a: i64 = add_fx(a, a);
        let tn: i64 = div_fx(sub_fx(neg_fx(b), sq), two_a);
        let tp: i64 = div_fx(add_fx(neg_fx(b), sq), two_a);
        let t: i64 = if tn > 0 && tn < tp {
            tn
        } else {
            tp
        };
        if t < MARGIN {
            return None;
        }
        Some(t)
    }

    /// The outward normal at a surface point.
    pub fn get_normal(&self, surface_point: &Vector3D) -> (r: Vector3D)
        ensures
            r == spec_vec_normalize(spec_vec_sub(*surface_point, self.origin)),
    {
        let normal = vec_sub(surface_point, &self.origin);
        vec_normalize(&normal)
    }

    pub fn get_material_index(&self) -> (r: usize)
        ensures
            r == self.material_index,
    {
        self.material_index
    }
}

// ================================================
// Triangle
// ================================================
#[derive(Clone, Copy, PartialEq, Eq, Structural, Debug)]
pub struct Triangle {
    pub a: Vector3D,
    pub b: Vector3D,
    pub c: Vector3D,
    pub inner_plane: Plane,
    pub material_index: usize,
}

/// One half-space edge test: the hit point lies on the inner side of the edge
/// `e0 -> e1` when `dot(n, cross(e1 - e0, p - e0)) > 0`.
pub open spec fn spec_edge_test(n: Vector3D, e0: Vector3D, e1: Vector3D, p: Vector3D) -> bool {
    spec_vec_dot(n, spec_vec_cross(spec_vec_sub(e1, e0), spec_vec_sub(p, e0))) > 0
}

/// The ray/triangle intersection: the hit on the supporting plane, kept only
/// when the hit point passes all three edge half-space tests (points exactly
/// on an edge count as outside).
pub open spec fn spec_triangle_intersects(tr: Triangle, l: Line) -> Option<i64> {
    match spec_plane_intersects(tr.inner_plane, l) {
        None => None,
        Some(t) => {
            let p = spec_line_point(l, t as int);
            let n = tr.inner_plane.normal;
            if spec_edge_test(n, tr.a, tr.b, p) && spec_edge_test(n, tr.b, tr.c, p)
                && spec_edge_test(n, tr.c, tr.a, p) {
                Some(t)
            } else {
                None
            }
        },
    }
}

impl Triangle {
    /// A triangle over three vertices; the face normal is the cross product
    /// of the edges in winding order (`(b - a) x (c - a)`), so
    /// counter-clockwise vertices seen from above give an upward normal.
    pub fn new(a: Vector3D, b: Vector3D, c: Vector3D, mat_index: usize) -> (r: Triangle)
        ensures
            r.a == a && r.b == b && r.c == c,
            r.material_index == mat_index,
            r.inner_plane == (Plane {
                normal: spec_vec_normalize(
                    spec_vec_normalize(spec_vec_cross(spec_vec_sub(b, a), spec_vec_sub(c, a))),
                ),
                point: a,
            }),
    {
        let ab: Vector3D = vec_sub(&b, &a);
        let ac: Vector3D = vec_sub(&c, &a);
        let normal: Vector3D = vec_normalize(&vec_cross(&ab, &ac));
        let the_plane: Plane = Plane::new(normal, a);
        Triangle { a, b, c, material_index: mat_index, inner_plane: the_plane }
    }

    pub fn intersects(&self, line: &Line) -> (r: Option<i64>)
        ensures
            r == spec_triangle_intersects(*self, *line),
    {
        if let Some(t) = self.inner_plane.intersects(line) {
            let point: Vector3D = line.get_point(t);
            let tri_normal: Vector3D = self.get_normal(&point);

            let ab: Vector3D = vec_sub(&self.b, &self.a);
            let pa: Vector3D = vec_sub(&point, &self.a);
            let diff_a: i64 = vec_dot(&tri_normal, &vec_cross(&ab, &pa));
            if diff_a <= 0 {
                return None;
            }
            let bc: Vector3D = vec_sub(&self.c, &self.b);
            let pb: Vector3D = vec_sub(&point, &self.b);
            let diff_b: i64 = vec_dot(&tri_normal, &vec_cross(&bc, &pb));
            if diff_b <= 0 {
                return None;
            }
            let ca: Vector3D = vec_sub(&self.a, &self.c);
            let pc: Vector3D = vec_sub(&point, &self.c);
            let diff_c: i64 = vec_dot(&tri_normal, &vec_cross(&ca, &pc));
            if diff_c <= 0 {
                return None;
            }
            return Some(t);
        }
        None
    }

    pub fn get_normal(&self, _surface_point: &Vector3D) -> (r: Vector3D)
        ensures
            r == self.inner_plane.normal,
    {
        self.inner_plane.normal
    }

    pub fn get_material_index(&self) -> (r: usize)
        ensures
            r == self.material_index,
    {
        self.material_index
    }
}

// ================================================
// Primitive: the tagged union the scene stores
// ================================================
#[derive(Clone, Copy, PartialEq, Eq, Structural, Debug)]
pub enum Primitive {
    Plane { plane: Plane, material_index: usize },
    Sphere { sphere: Sphere },
    Triangle { triangle: Triangle },
}

pub open spec fn spec_primitive_intersects(p: Primitive, l: Line) -> Option<i64> {
    match p {
        Primitive::Plane { plane, material_index } => spec_plane_intersects(plane, l),
        Primitive::Sphere { sphere } => spec_sphere_intersects(sphere, l),
        Primitive::Triangle { triangle } => spec_triangle_intersects(triangle, l),
    }
}

pub open spec fn spec_primitive_normal(p: Primitive, surface_point: Vector3D) -> Vector3D {
    match p {
        Primitive::Plane { plane, material_index } => plane.normal,
        Primitive::Sphere { sphere } => spec_vec_normalize(
            spec_vec_sub(surface_point, sphere.origin),
        ),
        Primitive::Triangle { triangle } => triangle.inner_plane.normal,
    }
}

pub open spec fn spec_primitive_material(p: Primitive) -> int {
    match p {
        Primitive::Plane { plane, material_index } => material_index as int,
        Primitive::Sphere { sphere } => sphere.material_index as int,
        Primitive::Triangle { triangle } => triangle.material_index as int,
    }
}

impl Primitive {
    pub fn intersects(&self, line: &Line) -> (r: Option<i64>)
        ensures
            r == spec_primitive_intersects(*self, *line),
    {
        match self {
            Primitive::Plane { plane, material_index } => plane.intersects(line),
            Primitive::Sphere { sphere } => sphere.intersects(line),
            Primitive::Triangle { triangle } => triangle.intersects(line),
        }
    }

    pub fn get_normal(&self, surface_point: &Vector3D) -> (r: Vector3D)
        ensures
            r == spec_primitive_normal(*self, *surface_point),
    {
        match self {
            Primitive::Plane { plane, material_index } => plane.get_normal(surface_point),
            Primitive::Sphere { sphere } => sphere.get_normal(surface_point),
            Primitive::Triangle { triangle } => triangle.get_normal(surface_point),
        }
    }

    pub fn get_material_index(&self) -> (r: usize)
        ensures
            r == spec_primitive_material(*self),
    {
        match self {
            Primitive::Plane { plane, material_index } => *material_index,
            Primitive::Sphere { sphere } => sphere.get_material_index(),
            Primitive::Triangle { triangle } => triangle.get_material_index(),
        }
    }
}

// ================================================
// Mesh: a bag of triangles produced by the loader
// ================================================
pub struct Mesh {
    pub triangles: Vec<Triangle>,
}

impl Mesh {
    pub fn new() -> (r: Mesh)
        ensures
            r.triangles@.len() == 0,
    {
        Mesh { triangles: Vec::new() }
    }
}

} // verus!
