//! The virtual camera: an orthonormal-ish basis derived from a look target,
//! and the mapping from discrete pixel coordinates to points on the
//! projection plane.

use vstd::prelude::*;

use crate::fixed::{SCALE, div_fx, mul_fx, neg_fx, spec_div_fx, spec_mul_fx, spec_neg_fx};
use crate::vector3d::{
    Vector3D, spec_vec_cross, spec_vec_normalize, spec_vec_scale, spec_vec_sub, spec_vec_sum,
    vec_cross, vec_multiplication, vec_normalize, vec_sub, vec_sum,
};

verus! {

#[derive(Clone, Copy, PartialEq, Eq, Structural, Debug)]
pub struct Camera {
    pub position: Vector3D,
    pub look_direction: Vector3D,
    pub up: Vector3D,
    pub right: Vector3D,
    pub projection_plane_position: Vector3D,
}

/// The world-space up axis the camera basis is derived against.
pub open spec fn spec_world_up() -> Vector3D {
    Vector3D { x: 0i64, y: SCALE, z: 0i64 }
}

/// Maps a pixel index within an axis to `[-SCALE, SCALE]`:
/// `2 * i / (size - 1) - 1` in fixed point.
pub open spec fn spec_screen_to_percent(i: int, size: int) -> int {
    (2 * i * (SCALE as int)) / (size - 1) - SCALE as int
}

impl Camera {
    /// A camera at `pos` looking at `target`, with the projection plane
    /// anchored `plane_t` along the look direction.  The right and up basis
    /// vectors come from cross products against the world up axis, so the
    /// look direction must not be vertical (and the target must differ from
    /// the position) for the basis to be meaningful.
    pub fn new(pos: Vector3D, target: Vector3D, plane_t: i64) -> (r: Camera)
        ensures
            r.position == pos,
            r.look_direction == spec_vec_normalize(spec_vec_sub(target, pos)),
            r.right == spec_vec_normalize(spec_vec_cross(r.look_direction, spec_world_up())),
            r.up == spec_vec_normalize(spec_vec_cross(r.right, r.look_direction)),
            r.projection_plane_position == spec_vec_sum(
                pos,
                spec_vec_scale(r.look_direction, plane_t as int),
            ),
    {
        let camera_dir: Vector3D = vec_normalize(&vec_sub(&target, &pos));
        let world_up = Vector3D { x: 0, y: SCALE, z: 0 };
        let proj_right = vec_normalize(&vec_cross(&camera_dir, &world_up));
        let proj_up = vec_normalize(&vec_cross(&proj_right, &camera_dir));
        let proj_plane_position = vec_sum(&pos, &vec_multiplication(&camera_dir, plane_t));
        Camera {
            position: pos,
            look_direction: camera_dir,
            up: proj_up,
            right: proj_right,
            projection_plane_position: proj_plane_position,
        }
    }

    /// The world-space point on the projection plane for pixel `(x, y)` of a
    /// `width * height` image: the horizontal offset is scaled by the aspect
    /// ratio, the vertical offset is flipped so screen row zero is up.  The
    /// size cap of `2^46` keeps `width * SCALE` within the fixed-point range.
    pub fn screen_point_to_projection_plane(
        &self,
        x: usize,
        width: usize,
        y: usize,
        height: usize,
    ) -> (r: Vector3D)
        requires
            2 <= width <= 0x400000000000,
            2 <= height <= 0x400000000000,
            x < width,
            y < height,
        ensures
            r == spec_vec_sum(
                spec_vec_sum(
                    spec_vec_scale(self.right, spec_mul_fx(
                        spec_screen_to_percent(x as int, width as int),
                        spec_div_fx(width as int * SCALE as int, height as int * SCALE as int),
                    )),
                    spec_vec_scale(self.up, spec_neg_fx(
                        spec_screen_to_percent(y as int, height as int),
                    )),
                ),
                self.projection_plane_position,
            ),
    {
        let sy: i64 = screen_to_percent(y, height);
        let film_y: i64 = neg_fx(sy);
        let film_up = vec_multiplication(&self.up, film_y);

        let aspect: i64 = div_fx((width as i64) * SCALE, (height as i64) * SCALE);
        let sx: i64 = screen_to_percent(x, width);
        let film_x: i64 = mul_fx(sx, aspect);
        let film_right = vec_multiplication(&self.right, film_x);

        let film_offset = vec_sum(&film_right, &film_up);
        vec_sum(&film_offset, &self.projection_plane_position)
    }
}

/// `2 * i / (size - 1) - 1` in fixed point, exact for the pixel range.
fn screen_to_percent(i: usize, size: usize) -> (r: i64)
    requires
        2 <= size <= 0x400000000000,
        i < size,
    ensures
        r == spec_screen_to_percent(i as int, size as int),
        -(SCALE as int) <= r <= SCALE as int,
{
    let num: u64 = 2 * (i as u64) * 65536u64;
    let q: u64 = num / ((size as u64) - 1);
    proof {
        crate::fixed::lemma_div_bound(num as int, size as int - 1);
        assert((q as int) * ((size as int) - 1) <= 2 * (i as int) * (SCALE as int));
        assert(q <= 2 * (SCALE as u64)) by (nonlinear_arith)
            requires
                (q as int) * ((size as int) - 1) <= 2 * (i as int) * (SCALE as int),
                (i as int) <= (size as int) - 1,
                (size as int) - 1 >= 1,
                q >= 0,
        ;
    }
    (q as i64) - SCALE
}

} // verus!
