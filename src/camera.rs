use vstd::prelude::*;
use crate::fixed::{in_limit, ONE};
use crate::transforms::{inverse_shift, point_at_spec, quick_inverse_spec, rot_y_spec, Mat3D};
use crate::tri3d::Tri3D;
use crate::vec3d::{plus, point, transformed, Vec3D};

verus! {

/// Largest magnitude of a camera coordinate (2^17 world units): the view matrix then
/// stays in the working range.
pub const CAMERA_LIMIT: i64 = 8589934592;

/// A camera that turns about the vertical axis only.
pub struct Camera {
    /// Heading in fixed-point radians.
    pub yaw: i64,
    pub pos: Vec3D,
    pub look_dir: Vec3D,
    /// World-to-view matrix, as last computed.
    pub view_mat: Mat3D,
}

/// The view direction for a heading with the given fixed-point sine and cosine:
/// the forward axis `(0, 0, 1)` turned about the vertical axis.
pub open spec fn look_of(sin: int, cos: int) -> Vec3D {
    transformed(
        point(0, 0, ONE as int),
        rot_y_spec(sin as i64, cos as i64),
    )
}

/// The world-to-view matrix of a camera at `pos` looking along `look`.
pub open spec fn view_of(pos: Vec3D, look: Vec3D) -> Mat3D {
    quick_inverse_spec(point_at_spec(pos, plus(pos, look), point(0, ONE as int, 0)))
}

impl Camera {
    /// The position is a point within `CAMERA_LIMIT`, the view direction has components
    /// of at most one, the heading is in the working range and the view matrix too.
    pub open spec fn wf(self) -> bool {
        &&& -CAMERA_LIMIT <= self.pos.x <= CAMERA_LIMIT
        &&& -CAMERA_LIMIT <= self.pos.y <= CAMERA_LIMIT
        &&& -CAMERA_LIMIT <= self.pos.z <= CAMERA_LIMIT
        &&& self.pos.w == ONE
        &&& -ONE <= self.look_dir.x <= ONE
        &&& -ONE <= self.look_dir.y <= ONE
        &&& -ONE <= self.look_dir.z <= ONE
        &&& self.look_dir.w == ONE
        &&& in_limit(self.yaw as int)
        &&& self.view_mat.in_range()
    }

    /// A camera at the origin, heading zero, looking along x, with no view computed yet.
    pub fn new() -> (r: Camera)
        ensures
            r.wf(),
            r.pos == point(0, 0, 0),
            r.look_dir == point(ONE as int, 0, 0),
            r.yaw == 0,
            r.view_mat == (Mat3D { data: [[0, 0, 0, 0], [0, 0, 0, 0], [0, 0, 0, 0], [0, 0, 0, ONE]] }),
    {
        let view_mat = Mat3D::new(0, 0, 0, 0, 0, 0, 0, 0, 0);
        proof {
            crate::transforms::lemma_in_range(view_mat);
        }
        Camera { pos: Vec3D::new(0, 0, 0), look_dir: Vec3D::new(ONE, 0, 0), yaw: 0, view_mat }
    }

    /// Derives the view direction from the heading, whose fixed-point sine and cosine
    /// are given, and the view matrix from the pose.
    pub fn compute_view(&mut self, yaw_sin: i64, yaw_cos: i64)
        requires
            old(self).wf(),
            -ONE <= yaw_sin <= ONE,
            -ONE <= yaw_cos <= ONE,
        ensures
            final(self).wf(),
            final(self).pos == old(self).pos,
            final(self).yaw == old(self).yaw,
            final(self).look_dir == look_of(yaw_sin as int, yaw_cos as int),
            final(self).view_mat == view_of(final(self).pos, final(self).look_dir),
    {
        let rotation = Mat3D::rot_y(yaw_sin, yaw_cos);
        let forward = Vec3D::new(0, 0, ONE);
        self.look_dir = forward.mul(&rotation);
        assert(self.look_dir.x == -yaw_sin && self.look_dir.y == 0 && self.look_dir.z == yaw_cos
            && self.look_dir.w == ONE);
        let target = self.pos.add(self.look_dir);
        let up = Vec3D::new(0, ONE, 0);
        let camera_mat = Mat3D::point_at(&self.pos, &target, &up);
        self.view_mat = camera_mat.quick_inverse();
        proof {
            lemma_view_in_range(camera_mat, self.pos);
        }
    }

    /// The triangle in view space.
    pub fn to_view(&self, other: Tri3D) -> (r: Tri3D)
        requires
            self.wf(),
            other.in_range(),
        ensures
            r == (Tri3D {
                a: transformed(other.a, self.view_mat),
                b: transformed(other.b, self.view_mat),
                c: transformed(other.c, self.view_mat),
                l: other.l,
            }),
    {
        other.mul(&self.view_mat)
    }
}

/// The quick inverse of a camera matrix whose basis rows have components of at most
/// two and whose position is within `CAMERA_LIMIT` is in the working range.
proof fn lemma_view_in_range(m: Mat3D, pos: Vec3D)
    requires
        forall|i: int, j: int| 0 <= i < 3 && 0 <= j < 3 ==> -2 * ONE <= #[trigger] m.at(i, j) <= 2 * ONE,
        m.at(3, 0) == pos.x,
        m.at(3, 1) == pos.y,
        m.at(3, 2) == pos.z,
        -CAMERA_LIMIT <= pos.x <= CAMERA_LIMIT,
        -CAMERA_LIMIT <= pos.y <= CAMERA_LIMIT,
        -CAMERA_LIMIT <= pos.z <= CAMERA_LIMIT,
    ensures
        forall|j: int| 0 <= j < 3 ==> in_limit(#[trigger] inverse_shift(m, j)),
{
    assert forall|j: int| 0 <= j < 3 implies in_limit(#[trigger] inverse_shift(m, j)) by {
        let (a, b, c) = (m.at(j, 0), m.at(j, 1), m.at(j, 2));
        let (x, y, z) = (pos.x as int, pos.y as int, pos.z as int);
        let k = CAMERA_LIMIT as int;
        assert(-6 * k * ONE <= -(x * a + y * b + z * c) <= 6 * k * ONE) by (nonlinear_arith)
            requires -2 * ONE <= a <= 2 * ONE, -2 * ONE <= b <= 2 * ONE, -2 * ONE <= c <= 2 * ONE,
                -k <= x <= k, -k <= y <= k, -k <= z <= k, k > 0;
        vstd::arithmetic::div_mod::lemma_div_is_ordered(-(x * a + y * b + z * c), 6 * k * ONE, ONE as int);
        vstd::arithmetic::div_mod::lemma_div_is_ordered(-6 * k * ONE, -(x * a + y * b + z * c), ONE as int);
    }
}

} // verus!
