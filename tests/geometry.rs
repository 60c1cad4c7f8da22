use raster3d::fixed::{isqrt, ONE};
use raster3d::transforms::{Mat2D, Mat3D};
use raster3d::tri2d::Tri2D;
use raster3d::tri3d::Tri3D;
use raster3d::vec2d::Vec2D;
use raster3d::vec3d::Vec3D;

const HALF: i64 = ONE / 2;

fn p(x: i64, y: i64, z: i64) -> Vec3D {
    Vec3D::new(x * ONE, y * ONE, z * ONE)
}

#[test]
fn vec_new_is_a_point() {
    let v = Vec3D::new(1, 2, 3);
    assert_eq!((v.x, v.y, v.z, v.w), (1, 2, 3, ONE));
}

#[test]
fn vec_add_sub_keep_w_of_left() {
    let a = Vec3D { x: 1, y: 2, z: 3, w: 7 };
    let b = Vec3D { x: 10, y: 20, z: 30, w: 9 };
    assert_eq!(a.add(b), Vec3D { x: 11, y: 22, z: 33, w: 7 });
    assert_eq!(a.sub(b), Vec3D { x: -9, y: -18, z: -27, w: 7 });
}

#[test]
fn vec_scale_by_half() {
    let v = p(2, -4, 3).scale(HALF);
    assert_eq!((v.x, v.y, v.z, v.w), (ONE, -2 * ONE, 3 * HALF, ONE));
}

#[test]
fn vec_scale_rounds_down() {
    // -1 unit of 1/65536 times one half is -1/2 unit, rounded down to -1
    let v = Vec3D::new(-1, 1, 0).scale(HALF);
    assert_eq!((v.x, v.y, v.z), (-1, 0, 0));
}

#[test]
fn vec_dot_product() {
    assert_eq!(p(1, 2, 3).dot_product(p(4, -5, 6)), 12 * ONE);
}

#[test]
fn vec_cross_product_of_axes() {
    let z = p(1, 0, 0).cross_product(p(0, 1, 0));
    assert_eq!((z.x, z.y, z.z, z.w), (0, 0, ONE, ONE));
    let y = p(0, 0, 1).cross_product(p(1, 0, 0));
    assert_eq!((y.x, y.y, y.z), (0, ONE, 0));
}

#[test]
fn vec_length_of_3_4_0() {
    assert_eq!(p(3, 4, 0).length(), 5 * ONE);
}

#[test]
fn vec_normalized() {
    let n = p(3, 0, 4).normalized();
    assert_eq!((n.x, n.y, n.z, n.w), (39321, 0, 52428, ONE));
}

#[test]
fn vec_normalized_zero_is_zero() {
    let n = p(0, 0, 0).normalized();
    assert_eq!((n.x, n.y, n.z, n.w), (0, 0, 0, ONE));
}

#[test]
fn isqrt_exact_and_rounded() {
    assert_eq!(isqrt(0), 0);
    assert_eq!(isqrt(1), 1);
    assert_eq!(isqrt(15), 3);
    assert_eq!(isqrt(16), 4);
    assert_eq!(isqrt(1u128 << 74), 1u64 << 37);
}

#[test]
fn signed_distance_is_exact() {
    let d = Vec3D::signed_distance(&p(0, 0, 1), &p(0, 0, 2), &p(5, 5, 4));
    assert_eq!(d, (2 * ONE as i128) * (3 * ONE as i128));
}

#[test]
fn intersect_plane_midpoint() {
    let x = Vec3D::intersect_plane(&p(0, 0, 0), &p(0, 0, 1), &p(2, 4, 1), &p(0, 0, -1));
    assert_eq!((x.x, x.y, x.z, x.w), (ONE, 2 * ONE, 0, ONE));
}

#[test]
fn intersect_plane_normal_length_does_not_matter() {
    let a = Vec3D::intersect_plane(&p(0, 0, 0), &p(0, 0, 1), &p(2, 4, 3), &p(0, 0, -1));
    let b = Vec3D::intersect_plane(&p(0, 0, 0), &p(0, 0, 7), &p(2, 4, 3), &p(0, 0, -1));
    assert_eq!(a, b);
    assert_eq!((a.x, a.y, a.z), (HALF, ONE, 0));
}

#[test]
fn vec_times_translation() {
    let v = p(1, 2, 3).mul(&Mat3D::translation(10 * ONE, 0, -ONE));
    assert_eq!((v.x, v.y, v.z, v.w), (11 * ONE, 2 * ONE, 2 * ONE, ONE));
}

#[test]
fn rotation_about_z_by_quarter_turn() {
    let v = p(1, 0, 0).mul(&Mat3D::rot_z(ONE, 0));
    assert_eq!((v.x, v.y, v.z, v.w), (0, ONE, 0, ONE));
}

#[test]
fn rotation_about_x_by_quarter_turn() {
    let v = p(0, 1, 0).mul(&Mat3D::rot_x(ONE, 0));
    assert_eq!((v.x, v.y, v.z), (0, 0, ONE));
}

#[test]
fn rotation_about_y_by_quarter_turn() {
    let v = p(0, 0, 1).mul(&Mat3D::rot_y(ONE, 0));
    assert_eq!((v.x, v.y, v.z), (-ONE, 0, 0));
}

#[test]
fn matrix_new_and_index() {
    let m = Mat3D::new(1, 2, 3, 4, 5, 6, 7, 8, 9);
    assert_eq!(m.index(0), [1, 2, 3, 0]);
    assert_eq!(m.index(2), [7, 8, 9, 0]);
    assert_eq!(m.index(3), [0, 0, 0, ONE]);
}

#[test]
fn projection_entries() {
    let m = Mat3D::projection(ONE, ONE, ONE, 3 * ONE);
    assert_eq!(m.data[0], [ONE, 0, 0, 0]);
    assert_eq!(m.data[1], [0, ONE, 0, 0]);
    // far / (far - near) = 3/2; -far * near / (far - near) = -3/2
    assert_eq!(m.data[2], [0, 0, 3 * HALF, ONE]);
    assert_eq!(m.data[3], [0, 0, -3 * HALF, 0]);
}

#[test]
fn quick_inverse_undoes_rotation_and_translation() {
    // a quarter turn about z followed by a move to (1, 2, 3)
    let m = Mat3D {
        data: [[0, ONE, 0, 0], [-ONE, 0, 0, 0], [0, 0, ONE, 0], [ONE, 2 * ONE, 3 * ONE, ONE]],
    };
    let inv = m.quick_inverse();
    let v = p(4, 5, 6);
    let back = v.mul(&m).mul(&inv);
    assert_eq!(back, v);
}

#[test]
fn point_at_straight_ahead_is_identity_basis() {
    let m = Mat3D::point_at(&p(1, 2, 3), &p(1, 2, 4), &p(0, 1, 0));
    assert_eq!(m.data[0], [ONE, 0, 0, 0]);
    assert_eq!(m.data[1], [0, ONE, 0, 0]);
    assert_eq!(m.data[2], [0, 0, ONE, 0]);
    assert_eq!(m.data[3], [ONE, 2 * ONE, 3 * ONE, ONE]);
}

#[test]
fn triangle_accessors() {
    let mut t = Tri3D::from_points(1, 2, 3, 4, 5, 6, 7, 8, 9);
    assert_eq!(t.index(1), Vec3D::new(4, 5, 6));
    t.set_vertex(2, Vec3D::new(0, 0, 0));
    assert_eq!(t.c, Vec3D::new(0, 0, 0));
    assert_eq!(t.a, Vec3D::new(1, 2, 3));
    assert_eq!(t.l, 0);
    assert_eq!(t.depth(), 3 + 6);
    let u = Tri3D::new_with_luminance(t.a, t.b, t.c, HALF);
    assert_eq!(u.l, HALF);
    assert_eq!(Tri3D::new(t.a, t.b, t.c), t);
}

#[test]
fn triangle_mul_keeps_luminance() {
    let t = Tri3D::new_with_luminance(p(0, 0, 0), p(1, 0, 0), p(0, 1, 0), HALF);
    let m = t.mul(&Mat3D::translation(0, 0, ONE));
    assert_eq!(m.l, HALF);
    assert_eq!(m.a, p(0, 0, 1));
    assert_eq!(m.c, p(0, 1, 1));
}

#[test]
fn vec2_operations() {
    let a = Vec2D::new(3 * ONE, 4 * ONE);
    let b = Vec2D::new(ONE, -ONE);
    assert_eq!(a.add(b), Vec2D::new(4 * ONE, 3 * ONE));
    assert_eq!(a.sub(b), Vec2D::new(2 * ONE, 5 * ONE));
    assert_eq!(a.index(1), 4 * ONE);
    assert_eq!(a.normalized(), Vec2D::new(39321, 52428));
    assert_eq!(Vec2D::new(0, 0).normalized(), Vec2D::new(0, 0));
}

#[test]
fn vec2_rotation_quarter_turn() {
    let r = Vec2D::new(ONE, 0).mul(Mat2D::rot_x(ONE, 0));
    assert_eq!(r, Vec2D::new(0, ONE));
    let s = Vec2D::new(ONE, 2 * ONE).mul(Mat2D::new(2 * ONE, 0, 0, 3 * ONE));
    assert_eq!(s, Vec2D::new(2 * ONE, 6 * ONE));
    assert_eq!(Mat2D::new(1, 2, 3, 4).index(1), [3, 4, 0]);
}

#[test]
fn tri2_accessors() {
    let mut t = Tri2D::from_points(1, 2, 3, 4, 5, 6);
    assert_eq!(t.index(2), Vec2D::new(5, 6));
    t.set_vertex(0, Vec2D::new(9, 9));
    assert_eq!(t, Tri2D::new(Vec2D::new(9, 9), Vec2D::new(3, 4), Vec2D::new(5, 6)));
}

fn rounded(x: f64) -> i64 {
    (x * ONE as f64).round() as i64
}

fn within_turn_error(a: i64, b: i64) -> bool {
    ONE * (b - a).abs() <= 2 * a.abs() + 3 * ONE
}

#[test]
fn rotation_then_inverse_returns_vertices() {
    for angle in [0.3f64, 1.0, 2.5, -0.7, 3.1] {
        let (s, c) = (rounded(angle.sin()), rounded(angle.cos()));
        let t = Tri3D::from_points(ONE, 2 * ONE, 3 * ONE, -5 * ONE, 7 * ONE, 11 * ONE, 123456, -654321, 20 * ONE);
        for (there, back) in [
            (Mat3D::rot_x(s, c), Mat3D::rot_x(-s, c)),
            (Mat3D::rot_y(s, c), Mat3D::rot_y(-s, c)),
            (Mat3D::rot_z(s, c), Mat3D::rot_z(-s, c)),
        ] {
            let r = t.mul(&there).mul(&back);
            for (v, w) in [(t.a, r.a), (t.b, r.b), (t.c, r.c)] {
                assert!(within_turn_error(v.x, w.x));
                assert!(within_turn_error(v.y, w.y));
                assert!(within_turn_error(v.z, w.z));
                assert_eq!(v.w, w.w);
            }
        }
    }
}

#[test]
fn rotation_by_zero_is_exact() {
    let t = Tri3D::from_points(ONE, 2 * ONE, 3 * ONE, -5 * ONE, 7 * ONE, 11 * ONE, 1, -1, 0);
    assert_eq!(t.mul(&Mat3D::rot_y(0, ONE)), t);
}

#[test]
fn cross_product_is_antisymmetric_in_raw_units() {
    let a = Vec3D::new(1, 0, 0);
    let b = Vec3D::new(0, 1, 0);
    assert_eq!(a.cross_product(b).z, 0);
    assert_eq!(b.cross_product(a).z, 0);
    let c = Vec3D::new(3 * ONE + 7, -5, 11 * ONE);
    let d = Vec3D::new(-2 * ONE, 9 * ONE + 1, 13);
    let (u, v) = (c.cross_product(d), d.cross_product(c));
    assert_eq!((v.x, v.y, v.z), (-u.x, -u.y, -u.z));
}

#[test]
fn cross_product_rounds_towards_zero() {
    // x component is (1 * -3 - 0 * 0) / 65536 = -3/65536: zero, not -1
    let r = Vec3D::new(0, 1, 0).cross_product(Vec3D::new(0, 0, -3));
    assert_eq!((r.x, r.y, r.z), (0, 0, 0));
    // (65536 * 65536 - 3) / 65536 rounds down to 65535
    let s = Vec3D::new(0, ONE, 1).cross_product(Vec3D::new(0, 3, ONE));
    assert_eq!(s.x, ONE - 1);
}

#[test]
fn intersect_plane_beyond_segment_end() {
    // both ends above the plane z = 0: the line is extended to meet it
    let x = Vec3D::intersect_plane(&p(0, 0, 0), &p(0, 0, 1), &p(0, 0, 2), &p(1, 0, 1));
    assert_eq!((x.x, x.y, x.z), (2 * ONE, 0, 0));
}

#[test]
fn quick_inverse_of_rotation_is_opposite_rotation() {
    let (s, c) = (rounded(0.6f64.sin()), rounded(0.6f64.cos()));
    let a = Mat3D::rot_x(s, c).quick_inverse();
    let b = Mat3D::rot_x(-s, c);
    assert_eq!(a.data, b.data);
    assert_eq!(Mat3D::rot_y(s, c).quick_inverse().data, Mat3D::rot_y(-s, c).data);
    assert_eq!(Mat3D::rot_z(s, c).quick_inverse().data, Mat3D::rot_z(-s, c).data);
}
