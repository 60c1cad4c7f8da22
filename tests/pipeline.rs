use raster3d::camera::Camera;
use raster3d::fixed::ONE;
use raster3d::loader::{fixed_from_f32_bits, load_teapot, read_mesh, read_u32, MeshError};
use raster3d::scene::{
    clip_tris, keep_in_front, keep_in_range, keep_visible, ndc_to_screen, sort_by_depth, to_ndc,
    transform_all, translate_all, Scene, NEAR, STEP, STRIDE, TURN,
};
use raster3d::transforms::Mat3D;
use raster3d::tri3d::Tri3D;
use raster3d::vec3d::Vec3D;

const HALF: i64 = ONE / 2;

fn p(x: i64, y: i64, z: i64) -> Vec3D {
    Vec3D::new(x * ONE, y * ONE, z * ONE)
}

fn tri(a: Vec3D, b: Vec3D, c: Vec3D) -> Tri3D {
    Tri3D::new_with_luminance(a, b, c, HALF)
}

fn dist(v: &Vec3D, q: &Vec3D, n: &Vec3D) -> i128 {
    Vec3D::signed_distance(q, n, v)
}

#[test]
fn clip_fully_inside_returns_triangle_unchanged() {
    let t = tri(p(0, 0, 1), p(1, 0, 2), p(0, 1, 3));
    let r = Tri3D::clip(&t, &p(0, 0, 0), &p(0, 0, 1));
    assert_eq!(r, (1, Some(t), None));
}

#[test]
fn clip_vertex_on_plane_counts_as_inside() {
    let t = tri(p(0, 0, 0), p(1, 0, 0), p(0, 1, 0));
    let r = Tri3D::clip(&t, &p(0, 0, 0), &p(0, 0, 1));
    assert_eq!(r, (1, Some(t), None));
}

#[test]
fn clip_fully_outside_returns_nothing() {
    let t = tri(p(0, 0, -1), p(1, 0, -2), p(0, 1, -3));
    assert_eq!(Tri3D::clip(&t, &p(0, 0, 0), &p(0, 0, 1)), (0, None, None));
}

#[test]
fn clip_one_inside_gives_one_triangle() {
    let t = tri(p(0, 0, 2), p(2, 0, -2), p(0, 2, -2));
    let (n, first, second) = Tri3D::clip(&t, &p(0, 0, 0), &p(0, 0, 1));
    assert_eq!(n, 1);
    assert!(second.is_none());
    let f = first.unwrap();
    assert_eq!(f.a, p(0, 0, 2));
    assert_eq!(f.b, p(1, 0, 0));
    assert_eq!(f.c, p(0, 1, 0));
    assert_eq!(f.l, HALF);
}

#[test]
fn clip_two_inside_gives_two_triangles() {
    let t = tri(p(0, 0, 2), p(2, 0, 2), p(0, 0, -2));
    let (n, first, second) = Tri3D::clip(&t, &p(0, 0, 0), &p(0, 0, 1));
    assert_eq!(n, 2);
    let f = first.unwrap();
    let s = second.unwrap();
    assert_eq!((f.a, f.b, f.c), (p(0, 0, 2), p(2, 0, 2), p(0, 0, 0)));
    assert_eq!((s.a, s.b, s.c), (p(2, 0, 2), p(0, 0, 0), p(1, 0, 0)));
    assert_eq!((f.l, s.l), (HALF, HALF));
}

#[test]
fn clip_outputs_lie_inside_within_tolerance() {
    let q = Vec3D::new(3, -7, 11);
    let n = Vec3D::new(5 * ONE, -3 * ONE, 2 * ONE);
    let tol = (10 * ONE) as i128;
    let tris = [
        tri(Vec3D::new(12345, -678, 91011), Vec3D::new(-54321, 999, -4242), Vec3D::new(777, 31337, -1)),
        tri(Vec3D::new(-12345, 678, -91011), Vec3D::new(54321, -999, 4242), Vec3D::new(-777, -31337, 1)),
        tri(p(3, 1, 4), p(-1, -5, 9), p(2, 6, -5)),
    ];
    for t in tris.iter() {
        let (count, first, second) = Tri3D::clip(t, &q, &n);
        let inside = [t.a, t.b, t.c].iter().filter(|v| dist(v, &q, &n) >= 0).count();
        let expected = match inside {
            0 => 0,
            2 => 2,
            _ => 1,
        };
        assert_eq!(count as usize, expected);
        for o in [first, second].iter().flatten() {
            for v in [o.a, o.b, o.c].iter() {
                assert!(dist(v, &q, &n) >= -tol);
            }
        }
    }
}

#[test]
fn clip_tris_concatenates_results() {
    let mut tris = vec![
        tri(p(0, 0, -1), p(1, 0, -2), p(0, 1, -3)),
        tri(p(0, 0, 2), p(2, 0, 2), p(0, 0, -2)),
        tri(p(0, 0, 1), p(1, 0, 2), p(0, 1, 3)),
    ];
    clip_tris(&mut tris, p(0, 0, 0), p(0, 0, 1));
    assert_eq!(tris.len(), 3);
    assert_eq!(tris[2], tri(p(0, 0, 1), p(1, 0, 2), p(0, 1, 3)));
}

#[test]
fn depth_sort_deepest_first() {
    let at = |z: i64| tri(p(0, 0, z), p(1, 0, z), p(0, 1, z));
    let mut tris = vec![at(5), at(1), at(3)];
    sort_by_depth(&mut tris);
    let depths: Vec<i64> = tris.iter().map(|t| t.a.z / ONE).collect();
    assert_eq!(depths, vec![5, 3, 1]);
}

#[test]
fn depth_sort_keeps_equal_depths_in_order() {
    let mut a = tri(p(0, 0, 2), p(1, 0, 2), p(0, 1, 2));
    a.l = 1;
    let mut b = a;
    b.l = 2;
    let c = tri(p(0, 0, 9), p(1, 0, 9), p(0, 1, 9));
    let mut tris = vec![a, b, c];
    sort_by_depth(&mut tris);
    assert_eq!(tris, vec![c, a, b]);
}

#[test]
fn depth_sort_empty() {
    let mut tris: Vec<Tri3D> = Vec::new();
    sort_by_depth(&mut tris);
    assert!(tris.is_empty());
}

#[test]
fn back_face_cull_keeps_front_drops_back() {
    // seen from the origin, this winding has its normal pointing back at the camera
    let front = tri(p(0, 0, 5), p(0, 1, 5), p(1, 0, 5));
    let back = tri(p(0, 0, 5), p(1, 0, 5), p(0, 1, 5));
    let mut tris = vec![front, back];
    keep_visible(&mut tris, &p(0, 0, 0));
    assert_eq!(tris, vec![front]);
}

#[test]
fn back_face_cull_drops_edge_on_triangle() {
    // the camera lies in the triangle's plane: dot product zero
    let edge_on = tri(p(0, 0, 5), p(0, 1, 5), p(0, 0, 6));
    let mut tris = vec![edge_on];
    keep_visible(&mut tris, &p(0, 0, 0));
    assert!(tris.is_empty());
}

#[test]
fn transform_and_translate_all() {
    let mut tris = vec![tri(p(1, 0, 0), p(0, 1, 0), p(0, 0, 1))];
    transform_all(&mut tris, &Mat3D::rot_z(ONE, 0));
    assert_eq!(tris[0].a, p(0, 1, 0));
    translate_all(&mut tris, &p(0, 0, 20));
    assert_eq!(tris[0].a, p(0, 1, 20));
    assert_eq!(tris[0].l, HALF);
}

#[test]
fn keep_in_range_drops_far_triangles() {
    let far = Vec3D::new(i64::MAX, 0, 0);
    let mut tris = vec![tri(far, p(0, 0, 0), p(0, 0, 0)), tri(p(1, 1, 1), p(0, 0, 0), p(0, 0, 0))];
    keep_in_range(&mut tris);
    assert_eq!(tris.len(), 1);
    assert_eq!(tris[0].a, p(1, 1, 1));
}

#[test]
fn keep_in_front_drops_nonpositive_w() {
    let mut behind = p(0, 0, 1);
    behind.w = 0;
    let mut tris = vec![tri(behind, p(0, 0, 1), p(0, 0, 1)), tri(p(0, 0, 1), p(0, 0, 1), p(0, 0, 1))];
    keep_in_front(&mut tris);
    assert_eq!(tris.len(), 1);
}

#[test]
fn ndc_divides_by_w_and_flips_x_y() {
    let v = Vec3D { x: 2 * ONE, y: -ONE, z: 3 * ONE, w: 4 * ONE };
    let mut tris = vec![tri(v, v, v)];
    to_ndc(&mut tris);
    assert_eq!(tris[0].a, Vec3D { x: -HALF, y: ONE / 4, z: 3 * ONE / 4, w: 4 * ONE });
}

#[test]
fn ndc_divides_by_negative_w() {
    let v = Vec3D { x: 2 * ONE, y: -ONE, z: 3 * ONE, w: -4 * ONE };
    let mut tris = vec![tri(v, v, v)];
    to_ndc(&mut tris);
    assert_eq!(tris[0].a, Vec3D { x: HALF, y: -ONE / 4, z: -3 * ONE / 4, w: -4 * ONE });
}

#[test]
fn ndc_to_screen_maps_corners() {
    let mut tris = vec![tri(p(-1, -1, 0), p(1, 1, 0), p(0, 0, 0))];
    ndc_to_screen(&mut tris, 800, 600);
    assert_eq!((tris[0].a.x, tris[0].a.y), (0, 0));
    assert_eq!((tris[0].b.x, tris[0].b.y), (800 * ONE, 600 * ONE));
    assert_eq!((tris[0].c.x, tris[0].c.y), (400 * ONE, 300 * ONE));
}

#[test]
fn point_ahead_of_camera_lands_at_screen_centre() {
    let scene = Scene::new(800, 600);
    let mut camera = Camera::new();
    camera.compute_view(0, ONE);
    let ahead = p(0, 0, 5);
    let mut tris = vec![tri(ahead, ahead, ahead)];
    Scene::to_view(&mut tris, &mut camera, 0, ONE);
    Scene::project(&mut tris, &scene.projection_matrix);
    to_ndc(&mut tris);
    ndc_to_screen(&mut tris, 800, 600);
    assert_eq!((tris[0].a.x, tris[0].a.y), (400 * ONE, 300 * ONE));
}

#[test]
fn camera_view_at_origin_is_identity() {
    let mut camera = Camera::new();
    camera.compute_view(0, ONE);
    assert_eq!(camera.look_dir, p(0, 0, 1));
    let t = tri(p(1, 2, 3), p(4, 5, 6), p(7, 8, 9));
    assert_eq!(camera.to_view(t), t);
}

#[test]
fn camera_view_moves_world_against_camera() {
    let mut camera = Camera::new();
    camera.pos = p(0, 0, -2);
    camera.compute_view(0, ONE);
    let t = tri(p(0, 0, 0), p(1, 0, 0), p(0, 1, 0));
    let v = camera.to_view(t);
    assert_eq!(v.a, p(0, 0, 2));
}

#[test]
fn scene_new_builds_mesh_and_projection() {
    let scene = Scene::new(800, 600);
    assert_eq!(scene.tris.len(), 6);
    assert_eq!(scene.tris[0], Tri3D::from_points(0, 0, 0, 0, ONE, 0, ONE, ONE, 0));
    assert_eq!(scene.projection_matrix.data[0][0], 600 * ONE / 800);
    assert_eq!(scene.projection_matrix.data[1][1], ONE);
    assert_eq!(scene.projection_matrix.data[2][3], ONE);
    assert_eq!(scene.camera.pos, p(0, 0, 0));
    assert_eq!(scene.camera.look_dir, p(1, 0, 0));
    assert_eq!(scene.camera.view_mat.data, Mat3D::new(0, 0, 0, 0, 0, 0, 0, 0, 0).data);
    assert_eq!(scene.camera.yaw, 0);
}

#[test]
fn tick_draws_inside_the_surface() {
    let mut scene = Scene::new(800, 600);
    let base = scene.tris.clone();
    let tris = scene.tick(0, ONE, 0, ONE);
    assert!(!tris.is_empty());
    assert_eq!(scene.tris, base);
    for t in tris.iter() {
        for v in [t.a, t.b, t.c].iter() {
            assert!(v.x >= -3 * ONE && v.x <= 802 * ONE);
            assert!(v.y >= -3 * ONE && v.y <= 602 * ONE);
        }
    }
}

#[test]
fn tick_turned_away_draws_nothing() {
    let mut scene = Scene::new(800, 600);
    // heading pi: looking along -z, away from the mesh
    let tris = scene.tick(0, ONE, 0, -ONE);
    assert!(tris.is_empty());
    assert_eq!(scene.camera.look_dir, p(0, 0, -1));
}

#[test]
fn input_keys_move_and_turn_camera() {
    let mut scene = Scene::new(800, 600);
    scene.tick(0, ONE, 0, ONE);
    scene.input('w');
    assert_eq!(scene.camera.pos, p(0, 0, 8));
    scene.input('s');
    assert_eq!(scene.camera.pos, p(0, 0, 0));
    scene.input('d');
    scene.input('j');
    assert_eq!(scene.camera.pos, Vec3D::new(STEP, STEP, 0));
    scene.input('a');
    scene.input('k');
    assert_eq!(scene.camera.pos, p(0, 0, 0));
    scene.input('q');
    scene.input('q');
    scene.input('e');
    assert_eq!(scene.camera.yaw, TURN);
    scene.input('x');
    assert_eq!(scene.camera.pos, p(0, 0, 0));
    assert_eq!(STRIDE, 8 * ONE);
}

#[test]
fn near_plane_constant() {
    assert_eq!(NEAR, ONE / 10);
}

fn mesh_bytes(count: u32, records: usize) -> Vec<u8> {
    let mut b = vec![7u8; 80];
    b.extend_from_slice(&count.to_le_bytes());
    for r in 0..records {
        for k in 0..12u32 {
            b.extend_from_slice(&(1000 * r as u32 + k).to_le_bytes());
        }
        b.extend_from_slice(&[0, 0]);
    }
    b
}

#[test]
fn loader_zero_count_is_empty() {
    assert_eq!(read_mesh(&mesh_bytes(0, 0)), Ok(Vec::new()));
}

#[test]
fn loader_truncated_header_is_empty() {
    assert_eq!(read_mesh(&[1u8; 40]), Ok(Vec::new()));
    assert_eq!(read_mesh(&[]), Ok(Vec::new()));
    assert_eq!(read_mesh(&mesh_bytes(3, 0)[..83]), Ok(Vec::new()));
}

#[test]
fn loader_reads_vertices_and_skips_normals() {
    let r = read_mesh(&mesh_bytes(2, 2)).unwrap();
    assert_eq!(r.len(), 2);
    assert_eq!(r[0], [3, 4, 5, 6, 7, 8, 9, 10, 11]);
    assert_eq!(r[1], [1003, 1004, 1005, 1006, 1007, 1008, 1009, 1010, 1011]);
}

#[test]
fn loader_truncated_record_fails() {
    let b = mesh_bytes(2, 2);
    assert_eq!(read_mesh(&b[..b.len() - 1]), Err(MeshError::Truncated));
    assert_eq!(read_mesh(&mesh_bytes(1, 0)), Err(MeshError::Truncated));
}

#[test]
fn read_u32_little_endian() {
    assert_eq!(read_u32(&[0x78, 0x56, 0x34, 0x12, 0xff], 0), 0x12345678);
    assert_eq!(read_u32(&[0, 0xff, 0xff, 0xff, 0xff], 1), u32::MAX);
}

#[test]
fn f32_bits_to_fixed() {
    assert_eq!(fixed_from_f32_bits(1.0f32.to_bits()), Some(ONE));
    assert_eq!(fixed_from_f32_bits((-2.5f32).to_bits()), Some(-5 * HALF));
    assert_eq!(fixed_from_f32_bits(0.0f32.to_bits()), Some(0));
    assert_eq!(fixed_from_f32_bits((-0.0f32).to_bits()), Some(0));
    assert_eq!(fixed_from_f32_bits(1e-30f32.to_bits()), Some(0));
    assert_eq!(fixed_from_f32_bits(0.1f32.to_bits()), Some(6553));
    assert_eq!(fixed_from_f32_bits((-0.1f32).to_bits()), Some(-6553));
    assert_eq!(fixed_from_f32_bits(1048576.0f32.to_bits()), Some(1i64 << 36));
    assert_eq!(fixed_from_f32_bits(2097152.0f32.to_bits()), None);
    assert_eq!(fixed_from_f32_bits(f32::NAN.to_bits()), None);
    assert_eq!(fixed_from_f32_bits(f32::INFINITY.to_bits()), None);
}

fn float_mesh(coords: &[[f32; 9]]) -> Vec<u8> {
    let mut b = vec![0u8; 80];
    b.extend_from_slice(&(coords.len() as u32).to_le_bytes());
    for c in coords {
        for _ in 0..3 {
            b.extend_from_slice(&9.0f32.to_le_bytes());
        }
        for x in c.iter() {
            b.extend_from_slice(&x.to_le_bytes());
        }
        b.extend_from_slice(&[0, 0]);
    }
    b
}

#[test]
fn load_teapot_reads_triangles() {
    let b = float_mesh(&[[0.0, 0.5, 1.0, -1.0, 2.0, 3.0, 0.25, 0.0, -0.5]]);
    let tris = load_teapot(&b).unwrap();
    assert_eq!(tris.len(), 1);
    assert_eq!(tris[0].a, Vec3D::new(0, HALF, ONE));
    assert_eq!(tris[0].b, p(-1, 2, 3));
    assert_eq!(tris[0].c, Vec3D::new(ONE / 4, 0, -HALF));
    assert_eq!(tris[0].l, 0);
}

#[test]
fn load_teapot_errors_and_empty() {
    assert_eq!(load_teapot(&[0u8; 10]), Ok(Vec::new()));
    assert_eq!(load_teapot(&float_mesh(&[])), Ok(Vec::new()));
    let b = float_mesh(&[[0.0; 9]]);
    assert_eq!(load_teapot(&b[..b.len() - 2]), Err(MeshError::Truncated));
    let nan = float_mesh(&[[0.0, f32::NAN, 0.0, 0.0, 0.0, 0.0, 0.0, 0.0, 0.0]]);
    assert_eq!(load_teapot(&nan), Err(MeshError::Unrepresentable));
}

#[test]
fn apply_transforms_pushes_mesh_back() {
    let mut tris = vec![tri(p(1, 0, 0), p(0, 1, 0), p(0, 0, 1))];
    Scene::apply_transforms(&mut tris, 0, ONE);
    assert_eq!(tris[0].a, p(1, 0, 20));
    assert_eq!(tris[0].c, p(0, 0, 21));
    // a quarter turn about x then about y
    let mut tris = vec![tri(p(1, 0, 0), p(0, 1, 0), p(0, 0, 1))];
    Scene::apply_transforms(&mut tris, ONE, 0);
    assert_eq!(tris[0].a, p(0, 0, 21));
    assert_eq!(tris[0].b, p(-1, 0, 20));
    assert_eq!(tris[0].c, p(0, -1, 20));
}

#[test]
fn tick_animated_frame_stays_on_surface() {
    let mut scene = Scene::new(640, 480);
    let t = 0.8f64;
    let (s, c) = ((t.sin() * ONE as f64).round() as i64, (t.cos() * ONE as f64).round() as i64);
    let tris = scene.tick(s, c, 0, ONE);
    for t in tris.iter() {
        for v in [t.a, t.b, t.c].iter() {
            assert!(v.x >= -3 * ONE && v.x <= 642 * ONE);
            assert!(v.y >= -3 * ONE && v.y <= 482 * ONE);
        }
    }
    assert!(!tris.is_empty());
}
