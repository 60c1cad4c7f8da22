use vstd::prelude::*;
use crate::camera::{look_of, view_of, Camera, CAMERA_LIMIT};
use crate::fixed::{div_floor, floor_div, in_limit, LIMIT, ONE};
use crate::transforms::{
    in_half_range, lemma_quick_inverse_of_rotation, lemma_rotation_in_range, lemma_vertex_round_trip,
    quick_inverse_spec, projection_spec, rot_x_spec, rot_y_spec, rot_z_spec, rounded_unit_pair,
    vertex_turned_back, Mat3D,
};
use crate::tri3d::{clip_seq, Tri3D};
use crate::vec3d::{mul_col, plus, point, scaled, transformed, Vec3D};

verus! {

/// Every vertex of `t` times `m`; the luminance is kept.
pub open spec fn tri_times(t: Tri3D, m: Mat3D) -> Tri3D {
    Tri3D { a: transformed(t.a, m), b: transformed(t.b, m), c: transformed(t.c, m), l: t.l }
}

/// `b` is `t` turned and turned back: every vertex within `vertex_turned_back`, the
/// luminance kept.
pub open spec fn tri_turned_back(t: Tri3D, b: Tri3D) -> bool {
    vertex_turned_back(t.a, b.a) && vertex_turned_back(t.b, b.b) && vertex_turned_back(t.c, b.c)
        && b.l == t.l
}

/// A triangle turned about any axis by a rounded sine and cosine and then by the inverse
/// rotation (the sine negated, which is also the rotation's quick inverse) comes back to
/// within rounding: each coordinate moves by at most `2 |a| / ONE + 3` units, a relative
/// error near `2^-15`. Within half the working range, the turned triangle is in range,
/// so `Tri3D::mul` can take it both ways.
pub proof fn lemma_rotation_round_trip(t: Tri3D, s: i64, c: i64)
    requires
        t.in_range(),
        rounded_unit_pair(s as int, c as int),
    ensures
        quick_inverse_spec(rot_x_spec(s, c)) == rot_x_spec((-s) as i64, c),
        quick_inverse_spec(rot_y_spec(s, c)) == rot_y_spec((-s) as i64, c),
        quick_inverse_spec(rot_z_spec(s, c)) == rot_z_spec((-s) as i64, c),
        in_half_range(t.a) && in_half_range(t.b) && in_half_range(t.c) ==> {
            &&& tri_times(t, rot_x_spec(s, c)).in_range()
            &&& tri_times(t, rot_y_spec(s, c)).in_range()
            &&& tri_times(t, rot_z_spec(s, c)).in_range()
        },
        tri_turned_back(t, tri_times(tri_times(t, rot_x_spec(s, c)), rot_x_spec((-s) as i64, c))),
        tri_turned_back(t, tri_times(tri_times(t, rot_y_spec(s, c)), rot_y_spec((-s) as i64, c))),
        tri_turned_back(t, tri_times(tri_times(t, rot_z_spec(s, c)), rot_z_spec((-s) as i64, c))),
{
    lemma_vertex_round_trip(t.a, s, c);
    lemma_vertex_round_trip(t.b, s, c);
    lemma_vertex_round_trip(t.c, s, c);
    lemma_quick_inverse_of_rotation(s, c);
    if in_half_range(t.a) && in_half_range(t.b) && in_half_range(t.c) {
        lemma_rotation_in_range(t.a, s, c);
        lemma_rotation_in_range(t.b, s, c);
        lemma_rotation_in_range(t.c, s, c);
    }
}

/// Every vertex of `t` moved by `d` (their `w` is kept).
pub open spec fn tri_plus(t: Tri3D, d: Vec3D) -> Tri3D {
    Tri3D { a: plus(t.a, d), b: plus(t.b, d), c: plus(t.c, d), l: t.l }
}

/// Face normal of `t` (the cross product of its edges, unscaled and exact) dotted
/// with the ray from the camera at `cam` to its first vertex.
pub open spec fn facing(t: Tri3D, cam: Vec3D) -> int {
    let (ux, uy, uz) = (t.b.x - t.a.x, t.b.y - t.a.y, t.b.z - t.a.z);
    let (vx, vy, vz) = (t.c.x - t.a.x, t.c.y - t.a.y, t.c.z - t.a.z);
    (uy * vz - uz * vy) * (t.a.x - cam.x) + (uz * vx - ux * vz) * (t.a.y - cam.y) + (ux * vy - uy
        * vx) * (t.a.z - cam.z)
}

/// `t` turns its front face to the camera at `cam`.
pub open spec fn faces_camera(t: Tri3D, cam: Vec3D) -> bool {
    facing(t, cam) < 0
}

/// The triangles of `s` that turn their front face to the camera at `cam`, in order.
pub open spec fn visible(s: Seq<Tri3D>, cam: Vec3D) -> Seq<Tri3D> {
    s.filter(|t: Tri3D| faces_camera(t, cam))
}

/// Every triangle is in the working range.
pub open spec fn all_in_range(s: Seq<Tri3D>) -> bool {
    forall|i: int| 0 <= i < s.len() ==> (#[trigger] s[i]).in_range()
}

/// Every vertex of `t` has a nonzero `w`: the perspective divide is defined.
pub open spec fn nonzero_w(t: Tri3D) -> bool {
    t.a.w != 0 && t.b.w != 0 && t.c.w != 0
}

/// Every vertex of `t` has a positive `w`.
pub open spec fn in_front(t: Tri3D) -> bool {
    t.a.w > 0 && t.b.w > 0 && t.c.w > 0
}

/// The concatenation of what clipping each triangle of `s` gives, in order.
pub open spec fn clip_all(s: Seq<Tri3D>, q: Vec3D, n: Vec3D) -> Seq<Tri3D>
    decreases s.len(),
{
    if s.len() == 0 {
        Seq::empty()
    } else {
        clip_all(s.drop_last(), q, n) + clip_seq(s.last(), q, n)
    }
}

/// A vertex after the perspective divide: `x` and `y` divided by `w` and negated, `z`
/// divided by `w`, each in fixed point and rounded down before negation; `w` is kept.
pub open spec fn ndc_vertex(v: Vec3D) -> Vec3D {
    Vec3D {
        x: (-floor_div(v.x * ONE, v.w as int)) as i64,
        y: (-floor_div(v.y * ONE, v.w as int)) as i64,
        z: floor_div(v.z * ONE, v.w as int) as i64,
        w: v.w,
    }
}

/// The perspective divide of every vertex of `t`.
pub open spec fn ndc_tri(t: Tri3D) -> Tri3D {
    Tri3D { a: ndc_vertex(t.a), b: ndc_vertex(t.b), c: ndc_vertex(t.c), l: t.l }
}

/// A vertex in normalized device coordinates mapped to the pixels of a `width` by
/// `height` surface: `width * (x + 1) / 2` and `height * (y + 1) / 2`, rounded down.
pub open spec fn screen_vertex(v: Vec3D, width: int, height: int) -> Vec3D {
    Vec3D { x: ((width * (v.x + ONE)) / 2) as i64, y: ((height * (v.y + ONE)) / 2) as i64, z: v.z, w: v.w }
}

/// The viewport map of every vertex of `t`.
pub open spec fn screen_tri(t: Tri3D, width: int, height: int) -> Tri3D {
    Tri3D {
        a: screen_vertex(t.a, width, height),
        b: screen_vertex(t.b, width, height),
        c: screen_vertex(t.c, width, height),
        l: t.l,
    }
}

/// Largest canvas side in pixels: screen coordinates then stay in the working range.
pub const MAX_SIDE: u32 = 65536;

/// Multiplies every triangle by `m`.
pub fn transform_all(tris: &mut Vec<Tri3D>, m: &Mat3D)
    requires
        all_in_range(old(tris)@),
        m.in_range(),
    ensures
        final(tris)@ == old(tris)@.map_values(|t: Tri3D| tri_times(t, *m)),
{
    let mut res: Vec<Tri3D> = Vec::new();
    let mut i: usize = 0;
    while i < tris.len()
        invariant
            0 <= i <= tris.len(),
            res.len() == i,
            all_in_range(tris@),
            m.in_range(),
            forall|j: int| 0 <= j < i ==> res@[j] == tri_times(tris@[j], *m),
        decreases tris.len() - i,
    {
        assert(tris@[i as int].in_range());
        res.push(tris[i].mul(m));
        i += 1;
    }
    assert(res@ =~= tris@.map_values(|t: Tri3D| tri_times(t, *m)));
    *tris = res;
}

/// Moves every vertex of every triangle by `d`.
pub fn translate_all(tris: &mut Vec<Tri3D>, d: &Vec3D)
    requires
        all_in_range(old(tris)@),
        d.in_range(),
    ensures
        final(tris)@ == old(tris)@.map_values(|t: Tri3D| tri_plus(t, *d)),
{
    let mut res: Vec<Tri3D> = Vec::new();
    let mut i: usize = 0;
    while i < tris.len()
        invariant
            0 <= i <= tris.len(),
            res.len() == i,
            all_in_range(tris@),
            d.in_range(),
            forall|j: int| 0 <= j < i ==> res@[j] == tri_plus(tris@[j], *d),
        decreases tris.len() - i,
    {
        let t = tris[i];
        assert(tris@[i as int].in_range());
        res.push(Tri3D { a: t.a.add(*d), b: t.b.add(*d), c: t.c.add(*d), l: t.l });
        i += 1;
    }
    assert(res@ =~= tris@.map_values(|t: Tri3D| tri_plus(t, *d)));
    *tris = res;
}

/// Keeps the triangles in the working range, in order.
pub fn keep_in_range(tris: &mut Vec<Tri3D>)
    ensures
        final(tris)@ == old(tris)@.filter(|t: Tri3D| t.in_range()),
        all_in_range(final(tris)@),
{
    let ghost pred = |t: Tri3D| t.in_range();
    let mut res: Vec<Tri3D> = Vec::new();
    let mut i: usize = 0;
    while i < tris.len()
        invariant
            0 <= i <= tris.len(),
            res@ == tris@.subrange(0, i as int).filter(pred),
            pred == (|t: Tri3D| t.in_range()),
            all_in_range(res@),
        decreases tris.len() - i,
    {
        let t = tris[i];
        proof {
            assert(tris@.subrange(0, i + 1) =~= tris@.subrange(0, i as int).push(t));
            tris@.subrange(0, i as int).lemma_filter_push(t, pred);
            assert(pred(t) == t.in_range());
        }
        if vertex_in_range(&t.a) && vertex_in_range(&t.b) && vertex_in_range(&t.c) {
            res.push(t);
        }
        i += 1;
    }
    assert(tris@.subrange(0, tris.len() as int) =~= tris@);
    *tris = res;
}

/// Keeps the triangles in the working range whose vertices all have a positive `w`.
pub fn keep_in_front(tris: &mut Vec<Tri3D>)
    ensures
        final(tris)@ == old(tris)@.filter(|t: Tri3D| t.in_range() && in_front(t)),
        all_in_range(final(tris)@),
        forall|i: int| 0 <= i < final(tris)@.len() ==> in_front(#[trigger] final(tris)@[i]),
{
    let ghost pred = |t: Tri3D| t.in_range() && in_front(t);
    let mut res: Vec<Tri3D> = Vec::new();
    let mut i: usize = 0;
    while i < tris.len()
        invariant
            0 <= i <= tris.len(),
            res@ == tris@.subrange(0, i as int).filter(pred),
            pred == (|t: Tri3D| t.in_range() && in_front(t)),
            all_in_range(res@),
            forall|j: int| 0 <= j < res@.len() ==> in_front(#[trigger] res@[j]),
        decreases tris.len() - i,
    {
        let t = tris[i];
        proof {
            assert(tris@.subrange(0, i + 1) =~= tris@.subrange(0, i as int).push(t));
            tris@.subrange(0, i as int).lemma_filter_push(t, pred);
            assert(pred(t) == (t.in_range() && in_front(t)));
        }
        if vertex_in_range(&t.a) && vertex_in_range(&t.b) && vertex_in_range(&t.c) && t.a.w > 0
            && t.b.w > 0 && t.c.w > 0 {
            res.push(t);
        }
        i += 1;
    }
    assert(tris@.subrange(0, tris.len() as int) =~= tris@);
    *tris = res;
}

fn vertex_in_range(v: &Vec3D) -> (r: bool)
    ensures
        r == v.in_range(),
{
    -LIMIT <= v.x && v.x <= LIMIT && -LIMIT <= v.y && v.y <= LIMIT && -LIMIT <= v.z && v.z <= LIMIT
        && -LIMIT <= v.w && v.w <= LIMIT
}

/// `s` with `t` placed after the last element at least as deep as `t`: the insertion
/// step that keeps a sequence ordered from deepest to nearest.
pub open spec fn insert_by_depth(s: Seq<Tri3D>, t: Tri3D) -> Seq<Tri3D>
    decreases s.len(),
{
    if s.len() == 0 {
        seq![t]
    } else if s.last().depth_sum() >= t.depth_sum() {
        s.push(t)
    } else {
        insert_by_depth(s.drop_last(), t).push(s.last())
    }
}

/// `s` ordered from deepest to nearest by insertion; triangles of equal depth keep
/// their order.
pub open spec fn sorted_by_depth(s: Seq<Tri3D>) -> Seq<Tri3D>
    decreases s.len(),
{
    if s.len() == 0 {
        s
    } else {
        insert_by_depth(sorted_by_depth(s.drop_last()), s.last())
    }
}

/// The depth sums of `s` do not increase along it.
pub open spec fn deepest_first(s: Seq<Tri3D>) -> bool {
    forall|i: int, j: int| 0 <= i < j < s.len() ==> s[i].depth_sum() >= s[j].depth_sum()
}

/// Keeps the triangles whose front face is turned to the camera at `camera_pos`
/// (back-face culling), in order.
pub fn keep_visible(tris: &mut Vec<Tri3D>, camera_pos: &Vec3D)
    requires
        all_in_range(old(tris)@),
        camera_pos.in_range(),
    ensures
        final(tris)@ == visible(old(tris)@, *camera_pos),
        all_in_range(final(tris)@),
{
    let ghost pred = |t: Tri3D| faces_camera(t, *camera_pos);
    let mut res: Vec<Tri3D> = Vec::new();
    let mut i: usize = 0;
    while i < tris.len()
        invariant
            0 <= i <= tris.len(),
            res@ == tris@.subrange(0, i as int).filter(pred),
            pred == (|t: Tri3D| faces_camera(t, *camera_pos)),
            all_in_range(tris@),
            camera_pos.in_range(),
            all_in_range(res@),
        decreases tris.len() - i,
    {
        let t = tris[i];
        proof {
            assert(tris@.subrange(0, i + 1) =~= tris@.subrange(0, i as int).push(t));
            tris@.subrange(0, i as int).lemma_filter_push(t, pred);
            assert(tris@[i as int].in_range());
        }
        if facing_of(&t, camera_pos) < 0 {
            res.push(t);
        }
        i += 1;
    }
    assert(tris@.subrange(0, tris.len() as int) =~= tris@);
    *tris = res;
}

/// `facing(t, cam)`, computed exactly.
fn facing_of(t: &Tri3D, cam: &Vec3D) -> (r: i128)
    requires
        t.in_range(),
        cam.in_range(),
    ensures
        r == facing(*t, *cam),
{
    let (ux, uy, uz) = (t.b.x as i128 - t.a.x as i128, t.b.y as i128 - t.a.y as i128, t.b.z as i128 - t.a.z as i128);
    let (vx, vy, vz) = (t.c.x as i128 - t.a.x as i128, t.c.y as i128 - t.a.y as i128, t.c.z as i128 - t.a.z as i128);
    let (rx, ry, rz) = (t.a.x as i128 - cam.x as i128, t.a.y as i128 - cam.y as i128, t.a.z as i128 - cam.z as i128);
    proof {
        lemma_cross_bound(uy as int, vz as int, uz as int, vy as int);
        lemma_cross_bound(uz as int, vx as int, ux as int, vz as int);
        lemma_cross_bound(ux as int, vy as int, uy as int, vx as int);
    }
    let (nx, ny, nz) = (uy * vz - uz * vy, uz * vx - ux * vz, ux * vy - uy * vx);
    proof {
        lemma_ray_bound(nx as int, rx as int);
        lemma_ray_bound(ny as int, ry as int);
        lemma_ray_bound(nz as int, rz as int);
    }
    nx * rx + ny * ry + nz * rz
}

proof fn lemma_cross_bound(a: int, b: int, c: int, d: int)
    requires
        -2 * LIMIT <= a <= 2 * LIMIT,
        -2 * LIMIT <= b <= 2 * LIMIT,
        -2 * LIMIT <= c <= 2 * LIMIT,
        -2 * LIMIT <= d <= 2 * LIMIT,
    ensures
        -4 * LIMIT * LIMIT <= a * b <= 4 * LIMIT * LIMIT,
        -4 * LIMIT * LIMIT <= c * d <= 4 * LIMIT * LIMIT,
        -8 * LIMIT * LIMIT <= a * b - c * d <= 8 * LIMIT * LIMIT,
{
    let l = LIMIT as int;
    assert(-4 * l * l <= a * b <= 4 * l * l) by (nonlinear_arith)
        requires -2 * l <= a <= 2 * l, -2 * l <= b <= 2 * l, l > 0;
    assert(-4 * l * l <= c * d <= 4 * l * l) by (nonlinear_arith)
        requires -2 * l <= c <= 2 * l, -2 * l <= d <= 2 * l, l > 0;
}

proof fn lemma_ray_bound(n: int, r: int)
    requires
        -8 * LIMIT * LIMIT <= n <= 8 * LIMIT * LIMIT,
        -2 * LIMIT <= r <= 2 * LIMIT,
    ensures
        -16 * LIMIT * LIMIT * LIMIT <= n * r <= 16 * LIMIT * LIMIT * LIMIT,
{
    let l = LIMIT as int;
    assert(-16 * l * l * l <= n * r <= 16 * l * l * l) by (nonlinear_arith)
        requires -8 * l * l <= n <= 8 * l * l, -2 * l <= r <= 2 * l, l > 0;
}

/// Replaces every triangle by what clipping it against the plane through `plane_pos`
/// with normal `plane_normal` gives, in order.
pub fn clip_tris(tris: &mut Vec<Tri3D>, plane_pos: Vec3D, plane_normal: Vec3D)
    requires
        all_in_range(old(tris)@),
        plane_pos.in_range(),
        plane_normal.in_range(),
    ensures
        final(tris)@ == clip_all(old(tris)@, plane_pos, plane_normal),
        all_in_range(final(tris)@),
{
    let mut res: Vec<Tri3D> = Vec::new();
    let mut i: usize = 0;
    while i < tris.len()
        invariant
            0 <= i <= tris.len(),
            res@ == clip_all(tris@.subrange(0, i as int), plane_pos, plane_normal),
            all_in_range(tris@),
            plane_pos.in_range(),
            plane_normal.in_range(),
            all_in_range(res@),
        decreases tris.len() - i,
    {
        proof {
            assert(tris@[i as int].in_range());
            assert(tris@.subrange(0, i + 1).drop_last() =~= tris@.subrange(0, i as int));
        }
        let (count, first, second) = Tri3D::clip(&tris[i], &plane_pos, &plane_normal);
        if count == 1 {
            if let Some(t) = first {
                res.push(t);
            }
        } else if count == 2 {
            if let Some(t) = first {
                res.push(t);
            }
            if let Some(t) = second {
                res.push(t);
            }
        }
        i += 1;
    }
    assert(tris@.subrange(0, tris.len() as int) =~= tris@);
    *tris = res;
}

/// Perspective divide of every vertex (see `ndc_vertex`).
pub fn to_ndc(tris: &mut Vec<Tri3D>)
    requires
        all_in_range(old(tris)@),
        forall|i: int| 0 <= i < old(tris)@.len() ==> nonzero_w(#[trigger] old(tris)@[i]),
    ensures
        final(tris)@ == old(tris)@.map_values(|t: Tri3D| ndc_tri(t)),
{
    let mut res: Vec<Tri3D> = Vec::new();
    let mut i: usize = 0;
    while i < tris.len()
        invariant
            0 <= i <= tris.len(),
            res.len() == i,
            all_in_range(tris@),
            forall|j: int| 0 <= j < tris@.len() ==> nonzero_w(#[trigger] tris@[j]),
            forall|j: int| 0 <= j < i ==> res@[j] == ndc_tri(tris@[j]),
        decreases tris.len() - i,
    {
        let t = tris[i];
        assert(tris@[i as int].in_range() && nonzero_w(tris@[i as int]));
        res.push(Tri3D { a: ndc_of(&t.a), b: ndc_of(&t.b), c: ndc_of(&t.c), l: t.l });
        i += 1;
    }
    assert(res@ =~= tris@.map_values(|t: Tri3D| ndc_tri(t)));
    *tris = res;
}

fn ndc_of(v: &Vec3D) -> (r: Vec3D)
    requires
        v.in_range(),
        v.w != 0,
    ensures
        r == ndc_vertex(*v),
{
    Vec3D { x: -divide_by_w(v.x, v.w), y: -divide_by_w(v.y, v.w), z: divide_by_w(v.z, v.w), w: v.w }
}

/// `a / w` in fixed point, rounded down, for any nonzero `w`.
fn divide_by_w(a: i64, w: i64) -> (r: i64)
    requires
        in_limit(a as int),
        in_limit(w as int),
        w != 0,
    ensures
        r == floor_div(a * ONE, w as int),
        -LIMIT * ONE <= r <= LIMIT * ONE,
{
    proof {
        assert(-LIMIT * ONE <= a * ONE <= LIMIT * ONE) by (nonlinear_arith)
            requires -LIMIT <= a <= LIMIT;
        if w > 0 {
            assert(-LIMIT * ONE <= (a * ONE) / (w as int) <= LIMIT * ONE) by (nonlinear_arith)
                requires -LIMIT * ONE <= a * ONE <= LIMIT * ONE, w >= 1;
        } else {
            assert(-LIMIT * ONE <= (-(a * ONE)) / (-w as int) <= LIMIT * ONE) by (nonlinear_arith)
                requires -LIMIT * ONE <= a * ONE <= LIMIT * ONE, -w >= 1;
        }
    }
    if w > 0 {
        div_floor(a as i128 * ONE as i128, w as i128) as i64
    } else {
        div_floor(-(a as i128 * ONE as i128), -(w as i128)) as i64
    }
}

/// Maps every vertex from normalized device coordinates to the pixels of a `width` by
/// `height` surface (see `screen_vertex`).
pub fn ndc_to_screen(tris: &mut Vec<Tri3D>, width: u32, height: u32)
    requires
        all_in_range(old(tris)@),
        width <= MAX_SIDE,
        height <= MAX_SIDE,
    ensures
        final(tris)@ == old(tris)@.map_values(|t: Tri3D| screen_tri(t, width as int, height as int)),
{
    let mut res: Vec<Tri3D> = Vec::new();
    let mut i: usize = 0;
    while i < tris.len()
        invariant
            0 <= i <= tris.len(),
            res.len() == i,
            all_in_range(tris@),
            width <= MAX_SIDE,
            height <= MAX_SIDE,
            forall|j: int| 0 <= j < i ==> res@[j] == screen_tri(tris@[j], width as int, height as int),
        decreases tris.len() - i,
    {
        let t = tris[i];
        assert(tris@[i as int].in_range());
        res.push(
            Tri3D {
                a: screen_of(&t.a, width, height),
                b: screen_of(&t.b, width, height),
                c: screen_of(&t.c, width, height),
                l: t.l,
            },
        );
        i += 1;
    }
    assert(res@ =~= tris@.map_values(|t: Tri3D| screen_tri(t, width as int, height as int)));
    *tris = res;
}

fn screen_of(v: &Vec3D, width: u32, height: u32) -> (r: Vec3D)
    requires
        v.in_range(),
        width <= MAX_SIDE,
        height <= MAX_SIDE,
    ensures
        r == screen_vertex(*v, width as int, height as int),
{
    Vec3D { x: half_span(width, v.x), y: half_span(height, v.y), z: v.z, w: v.w }
}

/// `side * (a + 1) / 2`, rounded down.
fn half_span(side: u32, a: i64) -> (r: i64)
    requires
        side <= MAX_SIDE,
        in_limit(a as int),
    ensures
        r == (side * (a + ONE)) / 2,
{
    proof {
        assert(-MAX_SIDE * 2 * LIMIT <= side * (a + ONE) <= MAX_SIDE * 2 * LIMIT) by (nonlinear_arith)
            requires 0 <= side <= MAX_SIDE, -2 * LIMIT <= a + ONE <= 2 * LIMIT;
    }
    div_floor(side as i128 * (a as i128 + ONE as i128), 2) as i64
}

/// Orders the triangles from deepest to nearest (painter's order); triangles of equal
/// depth keep their order.
pub fn sort_by_depth(tris: &mut Vec<Tri3D>)
    requires
        all_in_range(old(tris)@),
    ensures
        final(tris)@ == sorted_by_depth(old(tris)@),
        all_in_range(final(tris)@),
{
    let mut res: Vec<Tri3D> = Vec::new();
    let mut i: usize = 0;
    while i < tris.len()
        invariant
            0 <= i <= tris.len(),
            res@ == sorted_by_depth(tris@.subrange(0, i as int)),
            all_in_range(tris@),
            all_in_range(res@),
        decreases tris.len() - i,
    {
        let t = tris[i];
        assert(tris@[i as int].in_range());
        let key = t.depth();
        let mut j: usize = res.len();
        while j > 0 && res[j - 1].depth() < key
            invariant
                0 <= j <= res.len(),
                all_in_range(res@),
                key == t.depth_sum(),
                forall|k: int| j <= k < res@.len() ==> res@[k].depth_sum() < t.depth_sum(),
            decreases j,
        {
            assert(res@[j - 1].in_range());
            j -= 1;
        }
        proof {
            lemma_insert_at(res@, t, j as int);
            assert(tris@.subrange(0, i + 1).drop_last() =~= tris@.subrange(0, i as int));
        }
        res.insert(j, t);
        i += 1;
    }
    assert(tris@.subrange(0, tris.len() as int) =~= tris@);
    *tris = res;
}

/// Inserting at the first position after which every triangle is nearer than `t` is
/// the insertion step of `sorted_by_depth`.
proof fn lemma_insert_at(s: Seq<Tri3D>, t: Tri3D, j: int)
    requires
        0 <= j <= s.len(),
        j > 0 ==> s[j - 1].depth_sum() >= t.depth_sum(),
        forall|k: int| j <= k < s.len() ==> s[k].depth_sum() < t.depth_sum(),
    ensures
        insert_by_depth(s, t) == s.insert(j, t),
    decreases s.len(),
{
    if s.len() == 0 {
        assert(s.insert(j, t) =~= seq![t]);
    } else if s.last().depth_sum() >= t.depth_sum() {
        assert(s.insert(j, t) =~= s.push(t));
    } else {
        lemma_insert_at(s.drop_last(), t, j);
        assert(s.insert(j, t) =~= s.drop_last().insert(j, t).push(s.last()));
    }
}

/// Inserting a triangle keeps every lower bound on depth that it and the sequence meet.
proof fn lemma_insert_bound(s: Seq<Tri3D>, t: Tri3D, b: int)
    requires
        forall|k: int| 0 <= k < s.len() ==> s[k].depth_sum() >= b,
        t.depth_sum() >= b,
    ensures
        forall|k: int| 0 <= k < insert_by_depth(s, t).len() ==> insert_by_depth(s, t)[k].depth_sum() >= b,
    decreases s.len(),
{
    let r = insert_by_depth(s, t);
    if s.len() == 0 {
        assert(r[0] == t);
    } else if s.last().depth_sum() >= t.depth_sum() {
        assert forall|k: int| 0 <= k < r.len() implies r[k].depth_sum() >= b by {
            if k < s.len() {
                assert(r[k] == s[k]);
            }
        }
    } else {
        let rest = s.drop_last();
        assert forall|k: int| 0 <= k < rest.len() implies rest[k].depth_sum() >= b by {
            assert(rest[k] == s[k]);
        }
        lemma_insert_bound(rest, t, b);
        let r0 = insert_by_depth(rest, t);
        assert forall|k: int| 0 <= k < r.len() implies r[k].depth_sum() >= b by {
            if k < r0.len() {
                assert(r[k] == r0[k]);
            }
        }
    }
}

/// Inserting into a deepest-first sequence gives a deepest-first sequence holding one
/// more copy of the triangle.
proof fn lemma_insert_sorted(s: Seq<Tri3D>, t: Tri3D)
    requires
        deepest_first(s),
    ensures
        deepest_first(insert_by_depth(s, t)),
        insert_by_depth(s, t).to_multiset() == s.to_multiset().insert(t),
        insert_by_depth(s, t).len() == s.len() + 1,
    decreases s.len(),
{
    broadcast use vstd::seq_lib::group_to_multiset_ensures;
    if s.len() == 0 {
        assert(seq![t] =~= Seq::<Tri3D>::empty().push(t));
    } else if s.last().depth_sum() >= t.depth_sum() {
    } else {
        let rest = s.drop_last();
        lemma_insert_sorted(rest, t);
        lemma_insert_bound(rest, t, s.last().depth_sum());
        assert(s =~= rest.push(s.last()));
    }
}

/// The depth sort orders the triangles from deepest to nearest and keeps every one of
/// them: its result is a permutation of its input.
pub proof fn lemma_sort_by_depth(s: Seq<Tri3D>)
    ensures
        deepest_first(sorted_by_depth(s)),
        sorted_by_depth(s).to_multiset() == s.to_multiset(),
        sorted_by_depth(s).len() == s.len(),
    decreases s.len(),
{
    broadcast use vstd::seq_lib::group_to_multiset_ensures;
    if s.len() > 0 {
        lemma_sort_by_depth(s.drop_last());
        lemma_insert_sorted(sorted_by_depth(s.drop_last()), s.last());
        assert(s =~= s.drop_last().push(s.last()));
    }
}

/// Back-face culling drops every triangle whose face normal meets the camera ray at a
/// non-negative dot product and keeps every triangle whose normal points towards the
/// camera.
pub proof fn lemma_cull(s: Seq<Tri3D>, cam: Vec3D)
    ensures
        forall|i: int|
            0 <= i < s.len() ==> (visible(s, cam).contains(#[trigger] s[i]) <==> faces_camera(
                s[i],
                cam,
            )),
        forall|i: int|
            0 <= i < visible(s, cam).len() ==> faces_camera(#[trigger] visible(s, cam)[i], cam),
{
    let pred = |t: Tri3D| faces_camera(t, cam);
    let f = s.filter(pred);
    assert forall|i: int| 0 <= i < f.len() implies faces_camera(#[trigger] f[i], cam) by {
        s.lemma_filter_pred(pred, i);
    }
    assert forall|i: int| 0 <= i < s.len() implies (f.contains(#[trigger] s[i]) <==> faces_camera(s[i], cam)) by {
        if faces_camera(s[i], cam) {
            s.lemma_filter_contains(pred, i);
        } else if f.contains(s[i]) {
            let k = choose|k: int| 0 <= k < f.len() && f[k] == s[i];
            s.lemma_filter_pred(pred, k);
        }
    }
}

/// A point on the view axis in front of the camera (`x = y = 0`, depth `z > 0`),
/// projected, divided by `w` and mapped to a `width` by `height` surface, lands at
/// the centre of the surface.
pub proof fn lemma_axis_to_centre(
    z: int,
    fov_scale: int,
    aspect_ratio: int,
    near: int,
    far: int,
    width: int,
    height: int,
)
    requires
        0 < z <= LIMIT,
        0 <= width <= MAX_SIDE,
        0 <= height <= MAX_SIDE,
    ensures
        ({
            let v = screen_vertex(
                ndc_vertex(transformed(point(0, 0, z), projection_spec(fov_scale, aspect_ratio, near, far))),
                width,
                height,
            );
            v.x == (width * ONE) / 2 && v.y == (height * ONE) / 2
        }),
        ({
            let p = transformed(point(0, 0, z), projection_spec(fov_scale, aspect_ratio, near, far));
            &&& p.x == 0 && p.y == 0 && p.w == z
            &&& mul_col(point(0, 0, z), projection_spec(fov_scale, aspect_ratio, near, far), 2) == (z
                * projection_spec(fov_scale, aspect_ratio, near, far).at(2, 2) + ONE
                * projection_spec(fov_scale, aspect_ratio, near, far).at(3, 2)) / (ONE as int)
            &&& ndc_vertex(p).x == 0 && ndc_vertex(p).y == 0
        }),
{
    let m = projection_spec(fov_scale, aspect_ratio, near, far);
    let p = transformed(point(0, 0, z), m);
    let v = point(0, 0, z);
    assert(v.x == 0 && v.y == 0 && v.z == z && v.w == ONE);
    assert(m.at(2, 0) == 0 && m.at(3, 0) == 0 && m.at(2, 1) == 0 && m.at(3, 1) == 0);
    assert(m.at(2, 3) == ONE && m.at(3, 3) == 0);
    let (x, y, w) = (v.x as int, v.y as int, v.w as int);
    assert(x * m.at(0, 0) == 0 && y * m.at(1, 0) == 0 && x * m.at(0, 1) == 0 && y * m.at(1, 1) == 0
        && x * m.at(0, 3) == 0 && y * m.at(1, 3) == 0 && x * m.at(0, 2) == 0 && y * m.at(1, 2) == 0)
        by (nonlinear_arith)
        requires x == 0, y == 0;
    assert(z * m.at(2, 0) == 0 && w * m.at(3, 0) == 0 && z * m.at(2, 1) == 0 && w * m.at(3, 1) == 0
        && w * m.at(3, 3) == 0) by (nonlinear_arith)
        requires m.at(2, 0) == 0, m.at(3, 0) == 0, m.at(2, 1) == 0, m.at(3, 1) == 0, m.at(3, 3) == 0;
    assert(z * m.at(2, 3) == z * ONE);
    assert(p.x == 0 && p.y == 0);
    assert(z * ONE / (ONE as int) == z) by (nonlinear_arith);
    assert(p.w == z);
    assert(ndc_vertex(p).x == 0 && ndc_vertex(p).y == 0);
    assert(0 <= width * ONE <= MAX_SIDE * ONE) by (nonlinear_arith)
        requires 0 <= width <= MAX_SIDE;
    assert(0 <= height * ONE <= MAX_SIDE * ONE) by (nonlinear_arith)
        requires 0 <= height <= MAX_SIDE;
}

/// With the projection of a new scene, a point on the view axis at a depth from `NEAR`
/// to half the working range stays in the working range through the projection and
/// the divide, in front of the eye, and lands at the centre of the surface.
pub proof fn lemma_scene_axis_to_centre(z: int, aspect_ratio: int, width: int, height: int)
    requires
        NEAR <= z <= LIMIT / 2,
        0 <= width <= MAX_SIDE,
        0 <= height <= MAX_SIDE,
    ensures
        ({
            let p = transformed(point(0, 0, z), projection_spec(ONE as int, aspect_ratio, NEAR as int, FAR as int));
            let v = screen_vertex(ndc_vertex(p), width, height);
            &&& point(0, 0, z).in_range()
            &&& p.in_range() && in_front(Tri3D { a: p, b: p, c: p, l: 0 })
            &&& ndc_vertex(p).in_range()
            &&& v.x == (width * ONE) / 2 && v.y == (height * ONE) / 2
        }),
{
    let m = projection_spec(ONE as int, aspect_ratio, NEAR as int, FAR as int);
    lemma_axis_to_centre(z, ONE as int, aspect_ratio, NEAR as int, FAR as int, width, height);
    let p = transformed(point(0, 0, z), m);
    assert((FAR * ONE) / (FAR - NEAR) == 65542);
    assert(floor_div(-FAR * NEAR, FAR - NEAR) == -6554);
    assert(m.at(2, 2) == 65542 && m.at(3, 2) == -6554);
    let n = z * 65542 + ONE * (-6554);
    assert(mul_col(point(0, 0, z), m, 2) == n / (ONE as int));
    assert(-ONE <= n <= 2 * z * ONE) by (nonlinear_arith)
        requires NEAR <= z, n == z * 65542 + ONE * (-6554), z <= LIMIT / 2;
    vstd::arithmetic::div_mod::lemma_div_is_ordered(-ONE as int, n, ONE as int);
    vstd::arithmetic::div_mod::lemma_div_is_ordered(n, 2 * z * ONE, ONE as int);
    assert((2 * z * ONE) / (ONE as int) == 2 * z) by (nonlinear_arith);
    let pz = p.z as int;
    assert(-1 <= pz <= 2 * z);
    assert(-2 * z * ONE <= pz * ONE <= 2 * z * ONE) by (nonlinear_arith)
        requires -1 <= pz <= 2 * z, z >= 1;
    vstd::arithmetic::div_mod::lemma_div_is_ordered(pz * ONE, 2 * z * ONE, z);
    vstd::arithmetic::div_mod::lemma_div_is_ordered(-2 * z * ONE, pz * ONE, z);
    assert((2 * z * ONE) / z == 2 * ONE && (-2 * z * ONE) / z == -2 * ONE) by (nonlinear_arith)
        requires z >= 1;
}

/// Distance of the near clipping plane (0.1).
pub const NEAR: i64 = 6553;

/// Distance of the far plane of the projection (1000).
pub const FAR: i64 = 65536000;

/// How far the animated mesh is pushed away from the origin along z (20).
pub const MESH_DEPTH: i64 = 1310720;

/// Sideways and vertical step of the camera per key press (0.1).
pub const STEP: i64 = 6553;

/// Turn of the camera per key press, in fixed-point radians (0.01).
pub const TURN: i64 = 655;

/// Forward step of the camera per key press, in view directions (8).
pub const STRIDE: i64 = 524288;

/// The triangles of `s` in the working range.
pub open spec fn in_range_only(s: Seq<Tri3D>) -> Seq<Tri3D> {
    s.filter(|t: Tri3D| t.in_range())
}

/// The triangles of `s` in the working range with every `w` positive.
pub open spec fn front_only(s: Seq<Tri3D>) -> Seq<Tri3D> {
    s.filter(|t: Tri3D| t.in_range() && in_front(t))
}

/// Every triangle of `s` times `m`.
pub open spec fn times_all(s: Seq<Tri3D>, m: Mat3D) -> Seq<Tri3D> {
    s.map_values(|t: Tri3D| tri_times(t, m))
}

/// The animation of a frame: turned about x, then about y, by the angle with the given
/// sine and cosine, then pushed back by `MESH_DEPTH`. Triangles that leave the working
/// range on the way are dropped.
pub open spec fn world_spec(s: Seq<Tri3D>, sin: i64, cos: i64) -> Seq<Tri3D> {
    let s1 = times_all(in_range_only(s), rot_x_spec(sin, cos));
    let s2 = times_all(in_range_only(s1), rot_y_spec(sin, cos));
    in_range_only(s2).map_values(|t: Tri3D| tri_plus(t, point(0, 0, MESH_DEPTH as int)))
}

/// Perspective divide and viewport map of the projected triangles, dropping those that
/// leave the working range or lie behind the eye.
pub open spec fn screen_spec(s: Seq<Tri3D>, width: int, height: int) -> Seq<Tri3D> {
    in_range_only(front_only(s).map_values(|t: Tri3D| ndc_tri(t))).map_values(
        |t: Tri3D| screen_tri(t, width, height),
    )
}

/// Clipping against the four edges of a `width` by `height` surface: top, bottom, left,
/// right.
pub open spec fn edges_spec(s: Seq<Tri3D>, width: int, height: int) -> Seq<Tri3D> {
    let s1 = clip_all(s, point(0, 0, 0), point(0, ONE as int, 0));
    let s2 = clip_all(s1, point(0, (height - 1) * ONE, 0), point(0, -ONE, 0));
    let s3 = clip_all(s2, point(0, 0, 0), point(ONE as int, 0, 0));
    clip_all(s3, point((width - 1) * ONE, 0, 0), point(-ONE, 0, 0))
}

/// The triangles drawn for one frame of the mesh `base` seen by a camera at `pos`
/// with view matrix `view` through `projection` on a `width` by `height` surface.
pub open spec fn frame_spec(
    base: Seq<Tri3D>,
    sin: i64,
    cos: i64,
    pos: Vec3D,
    view: Mat3D,
    projection: Mat3D,
    width: int,
    height: int,
) -> Seq<Tri3D> {
    let world = world_spec(base, sin, cos);
    let seen = times_all(visible(in_range_only(world), pos), view);
    let near = clip_all(in_range_only(seen), point(0, 0, NEAR as int), point(0, 0, ONE as int));
    let projected = times_all(near, projection);
    let screen = screen_spec(projected, width, height);
    edges_spec(sorted_by_depth(in_range_only(screen)), width, height)
}

/// A unit cube's corner `(a, b, c)` as a fixed-point point.
pub open spec fn corner(a: int, b: int, c: int) -> Vec3D {
    point(a * ONE, b * ONE, c * ONE)
}

/// Two faces of the unit cube and one more triangle, the mesh that a new scene shows.
pub open spec fn base_mesh() -> Seq<Tri3D> {
    seq![
        Tri3D { a: corner(0, 0, 0), b: corner(0, 1, 0), c: corner(1, 1, 0), l: 0 },
        Tri3D { a: corner(0, 0, 0), b: corner(1, 1, 0), c: corner(1, 0, 0), l: 0 },
        Tri3D { a: corner(1, 0, 0), b: corner(1, 1, 0), c: corner(1, 1, 1), l: 0 },
        Tri3D { a: corner(1, 0, 0), b: corner(1, 1, 1), c: corner(1, 0, 1), l: 0 },
        Tri3D { a: corner(1, 0, 1), b: corner(1, 1, 1), c: corner(0, 1, 1), l: 0 },
        Tri3D { a: corner(1, 0, 1), b: corner(0, 1, 1), c: corner(0, 0, 1), l: 0 },
    ]
}

/// The camera position after the move of `key`, or unchanged where that would leave
/// `CAMERA_LIMIT`. `w`/`s` step forward/back along the view direction, `a`/`d` left/right
/// along x, `j`/`k` down/up along y.
pub open spec fn moved_pos(pos: Vec3D, look: Vec3D, key: char) -> Vec3D {
    let forward = scaled(look, STRIDE as int);
    let p = if key == 'w' {
        Vec3D { x: (pos.x + forward.x) as i64, y: (pos.y + forward.y) as i64, z: (pos.z + forward.z) as i64, w: pos.w }
    } else if key == 's' {
        Vec3D { x: (pos.x - forward.x) as i64, y: (pos.y - forward.y) as i64, z: (pos.z - forward.z) as i64, w: pos.w }
    } else if key == 'a' {
        Vec3D { x: (pos.x - STEP) as i64, ..pos }
    } else if key == 'd' {
        Vec3D { x: (pos.x + STEP) as i64, ..pos }
    } else if key == 'j' {
        Vec3D { y: (pos.y + STEP) as i64, ..pos }
    } else if key == 'k' {
        Vec3D { y: (pos.y - STEP) as i64, ..pos }
    } else {
        pos
    };
    if camera_bounded(p) { p } else { pos }
}

/// The heading after the turn of `key`: `q` turns right, `e` left; unchanged where
/// that would leave the working range.
pub open spec fn turned_yaw(yaw: i64, key: char) -> i64 {
    let y = if key == 'q' {
        yaw + TURN
    } else if key == 'e' {
        yaw - TURN
    } else {
        yaw as int
    };
    if in_limit(y) { y as i64 } else { yaw }
}

/// Every coordinate of `p` within `CAMERA_LIMIT`.
pub open spec fn camera_bounded(p: Vec3D) -> bool {
    -CAMERA_LIMIT <= p.x <= CAMERA_LIMIT && -CAMERA_LIMIT <= p.y <= CAMERA_LIMIT && -CAMERA_LIMIT
        <= p.z <= CAMERA_LIMIT
}

/// A mesh seen by a camera through a projection, drawn on a surface of a given size.
pub struct Scene {
    pub width: u32,
    pub height: u32,
    /// The mesh; every frame starts from it afresh.
    pub tris: Vec<Tri3D>,
    pub camera: Camera,
    pub projection_matrix: Mat3D,
}

impl Scene {
    /// The surface has a usable size, the camera is well formed and the projection is in
    /// the working range.
    pub open spec fn wf(self) -> bool {
        &&& 0 < self.width <= MAX_SIDE
        &&& 0 < self.height <= MAX_SIDE
        &&& self.camera.wf()
        &&& self.projection_matrix.in_range()
    }

    /// A scene of the given size showing `base_mesh()`, with a new camera and a
    /// projection of a 90 degree field of view, aspect ratio `height / width`, near plane
    /// `NEAR` and far plane `FAR`.
    pub fn new(width: u32, height: u32) -> (r: Scene)
        requires
            0 < width <= MAX_SIDE,
            0 < height <= MAX_SIDE,
        ensures
            r.wf(),
            r.width == width,
            r.height == height,
            r.tris@ == base_mesh(),
            r.camera.pos == point(0, 0, 0),
            r.camera.yaw == 0,
            r.camera.look_dir == point(ONE as int, 0, 0),
            r.camera.view_mat == (Mat3D { data: [[0, 0, 0, 0], [0, 0, 0, 0], [0, 0, 0, 0], [0, 0, 0, ONE]] }),
            r.projection_matrix == projection_spec(ONE as int, (height * ONE) / (width as int), NEAR as int, FAR as int),
    {
        let tris: Vec<Tri3D> = vec![
            Tri3D::from_points(0, 0, 0, 0, ONE, 0, ONE, ONE, 0),
            Tri3D::from_points(0, 0, 0, ONE, ONE, 0, ONE, 0, 0),
            Tri3D::from_points(ONE, 0, 0, ONE, ONE, 0, ONE, ONE, ONE),
            Tri3D::from_points(ONE, 0, 0, ONE, ONE, ONE, ONE, 0, ONE),
            Tri3D::from_points(ONE, 0, ONE, ONE, ONE, ONE, 0, ONE, ONE),
            Tri3D::from_points(ONE, 0, ONE, 0, ONE, ONE, 0, 0, ONE),
        ];
        assert(tris@ =~= base_mesh());
        let aspect = (height as i64 * ONE) / width as i64;
        proof {
            assert(0 <= height * ONE <= MAX_SIDE * ONE) by (nonlinear_arith)
                requires 0 < height <= MAX_SIDE;
            assert(0 <= (height * ONE) / (width as int) <= height * ONE) by (nonlinear_arith)
                requires 0 <= height * ONE, width >= 1;
            assert(aspect * ONE / (ONE as int) == aspect) by (nonlinear_arith);
            assert((FAR * ONE) / (FAR - NEAR) == 65542);
            assert(floor_div(-FAR * NEAR, FAR - NEAR) == -6554);
        }
        let projection_matrix = Mat3D::projection(ONE, aspect, NEAR, FAR);
        Scene { width, height, tris, camera: Camera::new(), projection_matrix }
    }

    /// Renders one frame: the mesh animated by the angle with fixed-point sine
    /// `time_sin` and cosine `time_cos`, culled, seen by the camera with heading sine
    /// `yaw_sin` and cosine `yaw_cos`, clipped to the near plane, projected, divided by
    /// `w`, mapped to the surface, sorted deepest first and clipped to the surface's
    /// edges. Returns the triangles to draw, in drawing order; their `x` and `y` are
    /// fixed-point pixels.
    pub fn tick(&mut self, time_sin: i64, time_cos: i64, yaw_sin: i64, yaw_cos: i64) -> (r: Vec<Tri3D>)
        requires
            old(self).wf(),
            -ONE <= time_sin <= ONE,
            -ONE <= time_cos <= ONE,
            -ONE <= yaw_sin <= ONE,
            -ONE <= yaw_cos <= ONE,
        ensures
            final(self).wf(),
            final(self).width == old(self).width,
            final(self).height == old(self).height,
            final(self).tris@ == old(self).tris@,
            final(self).projection_matrix == old(self).projection_matrix,
            final(self).camera.pos == old(self).camera.pos,
            final(self).camera.yaw == old(self).camera.yaw,
            final(self).camera.look_dir == look_of(yaw_sin as int, yaw_cos as int),
            final(self).camera.view_mat == view_of(final(self).camera.pos, final(self).camera.look_dir),
            r@ == frame_spec(
                old(self).tris@,
                time_sin,
                time_cos,
                old(self).camera.pos,
                final(self).camera.view_mat,
                old(self).projection_matrix,
                old(self).width as int,
                old(self).height as int,
            ),
    {
        let mut tris = self.tris.clone();
        assert(tris@ =~= self.tris@);
        Scene::apply_transforms(&mut tris, time_sin, time_cos);
        keep_in_range(&mut tris);
        keep_visible(&mut tris, &self.camera.pos);
        Scene::to_view(&mut tris, &mut self.camera, yaw_sin, yaw_cos);
        keep_in_range(&mut tris);
        clip_tris(&mut tris, Vec3D::new(0, 0, NEAR), Vec3D::new(0, 0, ONE));
        Scene::project(&mut tris, &self.projection_matrix);
        keep_in_front(&mut tris);
        to_ndc(&mut tris);
        keep_in_range(&mut tris);
        ndc_to_screen(&mut tris, self.width, self.height);
        keep_in_range(&mut tris);
        sort_by_depth(&mut tris);
        let w = self.width as i64;
        let h = self.height as i64;
        clip_tris(&mut tris, Vec3D::new(0, 0, 0), Vec3D::new(0, ONE, 0));
        clip_tris(&mut tris, Vec3D::new(0, (h - 1) * ONE, 0), Vec3D::new(0, -ONE, 0));
        clip_tris(&mut tris, Vec3D::new(0, 0, 0), Vec3D::new(ONE, 0, 0));
        clip_tris(&mut tris, Vec3D::new((w - 1) * ONE, 0, 0), Vec3D::new(-ONE, 0, 0));
        tris
    }

    /// The per-frame animation (see `world_spec`).
    pub fn apply_transforms(tris: &mut Vec<Tri3D>, sin: i64, cos: i64)
        requires
            -ONE <= sin <= ONE,
            -ONE <= cos <= ONE,
        ensures
            final(tris)@ == world_spec(old(tris)@, sin, cos),
    {
        let rotate_x = Mat3D::rot_x(sin, cos);
        let rotate_y = Mat3D::rot_y(sin, cos);
        keep_in_range(tris);
        transform_all(tris, &rotate_x);
        keep_in_range(tris);
        transform_all(tris, &rotate_y);
        keep_in_range(tris);
        translate_all(tris, &Vec3D::new(0, 0, MESH_DEPTH));
    }

    /// Computes the camera's view for the heading with the given sine and cosine and
    /// takes every triangle into view space.
    pub fn to_view(tris: &mut Vec<Tri3D>, camera: &mut Camera, yaw_sin: i64, yaw_cos: i64)
        requires
            all_in_range(old(tris)@),
            old(camera).wf(),
            -ONE <= yaw_sin <= ONE,
            -ONE <= yaw_cos <= ONE,
        ensures
            final(camera).wf(),
            final(camera).pos == old(camera).pos,
            final(camera).yaw == old(camera).yaw,
            final(camera).look_dir == look_of(yaw_sin as int, yaw_cos as int),
            final(camera).view_mat == view_of(final(camera).pos, final(camera).look_dir),
            final(tris)@ == times_all(old(tris)@, final(camera).view_mat),
    {
        camera.compute_view(yaw_sin, yaw_cos);
        transform_all(tris, &camera.view_mat);
    }

    /// Multiplies every triangle by the projection matrix.
    pub fn project(tris: &mut Vec<Tri3D>, projection_matrix: &Mat3D)
        requires
            all_in_range(old(tris)@),
            projection_matrix.in_range(),
        ensures
            final(tris)@ == times_all(old(tris)@, *projection_matrix),
    {
        transform_all(tris, projection_matrix);
    }

    /// Moves or turns the camera for a key command (see `moved_pos` and `turned_yaw`);
    /// other keys change nothing.
    pub fn input(&mut self, key: char)
        requires
            old(self).wf(),
        ensures
            final(self).wf(),
            final(self).camera.pos == moved_pos(old(self).camera.pos, old(self).camera.look_dir, key),
            final(self).camera.yaw == turned_yaw(old(self).camera.yaw, key),
            final(self).camera.look_dir == old(self).camera.look_dir,
            final(self).camera.view_mat == old(self).camera.view_mat,
            final(self).width == old(self).width,
            final(self).height == old(self).height,
            final(self).tris@ == old(self).tris@,
            final(self).projection_matrix == old(self).projection_matrix,
    {
        let pos = self.camera.pos;
        let forward = self.camera.look_dir.scale(STRIDE);
        proof {
            let (lx, ly, lz) = (self.camera.look_dir.x as int, self.camera.look_dir.y as int, self.camera.look_dir.z as int);
            assert(-ONE * STRIDE <= lx * STRIDE <= ONE * STRIDE) by (nonlinear_arith) requires -ONE <= lx <= ONE;
            assert(-ONE * STRIDE <= ly * STRIDE <= ONE * STRIDE) by (nonlinear_arith) requires -ONE <= ly <= ONE;
            assert(-ONE * STRIDE <= lz * STRIDE <= ONE * STRIDE) by (nonlinear_arith) requires -ONE <= lz <= ONE;
            vstd::arithmetic::div_mod::lemma_div_is_ordered(lx * STRIDE, ONE * STRIDE, ONE as int);
            vstd::arithmetic::div_mod::lemma_div_is_ordered(-ONE * STRIDE, lx * STRIDE, ONE as int);
            vstd::arithmetic::div_mod::lemma_div_is_ordered(ly * STRIDE, ONE * STRIDE, ONE as int);
            vstd::arithmetic::div_mod::lemma_div_is_ordered(-ONE * STRIDE, ly * STRIDE, ONE as int);
            vstd::arithmetic::div_mod::lemma_div_is_ordered(lz * STRIDE, ONE * STRIDE, ONE as int);
            vstd::arithmetic::div_mod::lemma_div_is_ordered(-ONE * STRIDE, lz * STRIDE, ONE as int);
        }
        let p = if key == 'w' {
            Vec3D { x: pos.x + forward.x, y: pos.y + forward.y, z: pos.z + forward.z, w: pos.w }
        } else if key == 's' {
            Vec3D { x: pos.x - forward.x, y: pos.y - forward.y, z: pos.z - forward.z, w: pos.w }
        } else if key == 'a' {
            Vec3D { x: pos.x - STEP, ..pos }
        } else if key == 'd' {
            Vec3D { x: pos.x + STEP, ..pos }
        } else if key == 'j' {
            Vec3D { y: pos.y + STEP, ..pos }
        } else if key == 'k' {
            Vec3D { y: pos.y - STEP, ..pos }
        } else {
            pos
        };
        if -CAMERA_LIMIT <= p.x && p.x <= CAMERA_LIMIT && -CAMERA_LIMIT <= p.y && p.y <= CAMERA_LIMIT
            && -CAMERA_LIMIT <= p.z && p.z <= CAMERA_LIMIT {
            self.camera.pos = p;
        }
        let yaw = self.camera.yaw;
        let y = if key == 'q' {
            yaw + TURN
        } else if key == 'e' {
            yaw - TURN
        } else {
            yaw
        };
        if -LIMIT <= y && y <= LIMIT {
            self.camera.yaw = y;
        }
    }
}

} // verus!
