use vstd::prelude::*;
use crate::transforms::Mat3D;
use crate::vec3d::{intersection, lemma_crossing_meets, lemma_intersection_on_plane, plane_dist, point, tolerance, transformed, Vec3D};

verus! {

/// A triangle with vertices `a, b, c` in winding order and a fixed-point luminance `l`.
#[derive(Clone, Copy, Debug, PartialEq, Eq, Structural)]
pub struct Tri3D {
    pub a: Vec3D,
    pub b: Vec3D,
    pub c: Vec3D,
    pub l: i64,
}

/// `p` alone if `keep`, else nothing.
pub open spec fn keep_if(p: Vec3D, keep: bool) -> Seq<Vec3D> {
    if keep {
        seq![p]
    } else {
        Seq::empty()
    }
}

/// The vertices of `t` on the inside of the plane (distance at least zero), in vertex order.
pub open spec fn inside_pts(t: Tri3D, q: Vec3D, n: Vec3D) -> Seq<Vec3D> {
    keep_if(t.a, plane_dist(q, n, t.a) >= 0) + keep_if(t.b, plane_dist(q, n, t.b) >= 0) + keep_if(
        t.c,
        plane_dist(q, n, t.c) >= 0,
    )
}

/// The vertices of `t` on the outside of the plane, in vertex order.
pub open spec fn outside_pts(t: Tri3D, q: Vec3D, n: Vec3D) -> Seq<Vec3D> {
    keep_if(t.a, plane_dist(q, n, t.a) < 0) + keep_if(t.b, plane_dist(q, n, t.b) < 0) + keep_if(
        t.c,
        plane_dist(q, n, t.c) < 0,
    )
}

/// What clipping `t` against the plane through `q` with normal `n` gives: the number
/// of triangles and the triangles themselves.
pub open spec fn clip_spec(t: Tri3D, q: Vec3D, n: Vec3D) -> (u8, Option<Tri3D>, Option<Tri3D>) {
    let ins = inside_pts(t, q, n);
    let outs = outside_pts(t, q, n);
    if ins.len() == 0 {
        (0, None, None)
    } else if ins.len() == 3 {
        (1, Some(t), None)
    } else if ins.len() == 1 {
        (
            1,
            Some(
                Tri3D {
                    a: ins[0],
                    b: intersection(q, n, ins[0], outs[0]),
                    c: intersection(q, n, ins[0], outs[1]),
                    l: t.l,
                },
            ),
            None,
        )
    } else {
        let t1 = Tri3D { a: ins[0], b: ins[1], c: intersection(q, n, ins[0], outs[0]), l: t.l };
        (
            2,
            Some(t1),
            Some(Tri3D { a: ins[1], b: t1.c, c: intersection(q, n, ins[1], outs[0]), l: t.l }),
        )
    }
}

/// The clip results as a sequence of triangles.
pub open spec fn clip_seq(t: Tri3D, q: Vec3D, n: Vec3D) -> Seq<Tri3D> {
    let r = clip_spec(t, q, n);
    if r.0 == 0 {
        Seq::empty()
    } else if r.0 == 1 {
        seq![r.1->Some_0]
    } else {
        seq![r.1->Some_0, r.2->Some_0]
    }
}

impl Tri3D {
    /// Every vertex lies in the working range.
    pub open spec fn in_range(self) -> bool {
        self.a.in_range() && self.b.in_range() && self.c.in_range()
    }

    /// Vertex `i` (0, 1 or 2).
    pub open spec fn vertex(self, i: int) -> Vec3D {
        if i == 0 {
            self.a
        } else if i == 1 {
            self.b
        } else {
            self.c
        }
    }

    /// Sum of the vertices' depths: three times the average depth, kept exact.
    pub open spec fn depth_sum(self) -> int {
        self.a.z + self.b.z + self.c.z
    }

    /// A triangle with luminance zero.
    pub fn new(a: Vec3D, b: Vec3D, c: Vec3D) -> (r: Tri3D)
        ensures
            r == (Tri3D { a, b, c, l: 0 }),
    {
        Tri3D { a, b, c, l: 0 }
    }

    /// A triangle with the given luminance.
    pub fn new_with_luminance(a: Vec3D, b: Vec3D, c: Vec3D, l: i64) -> (r: Tri3D)
        ensures
            r == (Tri3D { a, b, c, l }),
    {
        Tri3D { a, b, c, l }
    }

    /// A triangle of three points given coordinate by coordinate, with luminance zero.
    pub fn from_points(
        a: i64,
        b: i64,
        c: i64,
        d: i64,
        e: i64,
        f: i64,
        g: i64,
        h: i64,
        i: i64,
    ) -> (r: Tri3D)
        ensures
            r == (Tri3D { a: point(a as int, b as int, c as int), b: point(d as int, e as int, f as int), c: point(g as int, h as int, i as int), l: 0 }),
    {
        Tri3D { a: Vec3D::new(a, b, c), b: Vec3D::new(d, e, f), c: Vec3D::new(g, h, i), l: 0 }
    }

    /// Vertex `u` (0, 1 or 2).
    pub fn index(&self, u: u8) -> (r: Vec3D)
        requires
            u < 3,
        ensures
            r == self.vertex(u as int),
    {
        if u == 0 {
            self.a
        } else if u == 1 {
            self.b
        } else {
            self.c
        }
    }

    /// Replaces vertex `u` (0, 1 or 2) by `v`.
    pub fn set_vertex(&mut self, u: u8, v: Vec3D)
        requires
            u < 3,
        ensures
            final(self).vertex(u as int) == v,
            final(self).l == old(self).l,
            forall|j: int| 0 <= j < 3 && j != u ==> final(self).vertex(j) == old(self).vertex(j),
    {
        if u == 0 {
            self.a = v;
        } else if u == 1 {
            self.b = v;
        } else {
            self.c = v;
        }
    }

    /// Sum of the vertices' depths (three times the average depth).
    pub fn depth(&self) -> (r: i64)
        requires
            self.in_range(),
        ensures
            r == self.depth_sum(),
    {
        self.a.z + self.b.z + self.c.z
    }

    /// Every vertex times the matrix; the luminance is kept.
    pub fn mul(&self, other: &Mat3D) -> (r: Tri3D)
        requires
            self.in_range(),
            other.in_range(),
        ensures
            r == (Tri3D {
                a: transformed(self.a, *other),
                b: transformed(self.b, *other),
                c: transformed(self.c, *other),
                l: self.l,
            }),
    {
        Tri3D { a: self.a.mul(other), b: self.b.mul(other), c: self.c.mul(other), l: self.l }
    }

    /// Clips `tri` against the half-space on the non-negative side of the plane through
    /// `plane_pos` with normal `plane_normal`. Returns how many triangles remain (0, 1
    /// or 2) and those triangles, which keep the luminance of `tri`.
    pub fn clip(tri: &Tri3D, plane_pos: &Vec3D, plane_normal: &Vec3D) -> (r: (
        u8,
        Option<Tri3D>,
        Option<Tri3D>,
    ))
        requires
            tri.in_range(),
            plane_pos.in_range(),
            plane_normal.in_range(),
        ensures
            r == clip_spec(*tri, *plane_pos, *plane_normal),
            r.1 is Some ==> r.1->Some_0.in_range(),
            r.2 is Some ==> r.2->Some_0.in_range(),
    {
        let ghost (q, n, t) = (*plane_pos, *plane_normal, *tri);
        let d0 = Vec3D::signed_distance(plane_pos, plane_normal, &tri.a);
        let d1 = Vec3D::signed_distance(plane_pos, plane_normal, &tri.b);
        let d2 = Vec3D::signed_distance(plane_pos, plane_normal, &tri.c);
        let mut ins: Vec<Vec3D> = Vec::new();
        let mut outs: Vec<Vec3D> = Vec::new();
        if d0 >= 0 {
            ins.push(tri.a);
        } else {
            outs.push(tri.a);
        }
        if d1 >= 0 {
            ins.push(tri.b);
        } else {
            outs.push(tri.b);
        }
        if d2 >= 0 {
            ins.push(tri.c);
        } else {
            outs.push(tri.c);
        }
        assert(ins@ =~= inside_pts(t, q, n));
        assert(outs@ =~= outside_pts(t, q, n));
        if ins.len() == 0 {
            return (0, None, None);
        }
        if ins.len() == 3 {
            return (1, Some(*tri), None);
        }
        if ins.len() == 1 {
            let p = ins[0];
            proof {
                lemma_crossing_meets(q, n, ins@[0], outs@[0]);
                lemma_crossing_meets(q, n, ins@[0], outs@[1]);
            }
            let x0 = Vec3D::intersect_plane(plane_pos, plane_normal, &p, &outs[0]);
            let x1 = Vec3D::intersect_plane(plane_pos, plane_normal, &p, &outs[1]);
            return (1, Some(Tri3D { a: p, b: x0, c: x1, l: tri.l }), None);
        }
        let p0 = ins[0];
        let p1 = ins[1];
        proof {
            lemma_crossing_meets(q, n, ins@[0], outs@[0]);
            lemma_crossing_meets(q, n, ins@[1], outs@[0]);
        }
        let x0 = Vec3D::intersect_plane(plane_pos, plane_normal, &p0, &outs[0]);
        let x1 = Vec3D::intersect_plane(plane_pos, plane_normal, &p1, &outs[0]);
        let t1 = Tri3D { a: p0, b: p1, c: x0, l: tri.l };
        let t2 = Tri3D { a: p1, b: x0, c: x1, l: tri.l };
        (2, Some(t1), Some(t2))
    }
}

/// Clipping keeps the classification of the vertices: no triangle when no vertex is
/// inside, one when one or all three are, two when two are. The returned count says
/// how many triangles are present, and each keeps the source luminance.
pub proof fn lemma_clip_count(t: Tri3D, q: Vec3D, n: Vec3D)
    ensures
        ({
            let r = clip_spec(t, q, n);
            let k = inside_pts(t, q, n).len();
            &&& k + outside_pts(t, q, n).len() == 3
            &&& (k == 0 <==> r.0 == 0)
            &&& (k == 1 || k == 3 <==> r.0 == 1)
            &&& (k == 2 <==> r.0 == 2)
            &&& (r.1 is Some <==> r.0 >= 1)
            &&& (r.2 is Some <==> r.0 == 2)
            &&& clip_seq(t, q, n).len() == r.0
            &&& (r.1 is Some ==> r.1->Some_0.l == t.l)
            &&& (r.2 is Some ==> r.2->Some_0.l == t.l)
        }),
{
}

/// Every vertex of every triangle that clipping yields lies inside the plane, or
/// below it by no more than the rounding of an intersection point (`tolerance(n)`).
pub proof fn lemma_clip_sound(t: Tri3D, q: Vec3D, n: Vec3D)
    requires
        t.in_range(),
        q.in_range(),
        n.in_range(),
    ensures
        forall|i: int, j: int|
            0 <= i < clip_seq(t, q, n).len() && 0 <= j < 3 ==> plane_dist(
                q,
                n,
                #[trigger] clip_seq(t, q, n)[i].vertex(j),
            ) >= -tolerance(n),
{
    let ins = inside_pts(t, q, n);
    let outs = outside_pts(t, q, n);
    assert(tolerance(n) >= 0);
    if ins.len() == 1 {
        lemma_crossing_meets(q, n, ins[0], outs[0]);
        lemma_crossing_meets(q, n, ins[0], outs[1]);
        lemma_intersection_on_plane(q, n, ins[0], outs[0]);
        lemma_intersection_on_plane(q, n, ins[0], outs[1]);
    } else if ins.len() == 2 {
        lemma_crossing_meets(q, n, ins[0], outs[0]);
        lemma_crossing_meets(q, n, ins[1], outs[0]);
        lemma_intersection_on_plane(q, n, ins[0], outs[0]);
        lemma_intersection_on_plane(q, n, ins[1], outs[0]);
    }
}

/// A triangle with every vertex inside the plane comes back unchanged.
pub proof fn lemma_clip_inside(t: Tri3D, q: Vec3D, n: Vec3D)
    requires
        plane_dist(q, n, t.a) >= 0,
        plane_dist(q, n, t.b) >= 0,
        plane_dist(q, n, t.c) >= 0,
    ensures
        clip_spec(t, q, n) == (1u8, Some(t), None::<Tri3D>),
        clip_seq(t, q, n) == seq![t],
{
}

/// A triangle with every vertex outside the plane is discarded.
pub proof fn lemma_clip_outside(t: Tri3D, q: Vec3D, n: Vec3D)
    requires
        plane_dist(q, n, t.a) < 0,
        plane_dist(q, n, t.b) < 0,
        plane_dist(q, n, t.c) < 0,
    ensures
        clip_spec(t, q, n) == (0u8, None::<Tri3D>, None::<Tri3D>),
        clip_seq(t, q, n) == Seq::<Tri3D>::empty(),
{
}

} // verus!
