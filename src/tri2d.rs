use vstd::prelude::*;
use crate::vec2d::Vec2D;

verus! {

/// A triangle in the plane.
#[derive(Clone, Copy, Debug, PartialEq, Eq, Structural)]
pub struct Tri2D {
    pub a: Vec2D,
    pub b: Vec2D,
    pub c: Vec2D,
}

impl Tri2D {
    /// Vertex `i` (0, 1 or 2).
    pub open spec fn vertex(self, i: int) -> Vec2D {
        if i == 0 {
            self.a
        } else if i == 1 {
            self.b
        } else {
            self.c
        }
    }

    pub fn new(a: Vec2D, b: Vec2D, c: Vec2D) -> (r: Tri2D)
        ensures
            r == (Tri2D { a, b, c }),
    {
        Tri2D { a, b, c }
    }

    /// A triangle of three points given coordinate by coordinate.
    pub fn from_points(a: i64, b: i64, c: i64, d: i64, e: i64, f: i64) -> (r: Tri2D)
        ensures
            r == (Tri2D { a: Vec2D { x: a, y: b }, b: Vec2D { x: c, y: d }, c: Vec2D { x: e, y: f } }),
    {
        Tri2D { a: Vec2D::new(a, b), b: Vec2D::new(c, d), c: Vec2D::new(e, f) }
    }

    /// Vertex `u` (0, 1 or 2).
    pub fn index(&self, u: u8) -> (r: Vec2D)
        requires
            u < 3,
        ensures
            r == self.vertex(u as int),
    {
        if u == 0 {
            self.a
        } else if u == 1 {
            self.b
        } else {
            self.c
        }
    }

    /// Replaces vertex `u` (0, 1 or 2) by `v`.
    pub fn set_vertex(&mut self, u: u8, v: Vec2D)
        requires
            u < 3,
        ensures
            final(self).vertex(u as int) == v,
            forall|j: int| 0 <= j < 3 && j != u ==> final(self).vertex(j) == old(self).vertex(j),
    {
        if u == 0 {
            self.a = v;
        } else if u == 1 {
            self.b = v;
        } else {
            self.c = v;
        }
    }
}

} // verus!
