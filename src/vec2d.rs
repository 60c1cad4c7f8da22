use vstd::prelude::*;
use crate::fixed::{div_floor, in_limit, is_sqrt_floor, isqrt, lemma_sqrt_floor, sqrt_floor, ONE};
use crate::transforms::Mat2D;
use crate::vec3d::{lemma_prod_bound, lemma_sum4_bound};

verus! {

/// A point or direction in the plane, in fixed-point coordinates.
#[derive(Clone, Copy, Debug, PartialEq, Eq, Structural)]
pub struct Vec2D {
    pub x: i64,
    pub y: i64,
}

/// Euclidean length of `v`, rounded down.
pub open spec fn len2_of(v: Vec2D) -> int {
    sqrt_floor(v.x * v.x + v.y * v.y)
}

impl Vec2D {
    /// Both components lie in the working range.
    pub open spec fn in_range(self) -> bool {
        in_limit(self.x as int) && in_limit(self.y as int)
    }

    pub fn new(x: i64, y: i64) -> (r: Vec2D)
        ensures
            r == (Vec2D { x, y }),
    {
        Vec2D { x, y }
    }

    /// Component `u` (0 for x, 1 for y).
    pub fn index(&self, u: u8) -> (r: i64)
        requires
            u < 2,
        ensures
            r == if u == 0 { self.x } else { self.y },
    {
        if u == 0 {
            self.x
        } else {
            self.y
        }
    }

    /// Component-wise sum.
    pub fn add(self, other: Vec2D) -> (r: Vec2D)
        requires
            self.in_range(),
            other.in_range(),
        ensures
            r.x == self.x + other.x,
            r.y == self.y + other.y,
    {
        Vec2D { x: self.x + other.x, y: self.y + other.y }
    }

    /// Component-wise difference.
    pub fn sub(self, other: Vec2D) -> (r: Vec2D)
        requires
            self.in_range(),
            other.in_range(),
        ensures
            r.x == self.x - other.x,
            r.y == self.y - other.y,
    {
        Vec2D { x: self.x - other.x, y: self.y - other.y }
    }

    /// The matrix's upper 2x2 block times the column vector `self`, rounded down.
    pub fn mul(self, rhs: Mat2D) -> (r: Vec2D)
        requires
            self.in_range(),
            rhs.in_range(),
        ensures
            r.x == (self.x * rhs.at(0, 0) + self.y * rhs.at(0, 1)) / (ONE as int),
            r.y == (self.x * rhs.at(1, 0) + self.y * rhs.at(1, 1)) / (ONE as int),
    {
        assert(in_limit(rhs.at(0, 0)) && in_limit(rhs.at(0, 1)) && in_limit(rhs.at(1, 0)) && in_limit(rhs.at(1, 1)));
        let x = row_dot(self, rhs.data[0][0], rhs.data[0][1]);
        let y = row_dot(self, rhs.data[1][0], rhs.data[1][1]);
        Vec2D { x, y }
    }

    /// The direction of `self` at unit length (`ONE`), rounded down; the zero vector
    /// stays zero.
    pub fn normalized(self) -> (r: Vec2D)
        requires
            self.in_range(),
        ensures
            len2_of(self) == 0 ==> r == (Vec2D { x: 0, y: 0 }),
            len2_of(self) != 0 ==> r.x == (self.x * ONE) / len2_of(self) && r.y == (self.y * ONE)
                / len2_of(self),
    {
        proof {
            lemma_prod_bound(self.x as int, self.x as int);
            lemma_prod_bound(self.y as int, self.y as int);
            assert(self.x * self.x >= 0 && self.y * self.y >= 0) by (nonlinear_arith);
        }
        let s = (self.x as i128 * self.x as i128 + self.y as i128 * self.y as i128) as u128;
        let l = isqrt(s);
        proof {
            lemma_sqrt_floor(self.x * self.x + self.y * self.y, l as int);
        }
        if l == 0 {
            return Vec2D { x: 0, y: 0 };
        }
        Vec2D { x: unit2(self.x, l as i64, Ghost(self.x * self.x + self.y * self.y)), y: unit2(self.y, l as i64, Ghost(self.x * self.x + self.y * self.y)) }
    }
}

fn row_dot(v: Vec2D, a: i64, b: i64) -> (r: i64)
    requires
        v.in_range(),
        in_limit(a as int),
        in_limit(b as int),
    ensures
        r == (v.x * a + v.y * b) / (ONE as int),
{
    proof {
        lemma_prod_bound(v.x as int, a as int);
        lemma_prod_bound(v.y as int, b as int);
        lemma_sum4_bound(v.x as int, a as int, v.y as int, b as int, 0, 0, 0, 0);
    }
    div_floor(v.x as i128 * a as i128 + v.y as i128 * b as i128, ONE as i128) as i64
}

fn unit2(a: i64, l: i64, s: Ghost<int>) -> (r: i64)
    requires
        in_limit(a as int),
        l > 0,
        is_sqrt_floor(l as int, s@),
        a * a <= s@,
    ensures
        r == (a * ONE) / (l as int),
{
    proof {
        let (li, ai) = (l as int, a as int);
        assert(-li <= ai <= li) by (nonlinear_arith)
            requires ai * ai <= s@, s@ < (li + 1) * (li + 1), li > 0;
        assert(-li * ONE <= ai * ONE <= li * ONE) by (nonlinear_arith)
            requires -li <= ai <= li, li > 0;
        vstd::arithmetic::div_mod::lemma_div_is_ordered(ai * ONE, li * ONE, li);
        vstd::arithmetic::div_mod::lemma_div_is_ordered(-li * ONE, ai * ONE, li);
        assert((li * ONE) / li == ONE as int) by (nonlinear_arith) requires li > 0;
        assert((-li * ONE) / li == -ONE) by (nonlinear_arith) requires li > 0;
    }
    div_floor(a as i128 * ONE as i128, l as i128) as i64
}

} // verus!
