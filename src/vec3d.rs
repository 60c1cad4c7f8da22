use vstd::prelude::*;
use crate::fixed::{div_floor, div_trunc, floor_div, lemma_trunc_div_bound, lemma_trunc_div_odd, trunc_div, fx_mul, in_limit, is_sqrt_floor, isqrt, lemma_sqrt_floor, sqrt_floor, LIMIT, ONE};
use crate::transforms::Mat3D;
use vstd::arithmetic::mul::{lemma_mul_is_associative, lemma_mul_is_commutative, lemma_mul_is_distributive_add, lemma_mul_is_distributive_add_other_way, lemma_mul_is_distributive_sub};

verus! {

/// A homogeneous point or direction in fixed-point coordinates.
#[derive(Clone, Copy, Debug, PartialEq, Eq, Structural)]
pub struct Vec3D {
    pub x: i64,
    pub y: i64,
    pub z: i64,
    pub w: i64,
}

/// Column `j` of the row vector `v` times the matrix `m`.
pub open spec fn mul_col(v: Vec3D, m: Mat3D, j: int) -> int {
    (v.x * m.at(0, j) + v.y * m.at(1, j) + v.z * m.at(2, j) + v.w * m.at(3, j)) / (ONE as int)
}

/// The point `(x, y, z)` with `w` one.
pub open spec fn point(x: int, y: int, z: int) -> Vec3D {
    Vec3D { x: x as i64, y: y as i64, z: z as i64, w: ONE }
}

/// `a + b` on `x, y, z`; `w` from `a`.
pub open spec fn plus(a: Vec3D, b: Vec3D) -> Vec3D {
    Vec3D { x: (a.x + b.x) as i64, y: (a.y + b.y) as i64, z: (a.z + b.z) as i64, w: a.w }
}

/// `a - b` on `x, y, z`; `w` from `a`.
pub open spec fn minus(a: Vec3D, b: Vec3D) -> Vec3D {
    Vec3D { x: (a.x - b.x) as i64, y: (a.y - b.y) as i64, z: (a.z - b.z) as i64, w: a.w }
}

/// `v` scaled by the fixed-point factor `alpha`, as a point.
pub open spec fn scaled(v: Vec3D, alpha: int) -> Vec3D {
    point(fx_mul(v.x as int, alpha), fx_mul(v.y as int, alpha), fx_mul(v.z as int, alpha))
}

/// Fixed-point dot product of the `x, y, z` parts, rounded down.
pub open spec fn dot(a: Vec3D, b: Vec3D) -> int {
    (a.x * b.x + a.y * b.y + a.z * b.z) / (ONE as int)
}

/// Fixed-point cross product of the `x, y, z` parts, each component rounded towards
/// zero, as a point.
pub open spec fn cross(a: Vec3D, b: Vec3D) -> Vec3D {
    point(
        trunc_div(a.y * b.z - a.z * b.y, ONE as int),
        trunc_div(a.z * b.x - a.x * b.z, ONE as int),
        trunc_div(a.x * b.y - a.y * b.x, ONE as int),
    )
}

/// The cross product is antisymmetric: swapping its operands negates every component.
pub proof fn lemma_cross_antisymmetric(a: Vec3D, b: Vec3D)
    requires
        a.in_range(),
        b.in_range(),
    ensures
        cross(b, a).x == -cross(a, b).x,
        cross(b, a).y == -cross(a, b).y,
        cross(b, a).z == -cross(a, b).z,
{
    let o = ONE as int;
    let (ax, ay, az, bx, by, bz) = (a.x as int, a.y as int, a.z as int, b.x as int, b.y as int, b.z as int);
    assert(by * az - bz * ay == -(ay * bz - az * by)) by (nonlinear_arith);
    assert(bz * ax - bx * az == -(az * bx - ax * bz)) by (nonlinear_arith);
    assert(bx * ay - by * ax == -(ax * by - ay * bx)) by (nonlinear_arith);
    lemma_trunc_div_odd(ay * bz - az * by, o);
    lemma_trunc_div_odd(az * bx - ax * bz, o);
    lemma_trunc_div_odd(ax * by - ay * bx, o);
    lemma_cross_fits(ay, bz, az, by);
    lemma_cross_fits(az, bx, ax, bz);
    lemma_cross_fits(ax, by, ay, bx);
}

/// One component of the cross product of range-bounded vectors fits easily in `i64`.
proof fn lemma_cross_fits(a: int, b: int, c: int, d: int)
    requires
        in_limit(a),
        in_limit(b),
        in_limit(c),
        in_limit(d),
    ensures
        -0x200_0000_0000_0000 <= trunc_div(a * b - c * d, ONE as int) <= 0x200_0000_0000_0000,
{
    lemma_prod_bound(a, b);
    lemma_prod_bound(c, d);
    lemma_trunc_div_bound(a * b - c * d, 2 * LIMIT * LIMIT, ONE as int);
}

/// `v` at unit length, rounded down; the zero vector stays zero.
pub open spec fn unit(v: Vec3D) -> Vec3D {
    let l = len_of(v);
    if l == 0 {
        point(0, 0, 0)
    } else {
        point((v.x * ONE) / l, (v.y * ONE) / l, (v.z * ONE) / l)
    }
}

/// The row vector `v` times the matrix `m`.
pub open spec fn transformed(v: Vec3D, m: Mat3D) -> Vec3D {
    Vec3D {
        x: mul_col(v, m, 0) as i64,
        y: mul_col(v, m, 1) as i64,
        z: mul_col(v, m, 2) as i64,
        w: mul_col(v, m, 3) as i64,
    }
}

/// Squared Euclidean length of the `x, y, z` part, in squared fixed-point units.
pub open spec fn sq_len(v: Vec3D) -> int {
    v.x * v.x + v.y * v.y + v.z * v.z
}

/// Euclidean length of the `x, y, z` part, rounded down.
pub open spec fn len_of(v: Vec3D) -> int {
    sqrt_floor(sq_len(v))
}

/// Signed distance of `p` from the plane through `q` with normal `n`, scaled by the
/// normal's length and kept exact (squared fixed-point units). Its sign does not
/// depend on the normal's length.
pub open spec fn plane_dist(q: Vec3D, n: Vec3D, p: Vec3D) -> int {
    n.x * (p.x - q.x) + n.y * (p.y - q.y) + n.z * (p.z - q.z)
}

/// The point of a segment that a line-plane intersection picks, one coordinate:
/// `s + t * (e - s)` with `t = ds / (ds - de)`, rounded down.
pub open spec fn lerp_coord(s: int, e: int, ds: int, de: int) -> int {
    s + floor_div((e - s) * ds, ds - de)
}

/// The segment from `s` to `e` meets the plane: one end inside, the other outside.
pub open spec fn crosses(q: Vec3D, n: Vec3D, s: Vec3D, e: Vec3D) -> bool {
    (plane_dist(q, n, s) >= 0 && plane_dist(q, n, e) < 0) || (plane_dist(q, n, s) < 0
        && plane_dist(q, n, e) >= 0)
}

/// Where the line through `s` and `e` meets the plane through `q` with normal `n`.
pub open spec fn intersection(q: Vec3D, n: Vec3D, s: Vec3D, e: Vec3D) -> Vec3D {
    let ds = plane_dist(q, n, s);
    let de = plane_dist(q, n, e);
    Vec3D {
        x: lerp_coord(s.x as int, e.x as int, ds, de) as i64,
        y: lerp_coord(s.y as int, e.y as int, ds, de) as i64,
        z: lerp_coord(s.z as int, e.z as int, ds, de) as i64,
        w: s.w,
    }
}

impl Vec3D {
    /// All four components lie in the working range.
    pub open spec fn in_range(self) -> bool {
        in_limit(self.x as int) && in_limit(self.y as int) && in_limit(self.z as int) && in_limit(
            self.w as int,
        )
    }

    /// A point: `w` is one.
    pub fn new(x: i64, y: i64, z: i64) -> (r: Vec3D)
        ensures
            r.x == x,
            r.y == y,
            r.z == z,
            r.w == ONE,
    {
        Vec3D { x, y, z, w: ONE }
    }

    /// Component `u` (0 for x, 1 for y, 2 for z).
    pub fn index(&self, u: u8) -> (r: i64)
        requires
            u < 3,
        ensures
            r == if u == 0 {
                self.x
            } else if u == 1 {
                self.y
            } else {
                self.z
            },
    {
        if u == 0 {
            self.x
        } else if u == 1 {
            self.y
        } else {
            self.z
        }
    }

    /// Component-wise sum of the `x, y, z` parts; `w` is kept from `self`.
    pub fn add(self, other: Vec3D) -> (r: Vec3D)
        requires
            self.in_range(),
            other.in_range(),
        ensures
            r == plus(self, other),
            r.x == self.x + other.x,
            r.y == self.y + other.y,
            r.z == self.z + other.z,
    {
        Vec3D { x: self.x + other.x, y: self.y + other.y, z: self.z + other.z, w: self.w }
    }

    /// Component-wise difference of the `x, y, z` parts; `w` is kept from `self`.
    pub fn sub(self, other: Vec3D) -> (r: Vec3D)
        requires
            self.in_range(),
            other.in_range(),
        ensures
            r == minus(self, other),
            r.x == self.x - other.x,
            r.y == self.y - other.y,
            r.z == self.z - other.z,
    {
        Vec3D { x: self.x - other.x, y: self.y - other.y, z: self.z - other.z, w: self.w }
    }

    /// Each of `x, y, z` multiplied by the fixed-point factor `alpha`; the result is a point.
    pub fn scale(self, alpha: i64) -> (r: Vec3D)
        requires
            self.in_range(),
            in_limit(alpha as int),
        ensures
            r == scaled(self, alpha as int),
            r.x == fx_mul(self.x as int, alpha as int),
            r.y == fx_mul(self.y as int, alpha as int),
            r.z == fx_mul(self.z as int, alpha as int),
    {
        Vec3D::new(fx_mul_exec(self.x, alpha), fx_mul_exec(self.y, alpha), fx_mul_exec(self.z, alpha))
    }

    /// Dot product of the `x, y, z` parts, in fixed point, rounded down.
    pub fn dot_product(self, other: Vec3D) -> (r: i64)
        requires
            self.in_range(),
            other.in_range(),
        ensures
            r == dot(self, other),
    {
        proof {
            lemma_sum4_bound(self.x as int, other.x as int, self.y as int, other.y as int, self.z as int, other.z as int, 0, 0);
            lemma_prod_bound(self.x as int, other.x as int);
            lemma_prod_bound(self.y as int, other.y as int);
            lemma_prod_bound(self.z as int, other.z as int);
        }
        let s = self.x as i128 * other.x as i128 + self.y as i128 * other.y as i128 + self.z as i128
            * other.z as i128;
        div_floor(s, ONE as i128) as i64
    }

    /// Euclidean length of the `x, y, z` part, rounded down.
    pub fn length(self) -> (r: i64)
        requires
            self.in_range(),
        ensures
            r == len_of(self),
            is_sqrt_floor(r as int, sq_len(self)),
            0 <= r <= 0x40_0000_0000,
    {
        proof {
            lemma_prod_bound(self.x as int, self.x as int);
            lemma_prod_bound(self.y as int, self.y as int);
            lemma_prod_bound(self.z as int, self.z as int);
            assert(self.x * self.x >= 0 && self.y * self.y >= 0 && self.z * self.z >= 0) by (nonlinear_arith);
        }
        let s = (self.x as i128 * self.x as i128 + self.y as i128 * self.y as i128 + self.z as i128
            * self.z as i128) as u128;
        let r = isqrt(s);
        proof {
            lemma_sqrt_floor(sq_len(self), r as int);
        }
        r as i64
    }

    /// The direction of `self` at unit length (`ONE`), each component rounded down.
    /// The zero vector has no direction and normalizes to the zero point.
    pub fn normalized(self) -> (r: Vec3D)
        requires
            self.in_range(),
        ensures
            r == unit(self),
            -ONE <= r.x <= ONE && -ONE <= r.y <= ONE && -ONE <= r.z <= ONE,
            r.in_range(),
    {
        let l = self.length();
        if l == 0 {
            return Vec3D::new(0, 0, 0);
        }
        proof {
            assert(self.x * self.x >= 0 && self.y * self.y >= 0 && self.z * self.z >= 0) by (nonlinear_arith);
        }
        let x = unit_coord(self.x, l, Ghost(sq_len(self)));
        let y = unit_coord(self.y, l, Ghost(sq_len(self)));
        let z = unit_coord(self.z, l, Ghost(sq_len(self)));
        Vec3D::new(x, y, z)
    }

    /// Cross product of the `x, y, z` parts, in fixed point, each component rounded
    /// towards zero so that swapping the operands negates it; the result is a point.
    pub fn cross_product(self, other: Vec3D) -> (r: Vec3D)
        requires
            self.in_range(),
            other.in_range(),
        ensures
            r == cross(self, other),
    {
        let x = cross_coord(self.y, other.z, self.z, other.y);
        let y = cross_coord(self.z, other.x, self.x, other.z);
        let z = cross_coord(self.x, other.y, self.y, other.x);
        Vec3D::new(x, y, z)
    }

    /// Exact signed distance of `p` from the plane through `plane_pos` with normal
    /// `plane_normal` (see `plane_dist`).
    pub fn signed_distance(plane_pos: &Vec3D, plane_normal: &Vec3D, p: &Vec3D) -> (r: i128)
        requires
            plane_pos.in_range(),
            plane_normal.in_range(),
            p.in_range(),
        ensures
            r == plane_dist(*plane_pos, *plane_normal, *p),
            -0x6_0000_0000_0000_0000_00 <= r <= 0x6_0000_0000_0000_0000_00,
    {
        let n = plane_normal;
        proof {
            lemma_diff_prod_bound(n.x as int, p.x - plane_pos.x);
            lemma_diff_prod_bound(n.y as int, p.y - plane_pos.y);
            lemma_diff_prod_bound(n.z as int, p.z - plane_pos.z);
        }
        n.x as i128 * (p.x as i128 - plane_pos.x as i128) + n.y as i128 * (p.y as i128
            - plane_pos.y as i128) + n.z as i128 * (p.z as i128 - plane_pos.z as i128)
    }

    /// The point where the line through `line_start` and `line_end` meets the plane
    /// through `plane_pos` with normal `plane_normal`, for a line not parallel to the
    /// plane whose meeting point lies in the working range (always so for a segment that
    /// crosses the plane: `lemma_crossing_meets`). The normal need not have unit length:
    /// the point does not depend on it. `w` is kept from `line_start`.
    pub fn intersect_plane(
        plane_pos: &Vec3D,
        plane_normal: &Vec3D,
        line_start: &Vec3D,
        line_end: &Vec3D,
    ) -> (r: Vec3D)
        requires
            plane_pos.in_range(),
            plane_normal.in_range(),
            line_start.in_range(),
            line_end.in_range(),
            meets_in_range(*plane_pos, *plane_normal, *line_start, *line_end),
        ensures
            r == intersection(*plane_pos, *plane_normal, *line_start, *line_end),
            r.in_range(),
    {
        let ds = Vec3D::signed_distance(plane_pos, plane_normal, line_start);
        let de = Vec3D::signed_distance(plane_pos, plane_normal, line_end);
        let (p, q) = if ds - de > 0 {
            (ds, ds - de)
        } else {
            (-ds, de - ds)
        };
        proof {
            lemma_lerp_param(line_start.x as int, line_end.x as int, ds as int, de as int);
            lemma_lerp_param(line_start.y as int, line_end.y as int, ds as int, de as int);
            lemma_lerp_param(line_start.z as int, line_end.z as int, ds as int, de as int);
        }
        let x = lerp_exec(line_start.x, line_end.x, p, q);
        let y = lerp_exec(line_start.y, line_end.y, p, q);
        let z = lerp_exec(line_start.z, line_end.z, p, q);
        Vec3D { x, y, z, w: line_start.w }
    }

    /// Row vector times matrix, every column rounded down to fixed point.
    pub fn mul(self, rhs: &Mat3D) -> (r: Vec3D)
        requires
            self.in_range(),
            rhs.in_range(),
        ensures
            r == transformed(self, *rhs),
            r.x == mul_col(self, *rhs, 0),
            r.y == mul_col(self, *rhs, 1),
            r.z == mul_col(self, *rhs, 2),
            r.w == mul_col(self, *rhs, 3),
    {
        let x = Vec3D::mul_column(self, rhs, 0);
        let y = Vec3D::mul_column(self, rhs, 1);
        let z = Vec3D::mul_column(self, rhs, 2);
        let w = Vec3D::mul_column(self, rhs, 3);
        Vec3D { x, y, z, w }
    }

    fn mul_column(v: Vec3D, m: &Mat3D, j: usize) -> (r: i64)
        requires
            v.in_range(),
            m.in_range(),
            j < 4,
        ensures
            r == mul_col(v, *m, j as int),
    {
        assert(in_limit(m.at(0, j as int)) && in_limit(m.at(1, j as int)) && in_limit(m.at(2, j as int))
            && in_limit(m.at(3, j as int)));
        proof {
            lemma_prod_bound(v.x as int, m.at(0, j as int));
            lemma_prod_bound(v.y as int, m.at(1, j as int));
            lemma_prod_bound(v.z as int, m.at(2, j as int));
            lemma_prod_bound(v.w as int, m.at(3, j as int));
        }
        let s = v.x as i128 * m.data[0][j] as i128 + v.y as i128 * m.data[1][j] as i128 + v.z as i128
            * m.data[2][j] as i128 + v.w as i128 * m.data[3][j] as i128;
        proof {
            lemma_sum4_bound(v.x as int, m.at(0, j as int), v.y as int, m.at(1, j as int), v.z as int, m.at(2, j as int), v.w as int, m.at(3, j as int));
        }
        div_floor(s, ONE as i128) as i64
    }
}

/// How far below the plane a rounded intersection point may fall: the sum of the
/// magnitudes of the normal's components (squared fixed-point units, as `plane_dist`).
pub open spec fn tolerance(n: Vec3D) -> int {
    (if n.x >= 0 { n.x as int } else { -n.x }) + (if n.y >= 0 { n.y as int } else { -n.y }) + (
    if n.z >= 0 { n.z as int } else { -n.z })
}

/// The parameter `ds / (ds - de)` of the intersection as `p / d` with `d > 0`.
pub open spec fn param(ds: int, de: int) -> (int, int) {
    if ds - de > 0 {
        (ds, ds - de)
    } else {
        (-ds, de - ds)
    }
}

/// The segment from `s` to `e` is not parallel to the plane, and the point where its
/// line meets the plane lies in the working range.
pub open spec fn meets_in_range(q: Vec3D, n: Vec3D, s: Vec3D, e: Vec3D) -> bool {
    let ds = plane_dist(q, n, s);
    let de = plane_dist(q, n, e);
    &&& ds != de
    &&& in_limit(lerp_coord(s.x as int, e.x as int, ds, de))
    &&& in_limit(lerp_coord(s.y as int, e.y as int, ds, de))
    &&& in_limit(lerp_coord(s.z as int, e.z as int, ds, de))
}

/// One coordinate of the intersection, written with the normalized parameter.
proof fn lemma_lerp_param(s: int, e: int, ds: int, de: int)
    requires
        ds != de,
    ensures
        lerp_coord(s, e, ds, de) == s + ((e - s) * param(ds, de).0) / param(ds, de).1,
        param(ds, de).1 > 0,
        param(ds, de).1 * ds == param(ds, de).0 * (ds - de),
{
    let (p, d) = param(ds, de);
    assert(floor_div((e - s) * ds, ds - de) == ((e - s) * p) / d) by (nonlinear_arith)
        requires (p == ds && d == ds - de && d > 0) || (p == -ds && d == de - ds && ds - de < 0);
    assert(d * ds == p * (ds - de)) by (nonlinear_arith)
        requires (p == ds && d == ds - de) || (p == -ds && d == de - ds);
}

/// A segment that crosses the plane meets it between its ends, so in the working range.
pub proof fn lemma_crossing_meets(q: Vec3D, n: Vec3D, s: Vec3D, e: Vec3D)
    requires
        s.in_range(),
        e.in_range(),
        crosses(q, n, s, e),
    ensures
        meets_in_range(q, n, s, e),
{
    let ds = plane_dist(q, n, s);
    let de = plane_dist(q, n, e);
    let (p, d) = param(ds, de);
    assert(0 <= p <= d);
    lemma_lerp_param(s.x as int, e.x as int, ds, de);
    lemma_lerp_param(s.y as int, e.y as int, ds, de);
    lemma_lerp_param(s.z as int, e.z as int, ds, de);
    lemma_lerp_between(e.x - s.x, p, d);
    lemma_lerp_between(e.y - s.y, p, d);
    lemma_lerp_between(e.z - s.z, p, d);
}

/// Where the line through `s` and `e` meets the plane, the rounded point lies on the
/// plane up to rounding: its signed distance is within `tolerance(n)` of zero.
pub proof fn lemma_intersection_on_plane(q: Vec3D, n: Vec3D, s: Vec3D, e: Vec3D)
    requires
        q.in_range(),
        n.in_range(),
        s.in_range(),
        e.in_range(),
        meets_in_range(q, n, s, e),
    ensures
        -tolerance(n) <= plane_dist(q, n, intersection(q, n, s, e)) <= tolerance(n),
        intersection(q, n, s, e).in_range(),
{
    let ds = plane_dist(q, n, s);
    let de = plane_dist(q, n, e);
    let (p, d) = param(ds, de);
    let x = intersection(q, n, s, e);
    lemma_lerp_param(s.x as int, e.x as int, ds, de);
    lemma_lerp_param(s.y as int, e.y as int, ds, de);
    lemma_lerp_param(s.z as int, e.z as int, ds, de);
    let (ax, ay, az) = ((e.x - s.x) * p, (e.y - s.y) * p, (e.z - s.z) * p);
    let (fx, fy, fz) = (ax / d, ay / d, az / d);
    let (rx, ry, rz) = (ax % d, ay % d, az % d);
    vstd::arithmetic::div_mod::lemma_fundamental_div_mod(ax, d);
    vstd::arithmetic::div_mod::lemma_fundamental_div_mod(ay, d);
    vstd::arithmetic::div_mod::lemma_fundamental_div_mod(az, d);
    assert(x.x == s.x + fx && x.y == s.y + fy && x.z == s.z + fz);
    let dist = plane_dist(q, n, x);
    let (nx, ny, nz) = (n.x as int, n.y as int, n.z as int);
    lemma_dist_identity(
        nx, ny, nz, s.x as int, s.y as int, s.z as int, e.x as int, e.y as int, e.z as int,
        q.x as int, q.y as int, q.z as int, fx, fy, fz, rx, ry, rz, ds, de, p, d, dist,
    );
    assert(d * dist == -(nx * rx + ny * ry + nz * rz));
    let t = tolerance(n);
    let (mx, my, mz) = (if nx >= 0 { nx } else { -nx }, if ny >= 0 { ny } else { -ny }, if nz >= 0 { nz } else { -nz });
    assert(-(mx * d) <= nx * rx <= mx * d) by (nonlinear_arith)
        requires 0 <= rx < d, mx == (if nx >= 0 { nx } else { -nx });
    assert(-(my * d) <= ny * ry <= my * d) by (nonlinear_arith)
        requires 0 <= ry < d, my == (if ny >= 0 { ny } else { -ny });
    assert(-(mz * d) <= nz * rz <= mz * d) by (nonlinear_arith)
        requires 0 <= rz < d, mz == (if nz >= 0 { nz } else { -nz });
    assert(t == mx + my + mz);
    lemma_mul_is_distributive_add_other_way(d, mx, my + mz);
    lemma_mul_is_distributive_add_other_way(d, my, mz);
    lemma_mul_is_commutative(t, d);
    assert(-(t * d) <= d * dist <= t * d);
    assert(-t <= dist <= t) by (nonlinear_arith)
        requires -(t * d) <= d * dist <= t * d, d > 0;
}

/// The distance of a rounded intersection point, times the positive denominator `d`
/// of its parameter `p / d = ds / (ds - de)`, is minus the rounding remainders weighted
/// by the normal.
proof fn lemma_dist_identity(
    nx: int, ny: int, nz: int, sx: int, sy: int, sz: int, ex: int, ey: int, ez: int,
    qx: int, qy: int, qz: int, fx: int, fy: int, fz: int, rx: int, ry: int, rz: int,
    ds: int, de: int, p: int, d: int, dist: int,
)
    requires
        ds == nx * (sx - qx) + ny * (sy - qy) + nz * (sz - qz),
        de == nx * (ex - qx) + ny * (ey - qy) + nz * (ez - qz),
        d * ds == p * (ds - de),
        d * fx + rx == (ex - sx) * p,
        d * fy + ry == (ey - sy) * p,
        d * fz + rz == (ez - sz) * p,
        dist == nx * (sx + fx - qx) + ny * (sy + fy - qy) + nz * (sz + fz - qz),
    ensures
        d * dist == -(nx * rx + ny * ry + nz * rz),
{
    lemma_dist_component(nx, sx, ex, qx, fx, rx, d, p);
    lemma_dist_component(ny, sy, ey, qy, fy, ry, d, p);
    lemma_dist_component(nz, sz, ez, qz, fz, rz, d, p);
    let f = nx * fx + ny * fy + nz * fz;
    assert(dist == ds + f);
    lemma_mul_is_distributive_add(d, ds, f);
    lemma_mul_is_distributive_add(d, nx * fx, ny * fy + nz * fz);
    lemma_mul_is_distributive_add(d, ny * fy, nz * fz);
    let (ax, ay, az) = (nx * (ex - qx) - nx * (sx - qx), ny * (ey - qy) - ny * (sy - qy), nz * (ez - qz) - nz * (sz - qz));
    assert(ax + ay + az == de - ds);
    lemma_mul_is_distributive_add_other_way(p, ax, ay + az);
    lemma_mul_is_distributive_add_other_way(p, ay, az);
    lemma_mul_is_distributive_add_other_way(p, de - ds, ds - de);
    lemma_mul_is_commutative(p, ds - de);
    assert(d * dist == d * (ds + f));
    assert(d * f == d * (nx * fx) + d * (ny * fy) + d * (nz * fz));
    assert(d * f == (ax + ay + az) * p - (nx * rx + ny * ry + nz * rz));
    assert((de - ds) * p + (ds - de) * p == 0 * p);
}

/// One coordinate's share of `lemma_dist_identity`.
proof fn lemma_dist_component(n: int, s: int, e: int, q: int, f: int, r: int, d: int, ds: int)
    requires
        d * f + r == (e - s) * ds,
    ensures
        d * (n * f) == (n * (e - q) - n * (s - q)) * ds - n * r,
        n * (s + f - q) == n * (s - q) + n * f,
{
    lemma_mul_is_distributive_sub(n, (e - s) * ds, r);
    lemma_mul_is_associative(n, e - s, ds);
    lemma_mul_is_distributive_sub(n, e - q, s - q);
    assert((e - q) - (s - q) == e - s);
    lemma_mul_is_distributive_add(n, s - q, f);
    assert((s - q) + f == s + f - q);
    lemma_mul_is_associative(d, n, f);
    lemma_mul_is_commutative(d, n);
    lemma_mul_is_associative(n, d, f);
}

/// Fixed-point product of two range-bounded values.
fn fx_mul_exec(a: i64, b: i64) -> (r: i64)
    requires
        in_limit(a as int),
        in_limit(b as int),
    ensures
        r == fx_mul(a as int, b as int),
        -0x100_0000_0000_0000 <= r <= 0x100_0000_0000_0000,
{
    proof {
        lemma_prod_bound(a as int, b as int);
        vstd::arithmetic::div_mod::lemma_div_is_ordered(a * b, LIMIT * LIMIT, ONE as int);
        vstd::arithmetic::div_mod::lemma_div_is_ordered(-LIMIT * LIMIT, a * b, ONE as int);
    }
    div_floor(a as i128 * b as i128, ONE as i128) as i64
}

/// `(a * b - c * d) / ONE`, rounded towards zero.
fn cross_coord(a: i64, b: i64, c: i64, d: i64) -> (r: i64)
    requires
        in_limit(a as int),
        in_limit(b as int),
        in_limit(c as int),
        in_limit(d as int),
    ensures
        r == trunc_div(a * b - c * d, ONE as int),
{
    proof {
        lemma_prod_bound(a as int, b as int);
        lemma_prod_bound(c as int, d as int);
        lemma_cross_fits(a as int, b as int, c as int, d as int);
    }
    div_trunc(a as i128 * b as i128 - c as i128 * d as i128, ONE as i128) as i64
}

/// One coordinate of a normalized vector: `a * ONE / l` where `l` is the length.
fn unit_coord(a: i64, l: i64, s: Ghost<int>) -> (r: i64)
    requires
        in_limit(a as int),
        l > 0,
        is_sqrt_floor(l as int, s@),
        a * a <= s@,
    ensures
        r == (a * ONE) / (l as int),
        -ONE <= r <= ONE,
{
    proof {
        assert(-LIMIT * ONE <= a * ONE <= LIMIT * ONE) by (nonlinear_arith)
            requires -LIMIT <= a <= LIMIT;
    }
    let n: i128 = a as i128 * ONE as i128;
    proof {
        let li = l as int;
        let ai = a as int;
        assert(-li <= ai <= li) by (nonlinear_arith)
            requires ai * ai <= s@, s@ < (li + 1) * (li + 1), li > 0;
        assert(-li * ONE <= n <= li * ONE) by (nonlinear_arith)
            requires -li <= ai <= li, n == ai * ONE, li > 0;
        vstd::arithmetic::div_mod::lemma_div_is_ordered(n as int, li * ONE, li);
        vstd::arithmetic::div_mod::lemma_div_is_ordered(-li * ONE, n as int, li);
        assert((li * ONE) / li == ONE as int) by (nonlinear_arith) requires li > 0;
        assert((-li * ONE) / li == -ONE) by (nonlinear_arith) requires li > 0;
    }
    div_floor(n, l as i128) as i64
}

/// `s + (e - s) * p / q` rounded down, where that lies in the working range.
fn lerp_exec(s: i64, e: i64, p: i128, q: i128) -> (r: i64)
    requires
        in_limit(s as int),
        in_limit(e as int),
        -0xC_0000_0000_0000_0000_00 <= p <= 0xC_0000_0000_0000_0000_00,
        0 < q,
        in_limit(s + ((e - s) * p) / (q as int)),
    ensures
        r == s + ((e - s) * p) / (q as int),
{
    let d = e as i128 - s as i128;
    proof {
        let di = d as int;
        assert(-0x20_0000_0000 * 0xC_0000_0000_0000_0000_00 <= di * p <= 0x20_0000_0000 * 0xC_0000_0000_0000_0000_00) by (nonlinear_arith)
            requires -0x20_0000_0000 <= di <= 0x20_0000_0000, -0xC_0000_0000_0000_0000_00 <= p <= 0xC_0000_0000_0000_0000_00;
    }
    let f = div_floor(d * p, q);
    (s as i128 + f) as i64
}

/// `(d * p) / q` with `0 <= p <= q` lies between `0` and `d`.
proof fn lemma_lerp_between(d: int, p: int, q: int)
    requires
        0 <= p <= q,
        q > 0,
    ensures
        d >= 0 ==> 0 <= (d * p) / q <= d,
        d < 0 ==> d <= (d * p) / q <= 0,
{
    let f = (d * p) / q;
    vstd::arithmetic::div_mod::lemma_fundamental_div_mod(d * p, q);
    let m = (d * p) % q;
    assert(d >= 0 ==> 0 <= f <= d) by (nonlinear_arith)
        requires q * f + m == d * p, 0 <= m < q, 0 <= p <= q;
    assert(d < 0 ==> d <= f <= 0) by (nonlinear_arith)
        requires q * f + m == d * p, 0 <= m < q, 0 <= p <= q;
}

/// `a * d` for a range-bounded `a` and a difference of two range-bounded values.
proof fn lemma_diff_prod_bound(a: int, d: int)
    requires
        in_limit(a),
        -2 * LIMIT <= d <= 2 * LIMIT,
    ensures
        -2 * LIMIT * LIMIT <= a * d <= 2 * LIMIT * LIMIT,
{
    let l = LIMIT as int;
    assert(-2 * l * l <= a * d <= 2 * l * l) by (nonlinear_arith)
        requires -l <= a <= l, -2 * l <= d <= 2 * l, l > 0;
}

/// A sum of four products of range-bounded values, divided by `ONE`, fits easily in `i64`.
pub proof fn lemma_sum4_bound(a0: int, b0: int, a1: int, b1: int, a2: int, b2: int, a3: int, b3: int)
    requires
        in_limit(a0), in_limit(b0), in_limit(a1), in_limit(b1),
        in_limit(a2), in_limit(b2), in_limit(a3), in_limit(b3),
    ensures
        -4 * LIMIT * LIMIT <= a0 * b0 + a1 * b1 + a2 * b2 + a3 * b3 <= 4 * LIMIT * LIMIT,
        -288230376151711744 <= (a0 * b0 + a1 * b1 + a2 * b2 + a3 * b3) / (ONE as int) <= 288230376151711744,
{
    lemma_prod_bound(a0, b0);
    lemma_prod_bound(a1, b1);
    lemma_prod_bound(a2, b2);
    lemma_prod_bound(a3, b3);
    let s = a0 * b0 + a1 * b1 + a2 * b2 + a3 * b3;
    vstd::arithmetic::div_mod::lemma_div_is_ordered(s, 4 * LIMIT * LIMIT, ONE as int);
    vstd::arithmetic::div_mod::lemma_div_is_ordered(-4 * LIMIT * LIMIT, s, ONE as int);
}

/// The product of two range-bounded values is bounded by `LIMIT * LIMIT`.
pub proof fn lemma_prod_bound(a: int, b: int)
    requires
        in_limit(a),
        in_limit(b),
    ensures
        -LIMIT * LIMIT <= a * b <= LIMIT * LIMIT,
{
    let l = LIMIT as int;
    assert(-l * l <= a * b <= l * l) by (nonlinear_arith)
        requires -l <= a <= l, -l <= b <= l, l > 0;
}

} // verus!
