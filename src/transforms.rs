use vstd::prelude::*;
use vstd::arithmetic::div_mod::lemma_fundamental_div_mod;
use crate::fixed::{div_floor, floor_div, fx_mul, in_limit, LIMIT, ONE};
use crate::vec3d::{cross, dot, minus, scaled, transformed, unit, Vec3D};

verus! {

/// A 3x3 fixed-point matrix acting on column vectors of the plane.
#[derive(Clone, Copy, Debug)]
pub struct Mat2D {
    pub data: [[i64; 3]; 3],
}

impl Mat2D {
    /// Entry at row `i`, column `j`.
    pub open spec fn at(self, i: int, j: int) -> int {
        self.data[i][j] as int
    }

    /// Every entry lies in the working range.
    pub open spec fn in_range(self) -> bool {
        forall|i: int, j: int| 0 <= i < 3 && 0 <= j < 3 ==> in_limit(#[trigger] self.at(i, j))
    }

    /// The linear map with upper block `[[a, b], [c, d]]`.
    pub fn new(a: i64, b: i64, c: i64, d: i64) -> (r: Mat2D)
        ensures
            r == (Mat2D { data: [[a, b, 0], [c, d, 0], [0, 0, ONE]] }),
    {
        Mat2D { data: [[a, b, 0], [c, d, 0], [0, 0, ONE]] }
    }

    /// Row `u` (0 to 2).
    pub fn index(&self, u: u8) -> (r: [i64; 3])
        requires
            u < 3,
        ensures
            r == self.data[u as int],
    {
        self.data[u as usize]
    }

    /// Counter-clockwise rotation by the angle whose fixed-point sine and cosine are given.
    pub fn rot_x(sin: i64, cos: i64) -> (r: Mat2D)
        requires
            in_limit(sin as int),
            in_limit(cos as int),
        ensures
            r == (Mat2D { data: [[cos, (-sin) as i64, 0], [sin, cos, 0], [0, 0, ONE]] }),
            r.in_range(),
    {
        let r = Mat2D { data: [[cos, -sin, 0], [sin, cos, 0], [0, 0, ONE]] };
        assert forall|i: int, j: int| 0 <= i < 3 && 0 <= j < 3 implies in_limit(#[trigger] r.at(i, j)) by {
            assert(i == 0 || i == 1 || i == 2);
            assert(j == 0 || j == 1 || j == 2);
        }
        r
    }
}

/// A row-major 4x4 fixed-point matrix; a point `v` maps to `v * M`.
#[derive(Clone, Copy, Debug)]
pub struct Mat3D {
    pub data: [[i64; 4]; 4],
}

impl Mat3D {
    /// Entry at row `i`, column `j`.
    pub open spec fn at(self, i: int, j: int) -> int {
        self.data[i][j] as int
    }

    /// Every entry lies in the working range.
    pub open spec fn in_range(self) -> bool {
        forall|i: int, j: int| 0 <= i < 4 && 0 <= j < 4 ==> in_limit(#[trigger] self.at(i, j))
    }

    /// A linear map given by its 3x3 block, row by row; the last row and column are
    /// those of the identity.
    pub fn new(a: i64, b: i64, c: i64, d: i64, e: i64, f: i64, g: i64, h: i64, i: i64) -> (r: Mat3D)
        ensures
            r == (Mat3D { data: [[a, b, c, 0], [d, e, f, 0], [g, h, i, 0], [0, 0, 0, ONE]] }),
    {
        Mat3D { data: [[a, b, c, 0], [d, e, f, 0], [g, h, i, 0], [0, 0, 0, ONE]] }
    }

    /// Row `u` (0 to 3).
    pub fn index(&self, u: u8) -> (r: [i64; 4])
        requires
            u < 4,
        ensures
            r == self.data[u as int],
    {
        self.data[u as usize]
    }

    /// Cheap inverse of a rotation followed by a translation: the 3x3 block is
    /// transposed and the translation row becomes minus its dot products with the rows.
    pub fn quick_inverse(&self) -> (r: Mat3D)
        requires
            self.in_range(),
        ensures
            r == quick_inverse_spec(*self),
    {
        let d = &self.data;
        let s0 = shift_entry(self, 0);
        let s1 = shift_entry(self, 1);
        let s2 = shift_entry(self, 2);
        Mat3D {
            data: [
                [d[0][0], d[1][0], d[2][0], 0],
                [d[0][1], d[1][1], d[2][1], 0],
                [d[0][2], d[1][2], d[2][2], 0],
                [s0, s1, s2, ONE],
            ],
        }
    }

    /// The camera matrix at `pos` looking towards `target`, with `up` (each component
    /// at most one in magnitude) giving the world's up direction.
    pub fn point_at(pos: &Vec3D, target: &Vec3D, up: &Vec3D) -> (r: Mat3D)
        requires
            pos.in_range(),
            target.in_range(),
            minus(*target, *pos).in_range(),
            -ONE <= up.x <= ONE && -ONE <= up.y <= ONE && -ONE <= up.z <= ONE,
            -ONE <= up.w <= ONE,
        ensures
            r == point_at_spec(*pos, *target, *up),
            r.in_range(),
            forall|i: int, j: int| 0 <= i < 3 && 0 <= j < 3 ==> -2 * ONE <= #[trigger] r.at(i, j) <= 2 * ONE,
    {
        let forward = target.sub(*pos).normalized();
        proof {
            crate::vec3d::lemma_sum4_bound(up.x as int, forward.x as int, up.y as int, forward.y as int, up.z as int, forward.z as int, 0, 0);
            let (ux, uy, uz, fx, fy, fz) = (up.x as int, up.y as int, up.z as int, forward.x as int, forward.y as int, forward.z as int);
            assert(-3 * ONE * ONE <= ux * fx + uy * fy + uz * fz <= 3 * ONE * ONE) by (nonlinear_arith)
                requires -ONE <= ux <= ONE, -ONE <= uy <= ONE, -ONE <= uz <= ONE,
                    -ONE <= fx <= ONE, -ONE <= fy <= ONE, -ONE <= fz <= ONE;
            vstd::arithmetic::div_mod::lemma_div_is_ordered(ux * fx + uy * fy + uz * fz, 3 * ONE * ONE, ONE as int);
            vstd::arithmetic::div_mod::lemma_div_is_ordered(-3 * ONE * ONE, ux * fx + uy * fy + uz * fz, ONE as int);
        }
        let along = up.dot_product(forward);
        let tmp = forward.scale(along);
        proof {
            let (fx, fy, fz, a) = (forward.x as int, forward.y as int, forward.z as int, along as int);
            assert(-3 * ONE * ONE <= fx * a <= 3 * ONE * ONE) by (nonlinear_arith)
                requires -ONE <= fx <= ONE, -3 * ONE <= a <= 3 * ONE;
            assert(-3 * ONE * ONE <= fy * a <= 3 * ONE * ONE) by (nonlinear_arith)
                requires -ONE <= fy <= ONE, -3 * ONE <= a <= 3 * ONE;
            assert(-3 * ONE * ONE <= fz * a <= 3 * ONE * ONE) by (nonlinear_arith)
                requires -ONE <= fz <= ONE, -3 * ONE <= a <= 3 * ONE;
            vstd::arithmetic::div_mod::lemma_div_is_ordered(fx * a, 3 * ONE * ONE, ONE as int);
            vstd::arithmetic::div_mod::lemma_div_is_ordered(-3 * ONE * ONE, fx * a, ONE as int);
            vstd::arithmetic::div_mod::lemma_div_is_ordered(fy * a, 3 * ONE * ONE, ONE as int);
            vstd::arithmetic::div_mod::lemma_div_is_ordered(-3 * ONE * ONE, fy * a, ONE as int);
            vstd::arithmetic::div_mod::lemma_div_is_ordered(fz * a, 3 * ONE * ONE, ONE as int);
            vstd::arithmetic::div_mod::lemma_div_is_ordered(-3 * ONE * ONE, fz * a, ONE as int);
        }
        let new_up = up.sub(tmp).normalized();
        let right = new_up.cross_product(forward);
        proof {
            let (ax, ay, az, bx, by, bz) = (new_up.x as int, new_up.y as int, new_up.z as int, forward.x as int, forward.y as int, forward.z as int);
            assert((2 * ONE * ONE) / (ONE as int) == 2 * ONE);
            assert(-2 * ONE * ONE <= ay * bz - az * by <= 2 * ONE * ONE) by (nonlinear_arith)
                requires -ONE <= ay <= ONE, -ONE <= az <= ONE, -ONE <= by <= ONE, -ONE <= bz <= ONE;
            assert(-2 * ONE * ONE <= az * bx - ax * bz <= 2 * ONE * ONE) by (nonlinear_arith)
                requires -ONE <= ax <= ONE, -ONE <= az <= ONE, -ONE <= bx <= ONE, -ONE <= bz <= ONE;
            assert(-2 * ONE * ONE <= ax * by - ay * bx <= 2 * ONE * ONE) by (nonlinear_arith)
                requires -ONE <= ax <= ONE, -ONE <= ay <= ONE, -ONE <= bx <= ONE, -ONE <= by <= ONE;
            crate::fixed::lemma_trunc_div_bound(ay * bz - az * by, 2 * ONE * ONE, ONE as int);
            crate::fixed::lemma_trunc_div_bound(az * bx - ax * bz, 2 * ONE * ONE, ONE as int);
            crate::fixed::lemma_trunc_div_bound(ax * by - ay * bx, 2 * ONE * ONE, ONE as int);
        }
        let r = Mat3D {
            data: [
                [right.x, right.y, right.z, 0],
                [new_up.x, new_up.y, new_up.z, 0],
                [forward.x, forward.y, forward.z, 0],
                [pos.x, pos.y, pos.z, ONE],
            ],
        };
        proof {
            lemma_in_range(r);
            assert forall|i: int, j: int| 0 <= i < 3 && 0 <= j < 3 implies -2 * ONE <= #[trigger] r.at(i, j) <= 2 * ONE by {
                assert(i == 0 || i == 1 || i == 2);
                assert(j == 0 || j == 1 || j == 2);
            }
        }
        r
    }

    /// Rotation about the x axis by the angle whose fixed-point sine and cosine are given.
    pub fn rot_x(sin: i64, cos: i64) -> (r: Mat3D)
        requires
            in_limit(sin as int),
            in_limit(cos as int),
        ensures
            r == rot_x_spec(sin, cos),
            r.in_range(),
    {
        let r = Mat3D { data: [[ONE, 0, 0, 0], [0, cos, sin, 0], [0, -sin, cos, 0], [0, 0, 0, ONE]] };
        proof {
            lemma_in_range(r);
        }
        r
    }

    /// Rotation about the y axis by the angle whose fixed-point sine and cosine are given.
    pub fn rot_y(sin: i64, cos: i64) -> (r: Mat3D)
        requires
            in_limit(sin as int),
            in_limit(cos as int),
        ensures
            r == rot_y_spec(sin, cos),
            r.in_range(),
    {
        let r = Mat3D { data: [[cos, 0, sin, 0], [0, ONE, 0, 0], [-sin, 0, cos, 0], [0, 0, 0, ONE]] };
        proof {
            lemma_in_range(r);
        }
        r
    }

    /// Rotation about the z axis by the angle whose fixed-point sine and cosine are given.
    pub fn rot_z(sin: i64, cos: i64) -> (r: Mat3D)
        requires
            in_limit(sin as int),
            in_limit(cos as int),
        ensures
            r == rot_z_spec(sin, cos),
            r.in_range(),
    {
        let r = Mat3D { data: [[cos, sin, 0, 0], [-sin, cos, 0, 0], [0, 0, ONE, 0], [0, 0, 0, ONE]] };
        proof {
            lemma_in_range(r);
        }
        r
    }

    /// Translation by `(x, y, z)`.
    pub fn translation(x: i64, y: i64, z: i64) -> (r: Mat3D)
        ensures
            r == (Mat3D { data: [[ONE, 0, 0, 0], [0, ONE, 0, 0], [0, 0, ONE, 0], [x, y, z, ONE]] }),
    {
        Mat3D { data: [[ONE, 0, 0, 0], [0, ONE, 0, 0], [0, 0, ONE, 0], [x, y, z, ONE]] }
    }

    /// Perspective projection. `fov_scale` is `1 / tan(fov / 2)` in fixed point; depth
    /// is remapped linearly so that `near` goes to 0 and `far` to one, and `w` takes the
    /// view-space depth.
    pub fn projection(fov_scale: i64, aspect_ratio: i64, near: i64, far: i64) -> (r: Mat3D)
        requires
            in_limit(fov_scale as int),
            in_limit(aspect_ratio as int),
            0 < near < far <= LIMIT,
            in_limit(fx_mul(aspect_ratio as int, fov_scale as int)),
            in_limit((far * ONE) / (far - near)),
            in_limit(floor_div(-far * near, far - near)),
        ensures
            r.in_range(),
            r == projection_spec(fov_scale as int, aspect_ratio as int, near as int, far as int),
    {
        proof {
            crate::vec3d::lemma_prod_bound(aspect_ratio as int, fov_scale as int);
            vstd::arithmetic::div_mod::lemma_div_is_ordered(aspect_ratio * fov_scale, LIMIT * LIMIT, ONE as int);
            vstd::arithmetic::div_mod::lemma_div_is_ordered(-LIMIT * LIMIT, aspect_ratio * fov_scale, ONE as int);
            crate::vec3d::lemma_prod_bound(far as int, near as int);
            assert(far * ONE <= LIMIT * ONE) by (nonlinear_arith) requires far <= LIMIT;
            assert(0 <= (far * ONE) / (far - near) <= far * ONE) by (nonlinear_arith)
                requires far - near >= 1, far * ONE >= 0;
            assert(far * near >= 0) by (nonlinear_arith) requires far > 0, near > 0;
            assert(-far * near == -(far * near)) by (nonlinear_arith);
        }
        let a = div_floor(aspect_ratio as i128 * fov_scale as i128, ONE as i128) as i64;
        let zz = div_floor(far as i128 * ONE as i128, (far - near) as i128) as i64;
        let zw = div_floor(-(far as i128 * near as i128), (far - near) as i128) as i64;
        let r = Mat3D { data: [[a, 0, 0, 0], [0, fov_scale, 0, 0], [0, 0, zz, ONE], [0, 0, zw, 0]] };
        proof {
            lemma_in_range(r);
        }
        r
    }
}

/// Rotation about the x axis; see `Mat3D::rot_x`.
pub open spec fn rot_x_spec(sin: i64, cos: i64) -> Mat3D {
    Mat3D { data: [[ONE, 0, 0, 0], [0, cos, sin, 0], [0, (-sin) as i64, cos, 0], [0, 0, 0, ONE]] }
}

/// Rotation about the y axis; see `Mat3D::rot_y`.
pub open spec fn rot_y_spec(sin: i64, cos: i64) -> Mat3D {
    Mat3D { data: [[cos, 0, sin, 0], [0, ONE, 0, 0], [(-sin) as i64, 0, cos, 0], [0, 0, 0, ONE]] }
}

/// Rotation about the z axis; see `Mat3D::rot_z`.
pub open spec fn rot_z_spec(sin: i64, cos: i64) -> Mat3D {
    Mat3D { data: [[cos, sin, 0, 0], [(-sin) as i64, cos, 0, 0], [0, 0, ONE, 0], [0, 0, 0, ONE]] }
}

/// The fixed-point sine and cosine of one angle, each rounded to the nearest unit:
/// both at most one in magnitude, and the sum of their squares within `2 * ONE` of
/// `ONE * ONE`.
pub open spec fn rounded_unit_pair(sin: int, cos: int) -> bool {
    -ONE <= sin <= ONE && -ONE <= cos <= ONE && ONE * ONE - 2 * ONE <= sin * sin + cos * cos <= ONE
        * ONE + 2 * ONE
}

/// `b` is within the error of a rotation and its inverse of `a`: `2 |a| / ONE + 3` units.
pub open spec fn turned_back(a: int, b: int) -> bool {
    let m = if a >= 0 { a } else { -a };
    -(2 * m + 3 * ONE) <= ONE * (b - a) <= 2 * m + 3 * ONE
}

/// Turning the plane point `(x, y)` by a rounded sine and cosine and back, each step
/// rounded down to fixed point, lands within `turned_back` of where it started.
pub proof fn lemma_turn_back(x: int, y: int, s: int, c: int)
    requires
        in_limit(x),
        in_limit(y),
        rounded_unit_pair(s, c),
    ensures
        ({
            let x1 = (x * c + y * (-s)) / (ONE as int);
            let y1 = (x * s + y * c) / (ONE as int);
            &&& turned_back(x, (x1 * c + y1 * s) / (ONE as int))
            &&& turned_back(y, (x1 * (-s) + y1 * c) / (ONE as int))
        }),
{
    let o = ONE as int;
    let x1 = (x * c + y * (-s)) / o;
    let y1 = (x * s + y * c) / o;
    let x2 = (x1 * c + y1 * s) / o;
    let y2 = (x1 * (-s) + y1 * c) / o;
    lemma_fundamental_div_mod(x * c + y * (-s), o);
    lemma_fundamental_div_mod(x * s + y * c, o);
    lemma_fundamental_div_mod(x1 * c + y1 * s, o);
    lemma_fundamental_div_mod(x1 * (-s) + y1 * c, o);
    let r1 = (x * c + y * (-s)) % o;
    let r2 = (x * s + y * c) % o;
    let r3 = (x1 * c + y1 * s) % o;
    let r4 = (x1 * (-s) + y1 * c) % o;
    let d = s * s + c * c - o * o;
    let (bx, by) = (o * x1, o * y1);
    assert(y * (-s) == -(y * s)) by (nonlinear_arith);
    assert(x1 * (-s) == -(x1 * s)) by (nonlinear_arith);
    assert(bx == x * c - y * s - r1);
    assert(by == x * s + y * c - r2);
    assert(o * (x1 * c) == bx * c && o * (y1 * s) == by * s && o * (x1 * s) == bx * s
        && o * (y1 * c) == by * c) by (nonlinear_arith)
        requires bx == o * x1, by == o * y1;
    assert(bx * c == x * (c * c) - (y * s) * c - r1 * c) by (nonlinear_arith)
        requires bx == x * c - y * s - r1;
    assert(by * s == x * (s * s) + (y * c) * s - r2 * s) by (nonlinear_arith)
        requires by == x * s + y * c - r2;
    assert(bx * s == x * (c * s) - y * (s * s) - r1 * s) by (nonlinear_arith)
        requires bx == x * c - y * s - r1;
    assert(by * c == x * (s * c) + y * (c * c) - r2 * c) by (nonlinear_arith)
        requires by == x * s + y * c - r2;
    assert((y * s) * c == (y * c) * s && c * s == s * c) by (nonlinear_arith);
    assert(o * (o * x2) == o * (x1 * c) + o * (y1 * s) - o * r3) by (nonlinear_arith)
        requires o * x2 + r3 == x1 * c + y1 * s;
    assert(o * (o * y2) == -(o * (x1 * s)) + o * (y1 * c) - o * r4) by (nonlinear_arith)
        requires o * y2 + r4 == -(x1 * s) + y1 * c;
    assert(x * (c * c) + x * (s * s) == x * (s * s + c * c)) by (nonlinear_arith);
    assert(y * (s * s) + y * (c * c) == y * (s * s + c * c)) by (nonlinear_arith);
    assert(o * o * x2 == o * (o * x2) && o * o * y2 == o * (o * y2)) by (nonlinear_arith);
    assert(o * o * x2 == x * (s * s + c * c) - c * r1 - s * r2 - o * r3) by (nonlinear_arith)
        requires
            o * o * x2 == o * (o * x2),
            o * (o * x2) == bx * c + by * s - o * r3,
            bx * c == x * (c * c) - (y * s) * c - r1 * c,
            by * s == x * (s * s) + (y * c) * s - r2 * s,
            (y * s) * c == (y * c) * s,
            x * (c * c) + x * (s * s) == x * (s * s + c * c);
    assert(o * o * y2 == y * (s * s + c * c) + s * r1 - c * r2 - o * r4) by (nonlinear_arith)
        requires
            o * o * y2 == o * (o * y2),
            o * (o * y2) == -(bx * s) + by * c - o * r4,
            bx * s == x * (c * s) - y * (s * s) - r1 * s,
            by * c == x * (s * c) + y * (c * c) - r2 * c,
            c * s == s * c,
            y * (s * s) + y * (c * c) == y * (s * s + c * c);
    assert(o * (o * (x2 - x)) == x * d - c * r1 - s * r2 - o * r3) by (nonlinear_arith)
        requires o * o * x2 == x * (s * s + c * c) - c * r1 - s * r2 - o * r3, d == s * s + c * c - o * o;
    assert(o * (o * (y2 - y)) == y * d + s * r1 - c * r2 - o * r4) by (nonlinear_arith)
        requires o * o * y2 == y * (s * s + c * c) + s * r1 - c * r2 - o * r4, d == s * s + c * c - o * o;
    lemma_error_bound(x, d, c, s, r1, r2, r3, o * (x2 - x));
    assert((-s) * r1 == -(s * r1)) by (nonlinear_arith);
    lemma_error_bound(y, d, -s, c, r1, r2, r4, o * (y2 - y));
}

/// `o * e == a * d - p * r - q * t - o * u` with every term bounded gives
/// `|e| <= 2 |a| + 3 o`.
proof fn lemma_error_bound(a: int, d: int, p: int, q: int, r: int, t: int, u: int, e: int)
    requires
        -2 * ONE <= d <= 2 * ONE,
        -ONE <= p <= ONE,
        -ONE <= q <= ONE,
        -ONE < r < ONE,
        0 <= t < ONE,
        0 <= u < ONE,
        ONE * e == a * d - p * r - q * t - ONE * u,
    ensures
        -(2 * (if a >= 0 { a } else { -a }) + 3 * ONE) <= e <= 2 * (if a >= 0 { a } else { -a }) + 3 * ONE,
{
    let o = ONE as int;
    let m = if a >= 0 { a } else { -a };
    assert(-2 * o * m <= a * d <= 2 * o * m) by (nonlinear_arith)
        requires -2 * o <= d <= 2 * o, m == (if a >= 0 { a } else { -a }), o > 0;
    assert(-o * o <= p * r <= o * o) by (nonlinear_arith)
        requires -o <= p <= o, -o < r < o;
    assert(-o * o <= q * t <= o * o) by (nonlinear_arith)
        requires -o <= q <= o, 0 <= t < o;
    assert(0 <= o * u <= o * o) by (nonlinear_arith)
        requires 0 <= u < o, o > 0;
    assert(-(2 * m + 3 * o) <= e <= 2 * m + 3 * o) by (nonlinear_arith)
        requires
            o * e == a * d - p * r - q * t - o * u,
            -2 * o * m <= a * d <= 2 * o * m,
            -o * o <= p * r <= o * o,
            -o * o <= q * t <= o * o,
            0 <= o * u <= o * o,
            o > 0;
}

/// The perspective projection matrix; see `Mat3D::projection`.
pub open spec fn projection_spec(fov_scale: int, aspect_ratio: int, near: int, far: int) -> Mat3D {
    Mat3D {
        data: [
            [fx_mul(aspect_ratio, fov_scale) as i64, 0, 0, 0],
            [0, fov_scale as i64, 0, 0],
            [0, 0, ((far * ONE) / (far - near)) as i64, ONE],
            [0, 0, floor_div(-far * near, far - near) as i64, 0],
        ],
    }
}

/// Column `j` of the translation row of the quick inverse of `m`: minus the
/// translation row dotted with row `j`, in fixed point, rounded down.
pub open spec fn inverse_shift(m: Mat3D, j: int) -> int {
    (-(m.at(3, 0) * m.at(j, 0) + m.at(3, 1) * m.at(j, 1) + m.at(3, 2) * m.at(j, 2))) / (ONE as int)
}

/// The quick inverse of `m`: its 3x3 block transposed, its translation row replaced by
/// `inverse_shift`.
pub open spec fn quick_inverse_spec(m: Mat3D) -> Mat3D {
    Mat3D {
        data: [
            [m.data[0][0], m.data[1][0], m.data[2][0], 0],
            [m.data[0][1], m.data[1][1], m.data[2][1], 0],
            [m.data[0][2], m.data[1][2], m.data[2][2], 0],
            [inverse_shift(m, 0) as i64, inverse_shift(m, 1) as i64, inverse_shift(m, 2) as i64, ONE],
        ],
    }
}

/// The camera basis that looks from `pos` towards `target` with `up` as the world's up:
/// rows right, up, forward (Gram-Schmidt against `up`), then the position.
pub open spec fn point_at_spec(pos: Vec3D, target: Vec3D, up: Vec3D) -> Mat3D {
    let forward = unit(minus(target, pos));
    let new_up = unit(minus(up, scaled(forward, dot(up, forward))));
    let right = cross(new_up, forward);
    Mat3D {
        data: [
            [right.x, right.y, right.z, 0],
            [new_up.x, new_up.y, new_up.z, 0],
            [forward.x, forward.y, forward.z, 0],
            [pos.x, pos.y, pos.z, ONE],
        ],
    }
}

/// One entry of the translation row of `quick_inverse`.
fn shift_entry(m: &Mat3D, j: usize) -> (r: i64)
    requires
        m.in_range(),
        j < 3,
    ensures
        r == inverse_shift(*m, j as int),
{
    let d = &m.data;
    assert(in_limit(m.at(3, 0)) && in_limit(m.at(3, 1)) && in_limit(m.at(3, 2)));
    assert(in_limit(m.at(j as int, 0)) && in_limit(m.at(j as int, 1)) && in_limit(m.at(j as int, 2)));
    proof {
        crate::vec3d::lemma_prod_bound(m.at(3, 0), m.at(j as int, 0));
        crate::vec3d::lemma_prod_bound(m.at(3, 1), m.at(j as int, 1));
        crate::vec3d::lemma_prod_bound(m.at(3, 2), m.at(j as int, 2));
        crate::vec3d::lemma_sum4_bound(-m.at(3, 0), m.at(j as int, 0), -m.at(3, 1), m.at(j as int, 1), -m.at(3, 2), m.at(j as int, 2), 0, 0);
        assert(-(m.at(3, 0) * m.at(j as int, 0) + m.at(3, 1) * m.at(j as int, 1) + m.at(3, 2) * m.at(j as int, 2))
            == (-m.at(3, 0)) * m.at(j as int, 0) + (-m.at(3, 1)) * m.at(j as int, 1) + (-m.at(3, 2)) * m.at(j as int, 2)) by (nonlinear_arith);
    }
    let s = d[3][0] as i128 * d[j][0] as i128 + d[3][1] as i128 * d[j][1] as i128 + d[3][2] as i128 * d[j][2] as i128;
    div_floor(-s, ONE as i128) as i64
}

/// A matrix whose sixteen entries are each in the working range is in range.
pub proof fn lemma_in_range(m: Mat3D)
    requires
        in_limit(m.at(0, 0)), in_limit(m.at(0, 1)), in_limit(m.at(0, 2)), in_limit(m.at(0, 3)),
        in_limit(m.at(1, 0)), in_limit(m.at(1, 1)), in_limit(m.at(1, 2)), in_limit(m.at(1, 3)),
        in_limit(m.at(2, 0)), in_limit(m.at(2, 1)), in_limit(m.at(2, 2)), in_limit(m.at(2, 3)),
        in_limit(m.at(3, 0)), in_limit(m.at(3, 1)), in_limit(m.at(3, 2)), in_limit(m.at(3, 3)),
    ensures
        m.in_range(),
{
    assert forall|i: int, j: int| 0 <= i < 4 && 0 <= j < 4 implies in_limit(#[trigger] m.at(i, j)) by {
        assert(i == 0 || i == 1 || i == 2 || i == 3);
        assert(j == 0 || j == 1 || j == 2 || j == 3);
    }
}

/// `b` is `a` turned and turned back: each coordinate within `turned_back`, `w` exact.
pub open spec fn vertex_turned_back(a: Vec3D, b: Vec3D) -> bool {
    turned_back(a.x as int, b.x as int) && turned_back(a.y as int, b.y as int) && turned_back(
        a.z as int,
        b.z as int,
    ) && a.w == b.w
}

/// The plane rotation `(p, q) -> ((p c - q s) / ONE, (p s + q c) / ONE)` stays in `i64`
/// for coordinates up to twice the working range.
proof fn lemma_turn_fits(p: int, q: int, s: int, c: int, l: int)
    requires
        -l <= p <= l,
        -l <= q <= l,
        0 < l <= 2 * LIMIT,
        -ONE <= s <= ONE,
        -ONE <= c <= ONE,
    ensures
        -2 * l <= (p * c + q * (-s)) / (ONE as int) <= 2 * l,
        -2 * l <= (p * s + q * c) / (ONE as int) <= 2 * l,
{
    let o = ONE as int;
    assert(-2 * l * o <= p * c + q * (-s) <= 2 * l * o) by (nonlinear_arith)
        requires -l <= p <= l, -l <= q <= l, -o <= s <= o, -o <= c <= o, l > 0, o > 0;
    assert(-2 * l * o <= p * s + q * c <= 2 * l * o) by (nonlinear_arith)
        requires -l <= p <= l, -l <= q <= l, -o <= s <= o, -o <= c <= o, l > 0, o > 0;
    assert((2 * l * o) / o == 2 * l && (-2 * l * o) / o == -2 * l) by (nonlinear_arith) requires o > 0;
    vstd::arithmetic::div_mod::lemma_div_is_ordered(p * c + q * (-s), 2 * l * o, o);
    vstd::arithmetic::div_mod::lemma_div_is_ordered(-2 * l * o, p * c + q * (-s), o);
    vstd::arithmetic::div_mod::lemma_div_is_ordered(p * s + q * c, 2 * l * o, o);
    vstd::arithmetic::div_mod::lemma_div_is_ordered(-2 * l * o, p * s + q * c, o);
}

/// A coordinate times `ONE`, divided by `ONE`, is itself; times zero it vanishes.
proof fn lemma_unit_entry(a: int)
    ensures
        (a * ONE) / (ONE as int) == a,
        a * 0 == 0,
{
    assert((a * ONE) / (ONE as int) == a) by (nonlinear_arith);
}

/// `v` times `rot_z_spec(s, c)`, coordinate by coordinate.
proof fn lemma_rot_z_of(v: Vec3D, s: i64, c: i64)
    requires
        -2 * LIMIT <= v.x <= 2 * LIMIT,
        -2 * LIMIT <= v.y <= 2 * LIMIT,
        -ONE <= s <= ONE,
        -ONE <= c <= ONE,
    ensures
        transformed(v, rot_z_spec(s, c)).x == (v.x * c + v.y * (-s)) / (ONE as int),
        transformed(v, rot_z_spec(s, c)).y == (v.x * s + v.y * c) / (ONE as int),
        transformed(v, rot_z_spec(s, c)).z == v.z,
        transformed(v, rot_z_spec(s, c)).w == v.w,
{
    lemma_turn_fits(v.x as int, v.y as int, s as int, c as int, 2 * LIMIT);
    lemma_unit_entry(v.x as int);
    lemma_unit_entry(v.y as int);
    lemma_unit_entry(v.z as int);
    lemma_unit_entry(v.w as int);
}

/// `v` times `rot_x_spec(s, c)`, coordinate by coordinate.
proof fn lemma_rot_x_of(v: Vec3D, s: i64, c: i64)
    requires
        -2 * LIMIT <= v.y <= 2 * LIMIT,
        -2 * LIMIT <= v.z <= 2 * LIMIT,
        -ONE <= s <= ONE,
        -ONE <= c <= ONE,
    ensures
        transformed(v, rot_x_spec(s, c)).x == v.x,
        transformed(v, rot_x_spec(s, c)).y == (v.y * c + v.z * (-s)) / (ONE as int),
        transformed(v, rot_x_spec(s, c)).z == (v.y * s + v.z * c) / (ONE as int),
        transformed(v, rot_x_spec(s, c)).w == v.w,
{
    lemma_turn_fits(v.y as int, v.z as int, s as int, c as int, 2 * LIMIT);
    lemma_unit_entry(v.x as int);
    lemma_unit_entry(v.y as int);
    lemma_unit_entry(v.z as int);
    lemma_unit_entry(v.w as int);
}

/// `v` times `rot_y_spec(s, c)`, coordinate by coordinate.
proof fn lemma_rot_y_of(v: Vec3D, s: i64, c: i64)
    requires
        -2 * LIMIT <= v.x <= 2 * LIMIT,
        -2 * LIMIT <= v.z <= 2 * LIMIT,
        -ONE <= s <= ONE,
        -ONE <= c <= ONE,
    ensures
        transformed(v, rot_y_spec(s, c)).x == (v.x * c + v.z * (-s)) / (ONE as int),
        transformed(v, rot_y_spec(s, c)).y == v.y,
        transformed(v, rot_y_spec(s, c)).z == (v.x * s + v.z * c) / (ONE as int),
        transformed(v, rot_y_spec(s, c)).w == v.w,
{
    lemma_turn_fits(v.x as int, v.z as int, s as int, c as int, 2 * LIMIT);
    lemma_unit_entry(v.x as int);
    lemma_unit_entry(v.y as int);
    lemma_unit_entry(v.z as int);
    lemma_unit_entry(v.w as int);
}

/// Turning a point about any axis by a rounded sine and cosine and then by the inverse
/// rotation (the sine negated) brings it back to within `vertex_turned_back`.
pub proof fn lemma_vertex_round_trip(v: Vec3D, s: i64, c: i64)
    requires
        v.in_range(),
        rounded_unit_pair(s as int, c as int),
    ensures
        vertex_turned_back(v, transformed(transformed(v, rot_x_spec(s, c)), rot_x_spec((-s) as i64, c))),
        vertex_turned_back(v, transformed(transformed(v, rot_y_spec(s, c)), rot_y_spec((-s) as i64, c))),
        vertex_turned_back(v, transformed(transformed(v, rot_z_spec(s, c)), rot_z_spec((-s) as i64, c))),
{
    let ns = (-s) as i64;
    assert(turned_back(v.x as int, v.x as int) && turned_back(v.y as int, v.y as int) && turned_back(v.z as int, v.z as int));
    lemma_turn_back(v.x as int, v.y as int, s as int, c as int);
    lemma_rot_z_of(v, s, c);
    let v1 = transformed(v, rot_z_spec(s, c));
    lemma_turn_fits(v.x as int, v.y as int, s as int, c as int, LIMIT as int);
    assert(-ns == s);
    lemma_rot_z_of(v1, ns, c);

    lemma_turn_back(v.y as int, v.z as int, s as int, c as int);
    lemma_rot_x_of(v, s, c);
    let v2 = transformed(v, rot_x_spec(s, c));
    lemma_turn_fits(v.y as int, v.z as int, s as int, c as int, LIMIT as int);
    lemma_rot_x_of(v2, ns, c);

    lemma_turn_back(v.x as int, v.z as int, s as int, c as int);
    lemma_rot_y_of(v, s, c);
    let v3 = transformed(v, rot_y_spec(s, c));
    lemma_turn_fits(v.x as int, v.z as int, s as int, c as int, LIMIT as int);
    lemma_rot_y_of(v3, ns, c);
}

/// The quick inverse of a rotation about any axis is the rotation by the opposite
/// angle (the sine negated).
pub proof fn lemma_quick_inverse_of_rotation(s: i64, c: i64)
    requires
        in_limit(s as int),
        in_limit(c as int),
    ensures
        quick_inverse_spec(rot_x_spec(s, c)) == rot_x_spec((-s) as i64, c),
        quick_inverse_spec(rot_y_spec(s, c)) == rot_y_spec((-s) as i64, c),
        quick_inverse_spec(rot_z_spec(s, c)) == rot_z_spec((-s) as i64, c),
{
    lemma_no_shift(rot_x_spec(s, c));
    lemma_no_shift(rot_y_spec(s, c));
    lemma_no_shift(rot_z_spec(s, c));
    assert(quick_inverse_spec(rot_x_spec(s, c)).data =~= rot_x_spec((-s) as i64, c).data);
    assert(quick_inverse_spec(rot_y_spec(s, c)).data =~= rot_y_spec((-s) as i64, c).data);
    assert(quick_inverse_spec(rot_z_spec(s, c)).data =~= rot_z_spec((-s) as i64, c).data);
}

/// A matrix without translation has no shift in its quick inverse.
proof fn lemma_no_shift(m: Mat3D)
    requires
        m.at(3, 0) == 0,
        m.at(3, 1) == 0,
        m.at(3, 2) == 0,
    ensures
        inverse_shift(m, 0) == 0,
        inverse_shift(m, 1) == 0,
        inverse_shift(m, 2) == 0,
{
    assert forall|j: int| inverse_shift(m, j) == 0 by {
        let (a, b, c) = (m.at(j, 0), m.at(j, 1), m.at(j, 2));
        assert(m.at(3, 0) * a + m.at(3, 1) * b + m.at(3, 2) * c == 0) by (nonlinear_arith)
            requires m.at(3, 0) == 0, m.at(3, 1) == 0, m.at(3, 2) == 0;
    }
}

/// A point with coordinates within half the working range.
pub open spec fn in_half_range(v: Vec3D) -> bool {
    -LIMIT / 2 <= v.x <= LIMIT / 2 && -LIMIT / 2 <= v.y <= LIMIT / 2 && -LIMIT / 2 <= v.z
        <= LIMIT / 2 && in_limit(v.w as int)
}

/// Turning a point within half the working range about any axis keeps it in the
/// working range, so it can be turned again.
pub proof fn lemma_rotation_in_range(v: Vec3D, s: i64, c: i64)
    requires
        in_half_range(v),
        -ONE <= s <= ONE,
        -ONE <= c <= ONE,
    ensures
        transformed(v, rot_x_spec(s, c)).in_range(),
        transformed(v, rot_y_spec(s, c)).in_range(),
        transformed(v, rot_z_spec(s, c)).in_range(),
{
    lemma_rot_x_of(v, s, c);
    lemma_rot_y_of(v, s, c);
    lemma_rot_z_of(v, s, c);
    lemma_turn_fits(v.y as int, v.z as int, s as int, c as int, LIMIT / 2);
    lemma_turn_fits(v.x as int, v.z as int, s as int, c as int, LIMIT / 2);
    lemma_turn_fits(v.x as int, v.y as int, s as int, c as int, LIMIT / 2);
}

} // verus!
