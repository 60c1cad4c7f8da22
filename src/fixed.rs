use vstd::prelude::*;
use vstd::arithmetic::div_mod::{lemma_fundamental_div_mod, lemma_fundamental_div_mod_converse};

verus! {

/// Number of fixed-point units in one world unit (16 fractional bits).
pub const ONE: i64 = 65536;

/// Largest magnitude of a coordinate or matrix entry on which the
/// arithmetic of this crate is defined without overflow (2^20 world units).
pub const LIMIT: i64 = 68719476736;

/// A fixed-point value inside the working range.
pub open spec fn in_limit(a: int) -> bool {
    -LIMIT <= a <= LIMIT
}

/// Product of two fixed-point values, rounded down.
pub open spec fn fx_mul(a: int, b: int) -> int {
    (a * b) / (ONE as int)
}

/// Floor of `a / b` for any nonzero `b`.
pub open spec fn floor_div(a: int, b: int) -> int {
    if b > 0 {
        a / b
    } else {
        (-a) / (-b)
    }
}

/// `a / b` rounded towards zero, for a positive `b`.
pub open spec fn trunc_div(a: int, b: int) -> int {
    if a >= 0 {
        a / b
    } else {
        -((-a) / b)
    }
}

/// Rounding towards zero is odd: negating the dividend negates the quotient.
pub proof fn lemma_trunc_div_odd(a: int, b: int)
    requires
        b > 0,
    ensures
        trunc_div(-a, b) == -trunc_div(a, b),
{
    if a == 0 {
        assert(0int / b == 0) by (nonlinear_arith) requires b > 0;
    }
}

/// A quotient rounded towards zero keeps the bound of its dividend, divided.
pub proof fn lemma_trunc_div_bound(a: int, m: int, b: int)
    requires
        -m <= a <= m,
        b > 0,
    ensures
        -(m / b) <= trunc_div(a, b) <= m / b,
{
    if a >= 0 {
        vstd::arithmetic::div_mod::lemma_div_is_ordered(a, m, b);
        vstd::arithmetic::div_mod::lemma_div_pos_is_pos(a, b);
    } else {
        vstd::arithmetic::div_mod::lemma_div_is_ordered(-a, m, b);
        vstd::arithmetic::div_mod::lemma_div_pos_is_pos(-a, b);
    }
}

/// Division of a wide intermediate by a positive divisor, rounded towards zero.
pub fn div_trunc(a: i128, b: i128) -> (r: i128)
    requires
        b > 0,
        a > i128::MIN,
    ensures
        r == trunc_div(a as int, b as int),
{
    if a >= 0 {
        a / b
    } else {
        -((-a) / b)
    }
}

/// Floor division of a wide intermediate by a positive divisor.
pub fn div_floor(a: i128, b: i128) -> (r: i128)
    requires
        b > 0,
        a > i128::MIN,
    ensures
        r == a as int / b as int,
{
    if a >= 0 {
        a / b
    } else {
        let q = (-a) / b;
        let m = (-a) % b;
        proof {
            lemma_fundamental_div_mod(-a as int, b as int);
        }
        if m == 0 {
            proof {
                let (ai, bi, qi) = (a as int, b as int, q as int);
                assert(ai == (-qi) * bi + 0) by (nonlinear_arith)
                    requires -ai == bi * qi + 0;
                lemma_fundamental_div_mod_converse(ai, bi, -qi, 0);
            }
            -q
        } else {
            proof {
                let (ai, bi, qi, mi) = (a as int, b as int, q as int, m as int);
                assert(ai == (-qi - 1) * bi + (bi - mi)) by (nonlinear_arith)
                    requires -ai == bi * qi + mi;
                lemma_fundamental_div_mod_converse(ai, bi, -qi - 1, bi - mi);
            }
            -q - 1
        }
    }
}

} // verus!

verus! {

/// `r` is the integer square root of `s`.
pub open spec fn is_sqrt_floor(r: int, s: int) -> bool {
    0 <= r && r * r <= s && s < (r + 1) * (r + 1)
}

/// The integer square root of a nonnegative integer.
pub open spec fn sqrt_floor(s: int) -> int {
    choose|r: int| is_sqrt_floor(r, s)
}

/// The integer square root exists and is unique.
pub proof fn lemma_sqrt_floor(s: int, r: int)
    requires
        is_sqrt_floor(r, s),
    ensures
        sqrt_floor(s) == r,
{
    let c = sqrt_floor(s);
    assert(is_sqrt_floor(c, s));
    if c < r {
        assert((c + 1) * (c + 1) <= r * r) by (nonlinear_arith)
            requires 0 <= c < r;
    } else if c > r {
        assert((r + 1) * (r + 1) <= c * c) by (nonlinear_arith)
            requires 0 <= r < c;
    }
}

/// Integer square root by bisection, for `s < 2^76`.
pub fn isqrt(s: u128) -> (r: u64)
    requires
        s < 0x1_0000_0000_0000_0000_000,
    ensures
        is_sqrt_floor(r as int, s as int),
        r <= 0x40_0000_0000,
{
    let mut lo: u64 = 0;
    let mut hi: u64 = 0x40_0000_0000;
    assert(0x40_0000_0000u64 as int * 0x40_0000_0000u64 as int == 0x1_0000_0000_0000_0000_000) by (nonlinear_arith);
    while hi - lo > 1
        invariant
            lo < hi <= 0x40_0000_0000,
            lo as int * lo as int <= s,
            s < hi as int * hi as int,
        decreases hi - lo,
    {
        let mid: u64 = lo + (hi - lo) / 2;
        proof {
            assert(mid as int * mid as int <= 0x40_0000_0000u64 as int * 0x40_0000_0000u64 as int) by (nonlinear_arith)
                requires mid <= 0x40_0000_0000u64;
        }
        if (mid as u128) * (mid as u128) <= s {
            lo = mid;
        } else {
            hi = mid;
        }
    }
    assert(hi == lo + 1);
    lo
}

} // verus!
