//! Units and exact division.
//!
//! Positions on the screen and normalised device coordinates are integers
//! that count fractions of a pixel: [`UNIT`] of them make one pixel, and stand
//! for the number one. A quotient of two integers is always taken downwards.

use vstd::arithmetic::div_mod::lemma_fundamental_div_mod_converse;
use vstd::prelude::*;

verus! {

/// The number of grid steps in one pixel, and the integer that stands for the
/// number one in normalised device coordinates.
pub const UNIT: i64 = 65536;

/// Half a pixel: the offset of a pixel's centre from its lower corner.
pub const HALF_UNIT: i64 = 32768;

/// The largest magnitude of a coordinate that the triangle predicates take:
/// with it every product that they form is an `i128`.
pub const COORD_LIMIT: i64 = 0x2000_0000;

/// The number of pixel columns and rows whose centres lie within
/// [`COORD_LIMIT`].
pub const PIXEL_LIMIT: u32 = 8192;

/// The largest width and height of a frame that triangles are drawn to: the
/// column behind the last one is still a column whose centre lies within
/// [`COORD_LIMIT`].
pub const FRAME_LIMIT: u32 = 8191;

/// The largest magnitude of a vector component that a dot product takes.
pub const DOT_LIMIT: i64 = 0x4000_0000_0000_0000;

pub open spec fn fits_i64(v: int) -> bool {
    i64::MIN <= v <= i64::MAX
}

/// The largest integer that is not above `a / b`, for `b` other than zero.
pub open spec fn floor_quotient(a: int, b: int) -> int {
    if b > 0 {
        a / b
    } else {
        (-a) / (-b)
    }
}

/// The smallest integer that is not below `a / b`, for `b` other than zero.
pub open spec fn ceil_quotient(a: int, b: int) -> int {
    -floor_quotient(-a, b)
}

/// The centre of pixel column or row `i`, in grid steps.
pub open spec fn pixel_centre(i: int) -> int {
    i * UNIT + HALF_UNIT
}

/// The centre of pixel column or row `i`, in grid steps.
pub fn centre_of(i: u32) -> (c: i64)
    requires
        i < PIXEL_LIMIT,
    ensures
        c == pixel_centre(i as int),
        0 <= c <= COORD_LIMIT,
{
    assert(0 <= i * UNIT + HALF_UNIT <= COORD_LIMIT) by (nonlinear_arith)
        requires
            0 <= i < 8192,
            UNIT == 65536,
            HALF_UNIT == 32768,
            COORD_LIMIT == 0x2000_0000,
    ;
    assert(0 <= i * UNIT <= COORD_LIMIT) by (nonlinear_arith)
        requires
            0 <= i < 8192,
            UNIT == 65536,
            COORD_LIMIT == 0x2000_0000,
    ;
    (i as i64) * UNIT + HALF_UNIT
}

/// What identifies the floored quotient: it is the one `q` with
/// `q * b <= a < (q + 1) * b` for a positive `b`.
pub proof fn lemma_floor_quotient_unique(a: int, b: int, q: int)
    requires
        b > 0,
        q * b <= a < q * b + b,
    ensures
        floor_quotient(a, b) == q,
{
    lemma_fundamental_div_mod_converse(a, b, q, a - q * b);
}

/// The floored quotient brackets the dividend.
pub proof fn lemma_floor_quotient_bounds(a: int, b: int)
    requires
        b > 0,
    ensures
        floor_quotient(a, b) * b <= a < floor_quotient(a, b) * b + b,
{
    vstd::arithmetic::div_mod::lemma_fundamental_div_mod(a, b);
    vstd::arithmetic::div_mod::lemma_mod_bound(a, b);
    assert(b * (a / b) == (a / b) * b) by (nonlinear_arith);
}

/// `k * a / a` is `k`.
pub proof fn lemma_exact_quotient(k: int, a: int)
    requires
        a != 0,
    ensures
        floor_quotient(k * a, a) == k,
{
    if a > 0 {
        lemma_floor_quotient_unique(k * a, a, k);
    } else {
        assert(-(k * a) == k * (-a)) by (nonlinear_arith);
        lemma_floor_quotient_unique(k * (-a), -a, k);
    }
}

/// The quotient of `a` by `b`, rounded downwards.
pub fn div_floor(a: i128, b: i128) -> (q: i128)
    requires
        b != 0,
        a > i128::MIN,
        b > i128::MIN,
    ensures
        q == floor_quotient(a as int, b as int),
{
    let (n, d): (i128, i128) = if b < 0 {
        (-a, -b)
    } else {
        (a, b)
    };
    assert(floor_quotient(a as int, b as int) == floor_quotient(n as int, d as int));
    if n >= 0 {
        n / d
    } else {
        let m: i128 = -n - 1;
        let k: i128 = m / d;
        proof {
            lemma_floor_quotient_bounds(m as int, d as int);
            assert((-k - 1) * d == -(k * d) - d) by (nonlinear_arith);
            lemma_floor_quotient_unique(n as int, d as int, -k - 1);
        }
        -k - 1
    }
}

/// The quotient of `a` by `b`, rounded upwards.
pub fn div_ceil(a: i128, b: i128) -> (q: i128)
    requires
        b != 0,
        a > i128::MIN,
        b > i128::MIN,
    ensures
        q == ceil_quotient(a as int, b as int),
{
    proof {
        if b > 0 {
            lemma_floor_quotient_bounds(-a, b as int);
            assert(floor_quotient(-a, b as int) * b >= -0x7fff_ffff_ffff_ffff_ffff_ffff_ffff_ffff - b);
            lemma_quotient_magnitude(-a, b as int);
        } else {
            lemma_floor_quotient_bounds(a as int, -b);
            lemma_quotient_magnitude(a as int, -b);
        }
    }
    -div_floor(-a, b)
}

/// A floored quotient by a positive number is no larger in magnitude than the
/// dividend, give or take one.
pub proof fn lemma_quotient_magnitude(a: int, b: int)
    requires
        b > 0,
    ensures
        a >= 0 ==> 0 <= floor_quotient(a, b) <= a,
        a < 0 ==> a <= floor_quotient(a, b) < 0,
{
    lemma_floor_quotient_bounds(a, b);
    let q = floor_quotient(a, b);
    if a >= 0 {
        assert(q >= 0) by (nonlinear_arith)
            requires
                a < q * b + b,
                a >= 0,
                b > 0,
        ;
        assert(q <= a) by (nonlinear_arith)
            requires
                q * b <= a,
                q >= 0,
                b > 0,
        ;
    } else {
        assert(q < 0) by (nonlinear_arith)
            requires
                q * b <= a,
                a < 0,
                b > 0,
        ;
        assert(q >= a) by (nonlinear_arith)
            requires
                a < q * b + b,
                q < 0,
                a < 0,
                b > 0,
        ;
    }
}

/// The product of two numbers of known size.
pub(crate) fn product_within(a: i128, b: i128, Ghost(la): Ghost<int>, Ghost(lb): Ghost<int>) -> (r: i128)
    requires
        -la <= a <= la,
        -lb <= b <= lb,
        la * lb <= i128::MAX,
    ensures
        r == a * b,
        -(la * lb) <= r <= la * lb,
{
    assert(-(la * lb) <= a * b <= la * lb) by (nonlinear_arith)
        requires
            -la <= a <= la,
            -lb <= b <= lb,
    ;
    a * b
}

/// `l` is the root of `q`, rounded downwards.
pub open spec fn is_root(l: int, q: int) -> bool {
    l >= 0 && l * l <= q < (l + 1) * (l + 1)
}

/// The square root of `q`, rounded downwards, for `q` not below zero.
pub open spec fn root(q: int) -> int {
    choose|l: int| is_root(l, q)
}

/// There is one rounded root.
pub proof fn lemma_root_unique(l: int, q: int)
    requires
        is_root(l, q),
    ensures
        root(q) == l,
{
    let r = root(q);
    assert(is_root(r, q));
    if r < l {
        assert((r + 1) * (r + 1) <= l * l) by (nonlinear_arith)
            requires
                0 <= r,
                r + 1 <= l,
        ;
    } else if l < r {
        assert((l + 1) * (l + 1) <= r * r) by (nonlinear_arith)
            requires
                0 <= l,
                l + 1 <= r,
        ;
    }
}

/// The largest number that [`floor_root`] takes.
pub const ROOT_LIMIT: i128 = 0x4000_0000_0000_0000_0000_0000_0000_0000;

/// The square root of `q`, rounded downwards.
pub fn floor_root(q: i128) -> (l: i128)
    requires
        0 <= q <= ROOT_LIMIT,
    ensures
        is_root(l as int, q as int),
        l == root(q as int),
        l <= 0x8000_0000_0000_0000,
{
    let mut lo: i128 = 0;
    let mut hi: i128 = 0x8000_0000_0000_0001;
    assert(hi * hi > q) by (nonlinear_arith)
        requires
            hi == 0x8000_0000_0000_0001,
            q <= 0x4000_0000_0000_0000_0000_0000_0000_0000,
    ;
    while hi - lo > 1
        invariant
            0 <= lo < hi <= 0x8000_0000_0000_0001,
            lo * lo <= q < hi * hi,
        decreases hi - lo,
    {
        let mid = lo + (hi - lo) / 2;
        assert(0 <= mid * mid <= 0x4000_0000_0000_0001_0000_0000_0000_0001) by (nonlinear_arith)
            requires
                0 <= mid <= 0x8000_0000_0000_0001,
        ;
        if mid * mid <= q {
            lo = mid;
        } else {
            hi = mid;
        }
    }
    proof {
        lemma_root_unique(lo as int, q as int);
    }
    lo
}

} // verus!
