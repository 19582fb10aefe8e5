//! Vectors in space with integer components.

use crate::fixed::div_floor;
use crate::fixed::DOT_LIMIT;
use crate::fixed::fits_i64;
use crate::fixed::floor_quotient;
use crate::fixed::floor_root;
use crate::fixed::root;
use crate::fixed::UNIT;
use vstd::prelude::*;

verus! {

/// A triple of integers: what a [`Vector3`] or a position stands for in
/// contracts.
pub struct V3 {
    pub x: int,
    pub y: int,
    pub z: int,
}

impl V3 {
    pub open spec fn plus(self, other: V3) -> V3 {
        V3 { x: self.x + other.x, y: self.y + other.y, z: self.z + other.z }
    }

    pub open spec fn minus(self, other: V3) -> V3 {
        V3 { x: self.x - other.x, y: self.y - other.y, z: self.z - other.z }
    }

    pub open spec fn scaled(self, k: int) -> V3 {
        V3 { x: self.x * k, y: self.y * k, z: self.z * k }
    }

    pub open spec fn negated(self) -> V3 {
        V3 { x: -self.x, y: -self.y, z: -self.z }
    }

    /// The cross product by the right-hand rule.
    pub open spec fn cross(self, other: V3) -> V3 {
        V3 {
            x: self.y * other.z - self.z * other.y,
            y: self.z * other.x - self.x * other.z,
            z: self.x * other.y - self.y * other.x,
        }
    }

    /// The sum of the products of the components, pair by pair.
    pub open spec fn dot(self, other: V3) -> int {
        self.x * other.x + self.y * other.y + self.z * other.z
    }

    /// The vector of the same direction and the length [`UNIT`]: each
    /// component times [`UNIT`], divided by the length of the vector; the
    /// length and the quotients are rounded downwards.
    pub open spec fn normalized(self) -> V3 {
        let len = root(self.dot(self));
        V3 {
            x: floor_quotient(self.x * UNIT, len),
            y: floor_quotient(self.y * UNIT, len),
            z: floor_quotient(self.z * UNIT, len),
        }
    }

    /// Every component is an `i64`.
    pub open spec fn fits(self) -> bool {
        fits_i64(self.x) && fits_i64(self.y) && fits_i64(self.z)
    }

    /// No component is larger in magnitude than `bound`.
    pub open spec fn within(self, bound: int) -> bool {
        &&& -bound <= self.x <= bound
        &&& -bound <= self.y <= bound
        &&& -bound <= self.z <= bound
    }
}

/// A vector is perpendicular to its cross product with any other, on
/// either side.
pub proof fn lemma_cross_is_perpendicular(a: V3, b: V3)
    ensures
        a.x * a.cross(b).x + a.y * a.cross(b).y + a.z * a.cross(b).z == 0,
        b.x * a.cross(b).x + b.y * a.cross(b).y + b.z * a.cross(b).z == 0,
{
    assert(a.x * (a.y * b.z - a.z * b.y) == (a.x * a.y) * b.z - (a.x * a.z) * b.y)
        by (nonlinear_arith);
    assert(a.y * (a.z * b.x - a.x * b.z) == (a.y * a.z) * b.x - (a.x * a.y) * b.z)
        by (nonlinear_arith);
    assert(a.z * (a.x * b.y - a.y * b.x) == (a.x * a.z) * b.y - (a.y * a.z) * b.x)
        by (nonlinear_arith);
    assert(b.x * (a.y * b.z - a.z * b.y) == (b.x * b.z) * a.y - (b.x * b.y) * a.z)
        by (nonlinear_arith);
    assert(b.y * (a.z * b.x - a.x * b.z) == (b.x * b.y) * a.z - (b.y * b.z) * a.x)
        by (nonlinear_arith);
    assert(b.z * (a.x * b.y - a.y * b.x) == (b.y * b.z) * a.x - (b.x * b.z) * a.y)
        by (nonlinear_arith);
}

/// The squares of three numbers within [`DOT_LIMIT`] and their sum.
proof fn lemma_squares(x: int, y: int, z: int)
    requires
        -DOT_LIMIT <= x <= DOT_LIMIT,
        -DOT_LIMIT <= y <= DOT_LIMIT,
        -DOT_LIMIT <= z <= DOT_LIMIT,
    ensures
        0 <= x * x <= x * x + y * y + z * z,
        0 <= y * y <= x * x + y * y + z * z,
        0 <= z * z <= x * x + y * y + z * z,
        x * x + y * y + z * z <= 0x3000_0000_0000_0000_0000_0000_0000_0000,
{
    assert(0 <= x * x <= 0x1000_0000_0000_0000_0000_0000_0000_0000) by (nonlinear_arith)
        requires
            -0x4000_0000_0000_0000 <= x <= 0x4000_0000_0000_0000,
    ;
    assert(0 <= y * y <= 0x1000_0000_0000_0000_0000_0000_0000_0000) by (nonlinear_arith)
        requires
            -0x4000_0000_0000_0000 <= y <= 0x4000_0000_0000_0000,
    ;
    assert(0 <= z * z <= 0x1000_0000_0000_0000_0000_0000_0000_0000) by (nonlinear_arith)
        requires
            -0x4000_0000_0000_0000 <= z <= 0x4000_0000_0000_0000,
    ;
}

/// A vector in space.
#[derive(Debug, Clone, Copy, PartialEq, Eq, Structural)]
pub struct Vector3 {
    pub x: i64,
    pub y: i64,
    pub z: i64,
}

impl View for Vector3 {
    type V = V3;

    open spec fn view(&self) -> V3 {
        V3 { x: self.x as int, y: self.y as int, z: self.z as int }
    }
}

/// `a * b - c * d`, which an `i128` holds for any four `i64`.
pub fn product_difference(a: i64, b: i64, c: i64, d: i64) -> (r: i128)
    ensures
        r == a * b - c * d,
{
    assert(-0x3fff_ffff_ffff_ffff_8000_0000_0000_0000 <= a * b
        <= 0x4000_0000_0000_0000_0000_0000_0000_0000) by (nonlinear_arith)
        requires
            -0x8000_0000_0000_0000 <= a <= 0x7fff_ffff_ffff_ffff,
            -0x8000_0000_0000_0000 <= b <= 0x7fff_ffff_ffff_ffff,
    ;
    assert(-0x3fff_ffff_ffff_ffff_8000_0000_0000_0000 <= c * d
        <= 0x4000_0000_0000_0000_0000_0000_0000_0000) by (nonlinear_arith)
        requires
            -0x8000_0000_0000_0000 <= c <= 0x7fff_ffff_ffff_ffff,
            -0x8000_0000_0000_0000 <= d <= 0x7fff_ffff_ffff_ffff,
    ;
    (a as i128) * (b as i128) - (c as i128) * (d as i128)
}

impl Vector3 {
    pub fn from_xyz(x: i64, y: i64, z: i64) -> (r: Self)
        ensures
            r == (Vector3 { x, y, z }),
    {
        Vector3 { x, y, z }
    }

    pub fn x(&self) -> (r: i64)
        ensures
            r == self.x,
    {
        self.x
    }

    pub fn y(&self) -> (r: i64)
        ensures
            r == self.y,
    {
        self.y
    }

    pub fn z(&self) -> (r: i64)
        ensures
            r == self.z,
    {
        self.z
    }

    /// The sum of two vectors, where it has `i64` components.
    pub fn add(&self, other: &Vector3) -> (r: Vector3)
        requires
            self@.plus(other@).fits(),
        ensures
            r@ == self@.plus(other@),
    {
        Vector3 { x: self.x + other.x, y: self.y + other.y, z: self.z + other.z }
    }

    /// The difference of two vectors, where it has `i64` components.
    pub fn sub(&self, other: &Vector3) -> (r: Vector3)
        requires
            self@.minus(other@).fits(),
        ensures
            r@ == self@.minus(other@),
    {
        Vector3 { x: self.x - other.x, y: self.y - other.y, z: self.z - other.z }
    }

    /// The vector stretched by the factor `k`, where it has `i64` components.
    pub fn scale(&self, k: i64) -> (r: Vector3)
        requires
            self@.scaled(k as int).fits(),
        ensures
            r@ == self@.scaled(k as int),
    {
        Vector3 { x: self.x * k, y: self.y * k, z: self.z * k }
    }

    /// The cross product by the right-hand rule, where it has `i64`
    /// components.
    pub fn cross(&self, other: &Vector3) -> (r: Vector3)
        requires
            self@.cross(other@).fits(),
        ensures
            r@ == self@.cross(other@),
    {
        let x = product_difference(self.y, other.z, self.z, other.y);
        let y = product_difference(self.z, other.x, self.x, other.z);
        let z = product_difference(self.x, other.y, self.y, other.x);
        Vector3 { x: x as i64, y: y as i64, z: z as i64 }
    }

    /// The vector of the same direction and the length [`UNIT`], for a vector
    /// whose components stay within [`DOT_LIMIT`]. The zero vector has no
    /// direction, and nothing is returned for it.
    pub fn normalize(&self) -> (r: Option<Vector3>)
        requires
            self@.within(DOT_LIMIT as int),
        ensures
            r is None <==> self@.dot(self@) == 0,
            r matches Some(v) ==> v@ == self@.normalized() && v@.within(UNIT as int),
    {
        let q = self.dot(self);
        proof {
            lemma_squares(self.x as int, self.y as int, self.z as int);
        }
        if q == 0 {
            return None;
        }
        let len = floor_root(q);
        assert(len > 0) by {
            if len == 0 {
                assert((len + 1) * (len + 1) == 1) by (nonlinear_arith)
                    requires
                        len == 0,
                ;
            }
        }
        Some(
            Vector3 {
                x: unit_share(self.x, len, Ghost(q as int)),
                y: unit_share(self.y, len, Ghost(q as int)),
                z: unit_share(self.z, len, Ghost(q as int)),
            },
        )
    }

    /// The dot product of two vectors whose components stay within
    /// [`DOT_LIMIT`].
    pub fn dot(&self, other: &Vector3) -> (r: i128)
        requires
            self@.within(DOT_LIMIT as int),
            other@.within(DOT_LIMIT as int),
        ensures
            r == self@.dot(other@),
    {
        let a = bounded_product(self.x, other.x);
        let b = bounded_product(self.y, other.y);
        let c = bounded_product(self.z, other.z);
        a + b + c
    }
}

/// `c * UNIT / len` rounded downwards, for a component `c` of a vector of
/// the rounded length `len`.
fn unit_share(c: i64, len: i128, Ghost(q): Ghost<int>) -> (r: i64)
    requires
        -DOT_LIMIT <= c <= DOT_LIMIT,
        len > 0,
        crate::fixed::is_root(len as int, q),
        c * c <= q,
    ensures
        r == floor_quotient(c * UNIT, len as int),
        -UNIT <= r <= UNIT,
{
    assert(-0x4000_0000_0000_0000_0000 <= c * UNIT <= 0x4000_0000_0000_0000_0000)
        by (nonlinear_arith)
        requires
            -0x4000_0000_0000_0000 <= c <= 0x4000_0000_0000_0000,
            UNIT == 65536,
    ;
    let a: i128 = (c as i128) * (UNIT as i128);
    let s = div_floor(a, len);
    proof {
        // the component is no longer than the vector
        if c > len || -c > len {
            assert(c * c >= (len + 1) * (len + 1)) by (nonlinear_arith)
                requires
                    c >= len + 1 || c <= -(len + 1),
                    len > 0,
            ;
        }
        assert(-(len * UNIT) <= a <= len * UNIT) by (nonlinear_arith)
            requires
                a == c * UNIT,
                -len <= c <= len,
                UNIT == 65536,
        ;
        crate::fixed::lemma_floor_quotient_bounds(a as int, len as int);
        if s > UNIT {
            assert(s * len >= (UNIT + 1) * len) by (nonlinear_arith)
                requires
                    s >= UNIT + 1,
                    len > 0,
            ;
            assert((UNIT + 1) * len == len * UNIT + len) by (nonlinear_arith);
        }
        if s < -UNIT {
            assert(s * len + len <= (-UNIT) * len) by (nonlinear_arith)
                requires
                    s + 1 <= -UNIT,
                    len > 0,
            ;
            assert((-UNIT) * len == -(len * UNIT)) by (nonlinear_arith);
        }
    }
    s as i64
}

/// The product of two numbers within [`DOT_LIMIT`].
fn bounded_product(a: i64, b: i64) -> (r: i128)
    requires
        -DOT_LIMIT <= a <= DOT_LIMIT,
        -DOT_LIMIT <= b <= DOT_LIMIT,
    ensures
        r == a * b,
        -0x1000_0000_0000_0000_0000_0000_0000_0000 <= r <= 0x1000_0000_0000_0000_0000_0000_0000_0000,
{
    assert(-0x1000_0000_0000_0000_0000_0000_0000_0000 <= a * b
        <= 0x1000_0000_0000_0000_0000_0000_0000_0000) by (nonlinear_arith)
        requires
            -0x4000_0000_0000_0000 <= a <= 0x4000_0000_0000_0000,
            -0x4000_0000_0000_0000 <= b <= 0x4000_0000_0000_0000,
    ;
    (a as i128) * (b as i128)
}

} // verus!
