//! Positions in space, and their homogeneous form.

use crate::determinant::Determinant;
use crate::fixed::div_floor;
use crate::fixed::fits_i64;
use crate::fixed::floor_quotient;
use crate::vector::V3;
use crate::vector::Vector3;
use vstd::prelude::*;

verus! {

/// A position in space.
#[derive(Debug, Clone, Copy, PartialEq, Eq, Structural)]
pub struct Pos3 {
    pub x: i64,
    pub y: i64,
    pub z: i64,
}

impl View for Pos3 {
    type V = V3;

    open spec fn view(&self) -> V3 {
        V3 { x: self.x as int, y: self.y as int, z: self.z as int }
    }
}

/// The position that a homogeneous row `(x, y, z, w)` stands for: each of the
/// first three cells divided by the fourth, rounded downwards.
pub open spec fn divided(x: int, y: int, z: int, w: int) -> V3 {
    V3 { x: floor_quotient(x, w), y: floor_quotient(y, w), z: floor_quotient(z, w) }
}

impl Pos3 {
    pub fn new(x: i64, y: i64, z: i64) -> (r: Self)
        ensures
            r == (Pos3 { x, y, z }),
    {
        Pos3 { x, y, z }
    }

    pub fn from_xyz(x: i64, y: i64, z: i64) -> (r: Self)
        ensures
            r == (Pos3 { x, y, z }),
    {
        Pos3 { x, y, z }
    }

    pub fn x(&self) -> (r: i64)
        ensures
            r == self.x,
    {
        self.x
    }

    pub fn y(&self) -> (r: i64)
        ensures
            r == self.y,
    {
        self.y
    }

    pub fn z(&self) -> (r: i64)
        ensures
            r == self.z,
    {
        self.z
    }

    /// The vector that leads from `other` to this position, where it has
    /// `i64` components.
    pub fn sub(&self, other: &Pos3) -> (r: Vector3)
        requires
            self@.minus(other@).fits(),
        ensures
            r@ == self@.minus(other@),
    {
        Vector3 { x: self.x - other.x, y: self.y - other.y, z: self.z - other.z }
    }

    /// The position moved along `v`, where it has `i64` coordinates.
    pub fn add(&self, v: &Vector3) -> (r: Pos3)
        requires
            self@.plus(v@).fits(),
        ensures
            r@ == self@.plus(v@),
    {
        Pos3 { x: self.x + v.x, y: self.y + v.y, z: self.z + v.z }
    }

    /// The homogeneous row `(x, y, z, 1)`.
    pub fn to_homogeneous(&self) -> (r: Determinant)
        ensures
            r.wf(),
            r@.rows == 1,
            r@.cols == 4,
            r@.cells[0] == seq![self.x as int, self.y as int, self.z as int, 1int],
    {
        let mut elements: Vec<i128> = Vec::new();
        elements.push(self.x as i128);
        elements.push(self.y as i128);
        elements.push(self.z as i128);
        elements.push(1);
        let r = Determinant::from_vec(1, 4, false, elements).unwrap();
        assert(r@.cells[0] =~= seq![self.x as int, self.y as int, self.z as int, 1int]);
        r
    }

    /// The position that a homogeneous row stands for.
    ///
    /// There is one exactly when the matrix is a single row of four cells,
    /// the fourth is not zero, and each of the other three, divided by it and
    /// rounded downwards, is an `i64`.
    pub fn from_matrix(m: &Determinant) -> (r: Option<Pos3>)
        requires
            m.wf(),
        ensures
            r is Some <==> {
                &&& m@.rows == 1
                &&& m@.cols == 4
                &&& m@.cells[0][3] != 0
                &&& divided(m@.cells[0][0], m@.cells[0][1], m@.cells[0][2], m@.cells[0][3]).fits()
            },
            r matches Some(p) ==> p@ == divided(
                m@.cells[0][0],
                m@.cells[0][1],
                m@.cells[0][2],
                m@.cells[0][3],
            ),
    {
        if m.m() != 1 || m.n() != 4 {
            return None;
        }
        let w = m.index(0, 3);
        if w == 0 {
            return None;
        }
        let x = quotient_i64(m.index(0, 0), w);
        let y = quotient_i64(m.index(0, 1), w);
        let z = quotient_i64(m.index(0, 2), w);
        match (x, y, z) {
            (Some(x), Some(y), Some(z)) => Some(Pos3 { x, y, z }),
            _ => None,
        }
    }
}

/// `a / b` rounded downwards, where that is an `i64`.
pub fn quotient_i64(a: i128, b: i128) -> (r: Option<i64>)
    requires
        b != 0,
    ensures
        r is Some <==> fits_i64(floor_quotient(a as int, b as int)),
        r matches Some(q) ==> q == floor_quotient(a as int, b as int),
{
    if b == i128::MIN {
        // The divisor is larger in magnitude than any dividend but itself.
        proof {
            let d = 0x8000_0000_0000_0000_0000_0000_0000_0000int;
            if a == i128::MIN {
                crate::fixed::lemma_floor_quotient_unique(-a, d, 1);
            } else if a > 0 {
                crate::fixed::lemma_floor_quotient_unique(-a, d, -1);
            } else {
                crate::fixed::lemma_floor_quotient_unique(-a, d, 0);
            }
        }
        if a == i128::MIN {
            Some(1)
        } else if a > 0 {
            Some(-1)
        } else {
            Some(0)
        }
    } else if a == i128::MIN {
        if b > 0 {
            let q = div_floor(a + b, b);
            proof {
                crate::fixed::lemma_floor_quotient_bounds(a + b, b as int);
                let k = floor_quotient(a + b, b as int);
                assert((k - 1) * b == k * b - b) by (nonlinear_arith);
                crate::fixed::lemma_floor_quotient_unique(a as int, b as int, k - 1);
                crate::fixed::lemma_quotient_magnitude(a + b, b as int);
            }
            narrow(q - 1)
        } else if b == -1 {
            proof {
                crate::fixed::lemma_floor_quotient_unique(-a, 1, -a);
            }
            None
        } else {
            let q = div_floor(a - b, b);
            proof {
                crate::fixed::lemma_floor_quotient_bounds(-(a - b), -b);
                let k = floor_quotient(-(a - b), -b);
                assert((k + 1) * (-b) == k * (-b) - b) by (nonlinear_arith);
                crate::fixed::lemma_floor_quotient_unique(-a, -b, k + 1);
                crate::fixed::lemma_quotient_magnitude(-(a - b), -b);
            }
            narrow(q + 1)
        }
    } else {
        narrow(div_floor(a, b))
    }
}

/// `v` as an `i64`, if it is one.
fn narrow(v: i128) -> (r: Option<i64>)
    ensures
        r is Some <==> fits_i64(v as int),
        r matches Some(q) ==> q == v,
{
    if v < i64::MIN as i128 || v > i64::MAX as i128 {
        None
    } else {
        Some(v as i64)
    }
}

} // verus!
