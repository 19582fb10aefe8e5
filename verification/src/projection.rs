//! The perspective projections.
//!
//! A projection is an integer matrix that acts on homogeneous rows from the
//! right. Its entries are those of the textbook matrix times one common
//! factor, so that no quotient has to be taken to build it.

use crate::camera::Camera;
use crate::determinant::Determinant;
use crate::determinant::Mat;
use crate::determinant::square4;
use crate::fixed::product_within;
use crate::fixed::UNIT;
use vstd::prelude::*;

verus! {

/// The largest magnitude of the near and far plane values.
pub const DEPTH_RANGE: i64 = 0x100_0000;

/// The largest tangent of half the field of view, in [`UNIT`]s.
pub const TAN_LIMIT: u32 = 0x100_0000;

/// -1, 0 or 1 as `n` is negative, zero or positive.
pub open spec fn signum(n: int) -> int {
    if n < 0 {
        -1
    } else if n == 0 {
        0
    } else {
        1
    }
}

/// The parameters of a projection are within the limits of the arithmetic.
pub open spec fn frustum_in_range(tan: int, n: int, f: int) -> bool {
    &&& 0 <= tan <= TAN_LIMIT
    &&& -DEPTH_RANGE <= n <= DEPTH_RANGE
    &&& -DEPTH_RANGE <= f <= DEPTH_RANGE
}

/// The right-handed perspective projection.
///
/// `tan` is the tangent of half the vertical field of view in [`UNIT`]s,
/// `rw : rh` the aspect ratio, `n` and `f` the near and far plane. With
/// `t = |n| * tan / UNIT` and `r = t * rw / rh` the half extents of the near
/// plane, the projection takes `(x, y, z)` to
/// `(n x / (r z), n y / (t z), ((n + f) z - 2 n f) / ((n - f) z))`.
/// The entries here are those quotients times `tan * rw * (n - f)`, and the
/// first three columns once more times [`UNIT`], so that the quotient of a
/// projected row is in normalised device coordinates.
pub open spec fn projection_right_hand(tan: int, rw: int, rh: int, n: int, f: int) -> Mat {
    let k = tan * rw;
    square4(
        seq![
            signum(n) * ((n - f) * rh) * (UNIT * UNIT),
            0,
            0,
            0,
            0,
            signum(n) * ((n - f) * rw) * (UNIT * UNIT),
            0,
            0,
            0,
            0,
            (n * k + f * k) * UNIT,
            n * k - f * k,
            0,
            0,
            -2 * (n * (f * k)) * UNIT,
            0,
        ],
    )
}

/// The left-handed perspective projection: the right-handed one behind a
/// reflection of the depth axis. Against [`projection_right_hand`] the fourth
/// cell of the third row and the third cell of the fourth row change sign.
pub open spec fn projection_left_hand(tan: int, rw: int, rh: int, n: int, f: int) -> Mat {
    let k = tan * rw;
    square4(
        seq![
            signum(n) * ((n - f) * rh) * (UNIT * UNIT),
            0,
            0,
            0,
            0,
            signum(n) * ((n - f) * rw) * (UNIT * UNIT),
            0,
            0,
            0,
            0,
            (n * k + f * k) * UNIT,
            -(n * k - f * k),
            0,
            0,
            2 * (n * (f * k)) * UNIT,
            0,
        ],
    )
}

/// The projection for the given handedness.
pub open spec fn projection(left_hand: bool, tan: int, rw: int, rh: int, n: int, f: int) -> Mat {
    if left_hand {
        projection_left_hand(tan, rw, rh, n, f)
    } else {
        projection_right_hand(tan, rw, rh, n, f)
    }
}

impl Camera {
    /// The left-handed perspective projection for a field of view with the
    /// half-angle tangent `tan_half_fov`, the aspect ratio
    /// `ratio_w : ratio_h`, and the near and far planes `n` and `z`.
    pub fn perspective_projection_mat_left_hand(
        tan_half_fov: u32,
        ratio_w: u32,
        ratio_h: u32,
        n: i64,
        z: i64,
    ) -> (r: Determinant)
        requires
            frustum_in_range(tan_half_fov as int, n as int, z as int),
        ensures
            r.wf(),
            r@ == projection_left_hand(
                tan_half_fov as int,
                ratio_w as int,
                ratio_h as int,
                n as int,
                z as int,
            ),
    {
        let (across, up, depth, divide, shift) = projection_cells(tan_half_fov, ratio_w, ratio_h, n, z);
        let r = Determinant::from_rows4(
            [across, 0, 0, 0, 0, up, 0, 0, 0, 0, depth, -divide, 0, 0, -shift, 0],
        );
        proof {
            crate::determinant::lemma_mat_equal(
                r@,
                projection_left_hand(
                    tan_half_fov as int,
                    ratio_w as int,
                    ratio_h as int,
                    n as int,
                    z as int,
                ),
            );
        }
        r
    }

    /// The right-handed perspective projection for a field of view with the
    /// half-angle tangent `tan_half_fov`, the aspect ratio
    /// `ratio_w : ratio_h`, and the near and far planes `n` and `z`.
    pub fn perspective_projection_mat_right_hand(
        tan_half_fov: u32,
        ratio_w: u32,
        ratio_h: u32,
        n: i64,
        z: i64,
    ) -> (r: Determinant)
        requires
            frustum_in_range(tan_half_fov as int, n as int, z as int),
        ensures
            r.wf(),
            r@ == projection_right_hand(
                tan_half_fov as int,
                ratio_w as int,
                ratio_h as int,
                n as int,
                z as int,
            ),
    {
        let (across, up, depth, divide, shift) = projection_cells(tan_half_fov, ratio_w, ratio_h, n, z);
        let r = Determinant::from_rows4(
            [across, 0, 0, 0, 0, up, 0, 0, 0, 0, depth, divide, 0, 0, shift, 0],
        );
        proof {
            crate::determinant::lemma_mat_equal(
                r@,
                projection_right_hand(
                    tan_half_fov as int,
                    ratio_w as int,
                    ratio_h as int,
                    n as int,
                    z as int,
                ),
            );
        }
        r
    }
}

/// The five cells of the right-handed projection that are not zero: the
/// scale across, the scale upwards, the scale and the divisor of the depth,
/// and the shift of the depth.
fn projection_cells(tan_half_fov: u32, ratio_w: u32, ratio_h: u32, n: i64, z: i64) -> (r: (
    i128,
    i128,
    i128,
    i128,
    i128,
))
    requires
        frustum_in_range(tan_half_fov as int, n as int, z as int),
    ensures
        r.0 == signum(n as int) * ((n - z) * ratio_h) * (UNIT * UNIT),
        r.1 == signum(n as int) * ((n - z) * ratio_w) * (UNIT * UNIT),
        r.2 == (n * (tan_half_fov * ratio_w) + z * (tan_half_fov * ratio_w)) * UNIT,
        r.3 == n * (tan_half_fov * ratio_w) - z * (tan_half_fov * ratio_w),
        r.4 == -2 * (n * (z * (tan_half_fov * ratio_w))) * UNIT,
        r.3 > i128::MIN,
        r.4 > i128::MIN,
{
    let span: i128 = (n as i128) - (z as i128);
    let sh = product_within(span, ratio_h as i128, Ghost(0x200_0000), Ghost(0x1_0000_0000));
    let sw = product_within(span, ratio_w as i128, Ghost(0x200_0000), Ghost(0x1_0000_0000));
    let (across, up): (i128, i128) = if n < 0 {
        (-sh * 0x1_0000_0000, -sw * 0x1_0000_0000)
    } else if n == 0 {
        (0, 0)
    } else {
        (sh * 0x1_0000_0000, sw * 0x1_0000_0000)
    };
    let k = product_within(
        tan_half_fov as i128,
        ratio_w as i128,
        Ghost(0x100_0000),
        Ghost(0x1_0000_0000),
    );
    let nk = product_within(n as i128, k, Ghost(0x100_0000), Ghost(0x100_0000_0000_0000));
    let zk = product_within(z as i128, k, Ghost(0x100_0000), Ghost(0x100_0000_0000_0000));
    let nzk = product_within(n as i128, zk, Ghost(0x100_0000), Ghost(0x1_0000_0000_0000_0000_0000));
    let depth = product_within(nk + zk, UNIT as i128, Ghost(0x2_0000_0000_0000_0000_0000), Ghost(0x1_0000));
    let divide = nk - zk;
    let shift = product_within(
        -2 * nzk,
        UNIT as i128,
        Ghost(0x200_0000_0000_0000_0000_0000_0000),
        Ghost(0x1_0000),
    );
    (across, up, depth, divide, shift)
}

} // verus!
