//! Laws of the projections, the view transform and the viewport.

use crate::camera::orientation_exact;
use crate::camera::rotation;
use crate::camera::square;
use crate::camera::translation;
use crate::determinant::Mat;
use crate::determinant::row4;
use crate::determinant::square4;
use crate::fixed::floor_quotient;
use crate::fixed::lemma_exact_quotient;
use crate::fixed::UNIT;
use crate::output_buffer::view_port;
use crate::projection::projection_left_hand;
use crate::projection::projection_right_hand;
use crate::raster::placed;
use crate::raster::projected;
use crate::vector::lemma_cross_is_perpendicular;
use crate::vector::V3;
use vstd::prelude::*;

verus! {

/// A row times a four-by-four matrix, cell by cell.
pub proof fn lemma_row_times_square4(x: int, y: int, z: int, w: int, e: Seq<int>)
    requires
        e.len() == 16,
    ensures
        row4(x, y, z, w).product(square4(e)).cells[0] == seq![
            x * e[0] + y * e[4] + z * e[8] + w * e[12],
            x * e[1] + y * e[5] + z * e[9] + w * e[13],
            x * e[2] + y * e[6] + z * e[10] + w * e[14],
            x * e[3] + y * e[7] + z * e[11] + w * e[15],
        ],
{
    reveal_with_fuel(Mat::dot, 5);
    let r = row4(x, y, z, w);
    let m = square4(e);
    let p = r.product(m).cells[0];
    assert(r.cells[0][0] == x && r.cells[0][1] == y && r.cells[0][2] == z && r.cells[0][3] == w);
    assert forall|j: int| 0 <= j < 4 implies #[trigger] p[j] == x * e[j] + y * e[4 + j] + z * e[8
        + j] + w * e[12 + j] by {
        assert(m.cells[0][j] == e[j]);
        assert(m.cells[1][j] == e[4 + j]);
        assert(m.cells[2][j] == e[8 + j]);
        assert(m.cells[3][j] == e[12 + j]);
        assert(p[j] == r.dot(m, 0, j, 4));
    }
    assert(p =~= seq![
        x * e[0] + y * e[4] + z * e[8] + w * e[12],
        x * e[1] + y * e[5] + z * e[9] + w * e[13],
        x * e[2] + y * e[6] + z * e[10] + w * e[14],
        x * e[3] + y * e[7] + z * e[11] + w * e[15],
    ]);
}

/// The cells of the projected row of a position, for the right-handed
/// projection: the depth cell and the divisor are the textbook ones times
/// the common factor.
pub proof fn lemma_projected_row_right_hand(
    p: V3,
    tan: int,
    rw: int,
    rh: int,
    n: int,
    f: int,
)
    ensures
        row4(p.x, p.y, p.z, 1).product(projection_right_hand(tan, rw, rh, n, f)).cells[0] == seq![
            p.x * (crate::projection::signum(n) * ((n - f) * rh) * (UNIT * UNIT)),
            p.y * (crate::projection::signum(n) * ((n - f) * rw) * (UNIT * UNIT)),
            p.z * ((n * (tan * rw) + f * (tan * rw)) * UNIT) + -2 * (n * (f * (tan * rw))) * UNIT,
            p.z * (n * (tan * rw) - f * (tan * rw)),
        ],
{
    let k = tan * rw;
    let e = seq![
        crate::projection::signum(n) * ((n - f) * rh) * (UNIT * UNIT),
        0,
        0,
        0,
        0,
        crate::projection::signum(n) * ((n - f) * rw) * (UNIT * UNIT),
        0,
        0,
        0,
        0,
        (n * k + f * k) * UNIT,
        n * k - f * k,
        0,
        0,
        -2 * (n * (f * k)) * UNIT,
        0,
    ];
    lemma_row_times_square4(p.x, p.y, p.z, 1, e);
    let got = row4(p.x, p.y, p.z, 1).product(square4(e)).cells[0];
    assert(got =~= seq![
        p.x * (crate::projection::signum(n) * ((n - f) * rh) * (UNIT * UNIT)),
        p.y * (crate::projection::signum(n) * ((n - f) * rw) * (UNIT * UNIT)),
        p.z * ((n * k + f * k) * UNIT) + -2 * (n * (f * k)) * UNIT,
        p.z * (n * k - f * k),
    ]) by {
        assert(p.y * 0 == 0 && p.z * 0 == 0 && p.x * 0 == 0);
    }
}

/// The cells of the projected row of a position, for the left-handed
/// projection.
pub proof fn lemma_projected_row_left_hand(
    p: V3,
    tan: int,
    rw: int,
    rh: int,
    n: int,
    f: int,
)
    ensures
        row4(p.x, p.y, p.z, 1).product(projection_left_hand(tan, rw, rh, n, f)).cells[0] == seq![
            p.x * (crate::projection::signum(n) * ((n - f) * rh) * (UNIT * UNIT)),
            p.y * (crate::projection::signum(n) * ((n - f) * rw) * (UNIT * UNIT)),
            p.z * ((n * (tan * rw) + f * (tan * rw)) * UNIT) + 2 * (n * (f * (tan * rw))) * UNIT,
            p.z * (-(n * (tan * rw) - f * (tan * rw))),
        ],
{
    let k = tan * rw;
    let e = seq![
        crate::projection::signum(n) * ((n - f) * rh) * (UNIT * UNIT),
        0,
        0,
        0,
        0,
        crate::projection::signum(n) * ((n - f) * rw) * (UNIT * UNIT),
        0,
        0,
        0,
        0,
        (n * k + f * k) * UNIT,
        -(n * k - f * k),
        0,
        0,
        2 * (n * (f * k)) * UNIT,
        0,
    ];
    lemma_row_times_square4(p.x, p.y, p.z, 1, e);
    let got = row4(p.x, p.y, p.z, 1).product(square4(e)).cells[0];
    assert(got =~= seq![
        p.x * (crate::projection::signum(n) * ((n - f) * rh) * (UNIT * UNIT)),
        p.y * (crate::projection::signum(n) * ((n - f) * rw) * (UNIT * UNIT)),
        p.z * ((n * k + f * k) * UNIT) + 2 * (n * (f * k)) * UNIT,
        p.z * (-(n * k - f * k)),
    ]) by {
        assert(p.y * 0 == 0 && p.z * 0 == 0 && p.x * 0 == 0);
    }
}

/// The frustum is one that a projection is meant for: it has an opening and
/// a width, and the far plane lies behind the near plane on the same side of
/// the eye.
pub open spec fn frustum_proper(tan: int, rw: int, n: int, f: int) -> bool {
    &&& tan > 0
    &&& rw > 0
    &&& (0 < n < f || f < n < 0)
}

/// The divisor of the projected row of a point at depth `z`, and what the
/// depth cell has to do with it.
///
/// With `k = tan * rw`, the divisor is `z * (n k - f k)`, the depth cell plus
/// [`UNIT`] times the divisor is `2 UNIT (z (n k) - n (f k))`, and the
/// depth cell minus [`UNIT`] times the divisor is `2 UNIT (z (f k) - n (f k))`.
proof fn lemma_depth_cells(z: int, n: int, f: int, k: int)
    ensures
        z * ((n * k + f * k) * UNIT) + -2 * (n * (f * k)) * UNIT + UNIT * (z * (n * k - f * k)) == 2
            * UNIT * (z * (n * k) - n * (f * k)),
        z * ((n * k + f * k) * UNIT) + -2 * (n * (f * k)) * UNIT - UNIT * (z * (n * k - f * k)) == 2
            * UNIT * (z * (f * k) - n * (f * k)),
{
    let nk = n * k;
    let fk = f * k;
    let a = z * nk;
    let b = z * fk;
    let c = n * fk;
    let w = z * (nk - fk);
    assert(z * ((nk + fk) * UNIT) == (a + b) * UNIT) by (nonlinear_arith)
        requires
            a == z * nk,
            b == z * fk,
    ;
    assert(w == a - b) by (nonlinear_arith)
        requires
            w == z * (nk - fk),
            a == z * nk,
            b == z * fk,
    ;
    let u = UNIT as int;
    assert((a + b) * u + -2 * c * u + u * w == 2 * u * (a - c)) by (nonlinear_arith)
        requires
            w == a - b,
    ;
    assert((a + b) * u + -2 * c * u - u * w == 2 * u * (b - c)) by (nonlinear_arith)
        requires
            w == a - b,
    ;
}

/// Products of three numbers in another order.
proof fn lemma_regroup(a: int, b: int, c: int)
    ensures
        a * (b * c) == b * (a * c),
        a * (b * c) == (a * b) * c,
{
    assert(a * (b * c) == b * (a * c)) by (nonlinear_arith);
    assert(a * (b * c) == (a * b) * c) by (nonlinear_arith);
}

/// The sign of a product of three numbers, the third of them positive.
proof fn lemma_sign_of_product(a: int, b: int, k: int)
    requires
        k > 0,
    ensures
        (a > 0 && b > 0) || (a < 0 && b < 0) ==> a * (b * k) > 0,
        (a > 0 && b < 0) || (a < 0 && b > 0) ==> a * (b * k) < 0,
{
    assert((b > 0 ==> b * k > 0) && (b < 0 ==> b * k < 0)) by (nonlinear_arith)
        requires
            k > 0,
    ;
    let c = b * k;
    assert(((a > 0 && c > 0) || (a < 0 && c < 0) ==> a * c > 0) && ((a > 0 && c < 0) || (a < 0 && c
        > 0) ==> a * c < 0)) by (nonlinear_arith);
}

/// The right-handed projection takes the point of the near plane straight
/// ahead to the depth one, and the point of the far plane straight ahead to
/// the depth minus one, both in the middle of the screen.
pub proof fn law_planes_right_hand(tan: int, rw: int, rh: int, n: int, f: int)
    requires
        frustum_proper(tan, rw, n, f),
    ensures
        projected(V3 { x: 0, y: 0, z: n }, projection_right_hand(tan, rw, rh, n, f)) == Some(
            V3 { x: 0, y: 0, z: UNIT as int },
        ),
        projected(V3 { x: 0, y: 0, z: f }, projection_right_hand(tan, rw, rh, n, f)) == Some(
            V3 { x: 0, y: 0, z: -UNIT },
        ),
{
    lemma_projected_row_right_hand(V3 { x: 0, y: 0, z: n }, tan, rw, rh, n, f);
    lemma_projected_row_right_hand(V3 { x: 0, y: 0, z: f }, tan, rw, rh, n, f);
    let k = tan * rw;
    assert(k > 0) by (nonlinear_arith)
        requires
            k == tan * rw,
            tan > 0,
            rw > 0,
    ;
    let wn = n * (n * k - f * k);
    let wf = f * (n * k - f * k);
    let zn = n * ((n * k + f * k) * UNIT) + -2 * (n * (f * k)) * UNIT;
    let zf = f * ((n * k + f * k) * UNIT) + -2 * (n * (f * k)) * UNIT;
    lemma_depth_cells(n, n, f, k);
    lemma_depth_cells(f, n, f, k);
    lemma_regroup(f, n, k);
    assert(2 * UNIT * (n * (n * k) - n * (f * k)) == 2 * (UNIT * wn)) by (nonlinear_arith)
        requires
            wn == n * (n * k - f * k),
    ;
    assert(zn == UNIT * wn);
    assert(2 * UNIT * (f * (n * k) - n * (f * k)) == 0) by (nonlinear_arith)
        requires
            f * (n * k) == n * (f * k),
    ;
    assert((-UNIT) * wf == -(UNIT * wf)) by (nonlinear_arith);
    assert(zf == (-UNIT) * wf);
    assert(n * k - f * k == (n - f) * k) by (nonlinear_arith);
    lemma_sign_of_product(n, n - f, k);
    lemma_sign_of_product(f, n - f, k);
    assert(wn != 0 && wf != 0);
    lemma_exact_quotient(UNIT as int, wn);
    lemma_exact_quotient(-UNIT, wf);
    lemma_exact_quotient(0, wn);
    lemma_exact_quotient(0, wf);
    assert(0 * (crate::projection::signum(n) * ((n - f) * rh) * (UNIT * UNIT)) == 0);
    assert(0 * (crate::projection::signum(n) * ((n - f) * rw) * (UNIT * UNIT)) == 0);
    assert(0 * wn == 0 && 0 * wf == 0);
}

/// The right-handed projection takes a point behind the far plane to a depth
/// below minus one: outside the unit range.
pub proof fn law_beyond_far_right_hand(tan: int, rw: int, rh: int, n: int, f: int, p: V3)
    requires
        frustum_proper(tan, rw, n, f),
        0 < f < p.z || p.z < f < 0,
    ensures
        ({
            let row = row4(p.x, p.y, p.z, 1).product(projection_right_hand(tan, rw, rh, n, f)).cells[0];
            row[3] != 0 && floor_quotient(row[2], row[3]) < -UNIT
        }),
{
    lemma_projected_row_right_hand(p, tan, rw, rh, n, f);
    let row = row4(p.x, p.y, p.z, 1).product(projection_right_hand(tan, rw, rh, n, f)).cells[0];
    let k = tan * rw;
    assert(k > 0) by (nonlinear_arith)
        requires
            k == tan * rw,
            tan > 0,
            rw > 0,
    ;
    let z = p.z;
    let w = z * (n * k - f * k);
    assert(row[3] == w);
    lemma_depth_cells(z, n, f, k);
    // the depth cell plus the divisor: it has the sign of the depth plus one
    let s = 2 * UNIT * (z * (n * k) - n * (f * k));
    assert(row[2] + UNIT * w == s);
    lemma_regroup(z, n, k);
    assert(n * (z * k) - n * (f * k) == n * ((z - f) * k)) by (nonlinear_arith);
    assert(n * k - f * k == (n - f) * k) by (nonlinear_arith);
    lemma_sign_of_product(n, z - f, k);
    lemma_sign_of_product(z, n - f, k);
    assert(w < 0 && s > 0);
    let q = floor_quotient(row[2], w);
    crate::fixed::lemma_floor_quotient_bounds(-row[2], -w);
    assert(q * (-w) <= -row[2]);
    if q >= -UNIT {
        assert(q * (-w) >= (-UNIT) * (-w)) by (nonlinear_arith)
            requires
                q >= -UNIT,
                -w > 0,
        ;
        assert((-UNIT) * (-w) == UNIT * w) by (nonlinear_arith);
    }
}

/// The right-handed projection takes a point between the two planes to a
/// depth within the unit range: above minus one and below one, so at least
/// minus one and less than one once it is rounded downwards.
pub proof fn law_between_planes_right_hand(tan: int, rw: int, rh: int, n: int, f: int, p: V3)
    requires
        frustum_proper(tan, rw, n, f),
        n < p.z < f || f < p.z < n,
    ensures
        ({
            let row = row4(p.x, p.y, p.z, 1).product(projection_right_hand(tan, rw, rh, n, f)).cells[0];
            row[3] != 0 && -UNIT <= floor_quotient(row[2], row[3]) < UNIT
        }),
{
    lemma_projected_row_right_hand(p, tan, rw, rh, n, f);
    let row = row4(p.x, p.y, p.z, 1).product(projection_right_hand(tan, rw, rh, n, f)).cells[0];
    let k = tan * rw;
    assert(k > 0) by (nonlinear_arith)
        requires
            k == tan * rw,
            tan > 0,
            rw > 0,
    ;
    let z = p.z;
    let w = z * (n * k - f * k);
    assert(row[3] == w);
    lemma_depth_cells(z, n, f, k);
    // the depth cell plus and minus the divisor: the depth plus one and minus one
    let above = 2 * UNIT * (z * (n * k) - n * (f * k));
    let below = 2 * UNIT * (z * (f * k) - n * (f * k));
    assert(row[2] + UNIT * w == above);
    assert(row[2] - UNIT * w == below);
    lemma_regroup(z, n, k);
    lemma_regroup(z, f, k);
    lemma_regroup(n, f, k);
    assert(n * (z * k) - n * (f * k) == n * ((z - f) * k)) by (nonlinear_arith);
    assert(f * (z * k) - f * (n * k) == f * ((z - n) * k)) by (nonlinear_arith);
    assert(n * k - f * k == (n - f) * k) by (nonlinear_arith);
    lemma_sign_of_product(n, z - f, k);
    lemma_sign_of_product(f, z - n, k);
    lemma_sign_of_product(z, n - f, k);
    assert(w < 0 && above < 0 && below > 0);
    let q = floor_quotient(row[2], w);
    let d = -w;
    let a = -row[2];
    crate::fixed::lemma_floor_quotient_bounds(a, d);
    assert(UNIT * w == -(UNIT * d)) by (nonlinear_arith)
        requires
            d == -w,
    ;
    if q < -UNIT {
        assert(q * d + d <= (-UNIT) * d) by (nonlinear_arith)
            requires
                q + 1 <= -UNIT,
                d > 0,
        ;
        assert((-UNIT) * d == -(UNIT * d)) by (nonlinear_arith);
    }
    if q >= UNIT {
        assert(q * d >= UNIT * d) by (nonlinear_arith)
            requires
                q >= UNIT,
                d > 0,
        ;
    }
}

/// Under the right-handed projection the depth falls with the distance from
/// the eye: of two points on the side of the planes, the nearer one gets a
/// depth that is no smaller. The larger depth is the nearer one.
pub proof fn law_depth_falls_with_distance_right_hand(
    tan: int,
    rw: int,
    rh: int,
    n: int,
    f: int,
    near: V3,
    far: V3,
)
    requires
        frustum_proper(tan, rw, n, f),
        0 < near.z <= far.z && 0 < n || far.z <= near.z < 0 && n < 0,
    ensures
        ({
            let a = row4(near.x, near.y, near.z, 1).product(
                projection_right_hand(tan, rw, rh, n, f),
            ).cells[0];
            let b = row4(far.x, far.y, far.z, 1).product(
                projection_right_hand(tan, rw, rh, n, f),
            ).cells[0];
            a[3] != 0 && b[3] != 0 && floor_quotient(a[2], a[3]) >= floor_quotient(b[2], b[3])
        }),
{
    let m = projection_right_hand(tan, rw, rh, n, f);
    lemma_projected_row_right_hand(near, tan, rw, rh, n, f);
    lemma_projected_row_right_hand(far, tan, rw, rh, n, f);
    let a = row4(near.x, near.y, near.z, 1).product(m).cells[0];
    let b = row4(far.x, far.y, far.z, 1).product(m).cells[0];
    let k = tan * rw;
    assert(k > 0) by (nonlinear_arith)
        requires
            k == tan * rw,
            tan > 0,
            rw > 0,
    ;
    let z1 = near.z;
    let z2 = far.z;
    // the depth cell is z * scale - shift, the divisor z * c
    let scale = (n * k + f * k) * UNIT;
    let shift = 2 * (n * (f * k)) * UNIT;
    let c = n * k - f * k;
    assert(a[2] == z1 * scale - shift && a[3] == z1 * c);
    assert(b[2] == z2 * scale - shift && b[3] == z2 * c);
    assert(c == (n - f) * k) by (nonlinear_arith)
        requires
            c == n * k - f * k,
    ;
    lemma_sign_of_product(z1, n - f, k);
    lemma_sign_of_product(z2, n - f, k);
    lemma_sign_of_product(n, f, k);
    assert(a[3] < 0 && b[3] < 0);
    assert(shift > 0) by (nonlinear_arith)
        requires
            shift == 2 * (n * (f * k)) * UNIT,
            n * (f * k) > 0,
            UNIT == 65536,
    ;
    // a[2] * b[3] - b[2] * a[3] == shift * c * (z1 - z2), which is not negative
    let d1 = -a[3];
    let d2 = -b[3];
    let a1 = -a[2];
    let a2 = -b[2];
    assert(a1 * d2 - a2 * d1 == shift * (c * (z1 - z2))) by (nonlinear_arith)
        requires
            a1 == -(z1 * scale - shift),
            a2 == -(z2 * scale - shift),
            d1 == -(z1 * c),
            d2 == -(z2 * c),
    ;
    lemma_sign(c, z1 - z2);
    assert(c * (z1 - z2) >= 0);
    assert(shift * (c * (z1 - z2)) >= 0) by (nonlinear_arith)
        requires
            shift > 0,
            c * (z1 - z2) >= 0,
    ;
    let q1 = floor_quotient(a[2], a[3]);
    let q2 = floor_quotient(b[2], b[3]);
    crate::fixed::lemma_floor_quotient_bounds(a1, d1);
    crate::fixed::lemma_floor_quotient_bounds(a2, d2);
    if q1 < q2 {
        // a1 / d1 < q1 + 1 <= q2 <= a2 / d2, against a1 * d2 >= a2 * d1
        assert(a1 * d2 < (q1 * d1 + d1) * d2) by (nonlinear_arith)
            requires
                a1 < q1 * d1 + d1,
                d2 > 0,
        ;
        assert((q1 * d1 + d1) * d2 <= (q2 * d2) * d1) by (nonlinear_arith)
            requires
                q1 + 1 <= q2,
                d1 > 0,
                d2 > 0,
        ;
        assert((q2 * d2) * d1 <= a2 * d1) by (nonlinear_arith)
            requires
                q2 * d2 <= a2,
                d1 > 0,
        ;
    }
}

/// The sign of a product of two numbers.
proof fn lemma_sign(a: int, b: int)
    ensures
        (a >= 0 && b >= 0) || (a <= 0 && b <= 0) ==> a * b >= 0,
{
    assert((a >= 0 && b >= 0) || (a <= 0 && b <= 0) ==> a * b >= 0) by (nonlinear_arith);
}

/// The two projections mirror each other in depth: the left-handed
/// projection of a position is the right-handed projection of the position
/// with the opposite depth, save that the depth cell of the projected row has
/// the opposite sign.
pub proof fn law_handedness_mirrors_depth(tan: int, rw: int, rh: int, n: int, f: int, p: V3)
    ensures
        ({
            let right = row4(p.x, p.y, p.z, 1).product(projection_right_hand(tan, rw, rh, n, f)).cells[0];
            let left = row4(p.x, p.y, -p.z, 1).product(projection_left_hand(tan, rw, rh, n, f)).cells[0];
            left == seq![right[0], right[1], -right[2], right[3]]
        }),
{
    lemma_projected_row_right_hand(p, tan, rw, rh, n, f);
    lemma_projected_row_left_hand(V3 { x: p.x, y: p.y, z: -p.z }, tan, rw, rh, n, f);
    let right = row4(p.x, p.y, p.z, 1).product(projection_right_hand(tan, rw, rh, n, f)).cells[0];
    let left = row4(p.x, p.y, -p.z, 1).product(projection_left_hand(tan, rw, rh, n, f)).cells[0];
    let k = tan * rw;
    let a = (n * k + f * k) * UNIT;
    let c = n * k - f * k;
    assert((-p.z) * a == -(p.z * a)) by (nonlinear_arith);
    assert((-p.z) * (-c) == p.z * c) by (nonlinear_arith);
    assert(left =~= seq![right[0], right[1], -right[2], right[3]]);
}

/// The left-handed projection takes the point at the depth opposite to the
/// near plane to the depth minus one, and the point opposite to the far plane
/// to the depth one: the mirror image of what the right-handed one does.
pub proof fn law_planes_left_hand(tan: int, rw: int, rh: int, n: int, f: int)
    requires
        frustum_proper(tan, rw, n, f),
    ensures
        projected(V3 { x: 0, y: 0, z: -n }, projection_left_hand(tan, rw, rh, n, f)) == Some(
            V3 { x: 0, y: 0, z: -UNIT },
        ),
        projected(V3 { x: 0, y: 0, z: -f }, projection_left_hand(tan, rw, rh, n, f)) == Some(
            V3 { x: 0, y: 0, z: UNIT as int },
        ),
{
    law_handedness_mirrors_depth(tan, rw, rh, n, f, V3 { x: 0, y: 0, z: n });
    law_handedness_mirrors_depth(tan, rw, rh, n, f, V3 { x: 0, y: 0, z: f });
    lemma_projected_row_right_hand(V3 { x: 0, y: 0, z: n }, tan, rw, rh, n, f);
    lemma_projected_row_right_hand(V3 { x: 0, y: 0, z: f }, tan, rw, rh, n, f);
    let k = tan * rw;
    assert(k > 0) by (nonlinear_arith)
        requires
            k == tan * rw,
            tan > 0,
            rw > 0,
    ;
    let wn = n * (n * k - f * k);
    let wf = f * (n * k - f * k);
    lemma_depth_cells(n, n, f, k);
    lemma_depth_cells(f, n, f, k);
    lemma_regroup(f, n, k);
    assert(n * k - f * k == (n - f) * k) by (nonlinear_arith);
    lemma_sign_of_product(n, n - f, k);
    lemma_sign_of_product(f, n - f, k);
    assert(wn != 0 && wf != 0);
    assert(-(UNIT * wn) == (-UNIT) * wn) by (nonlinear_arith);
    assert(-((-UNIT) * wf) == UNIT * wf) by (nonlinear_arith);
    lemma_exact_quotient(-UNIT, wn);
    lemma_exact_quotient(UNIT as int, wf);
    lemma_exact_quotient(0, wn);
    lemma_exact_quotient(0, wf);
    assert(0 * (crate::projection::signum(n) * ((n - f) * rh) * (UNIT * UNIT)) == 0);
    assert(0 * (crate::projection::signum(n) * ((n - f) * rw) * (UNIT * UNIT)) == 0);
    assert(0 * wn == 0 && 0 * wf == 0);
}

/// The viewport matrix does what the viewport mapping does: a position in
/// normalised device coordinates, as a row times the matrix and divided, is
/// the place of the position on the screen with the depth that it has.
pub proof fn law_view_port_matrix(p: V3, width: int, height: int)
    ensures
        projected(p, view_port(width, height)) == Some(placed(p, width, height, p.z)) || !placed(
            p,
            width,
            height,
            p.z,
        ).fits(),
{
    let e = seq![
        width,
        0int,
        0int,
        0int,
        0int,
        -height,
        0int,
        0int,
        0int,
        0int,
        2int,
        0int,
        width * UNIT,
        height * UNIT,
        0int,
        2int,
    ];
    lemma_row_times_square4(p.x, p.y, p.z, 1, e);
    crate::determinant::lemma_mat_equal(view_port(width, height), square4(e));
    let row = row4(p.x, p.y, p.z, 1).product(view_port(width, height)).cells[0];
    assert(row[0] == width * (p.x + UNIT)) by (nonlinear_arith)
        requires
            row[0] == p.x * width + p.y * 0 + p.z * 0 + 1 * (width * UNIT),
    ;
    assert(row[1] == height * (UNIT - p.y)) by (nonlinear_arith)
        requires
            row[1] == p.x * 0 + p.y * (-height) + p.z * 0 + 1 * (height * UNIT),
    ;
    assert(row[2] == p.z * 2) by (nonlinear_arith)
        requires
            row[2] == p.x * 0 + p.y * 0 + p.z * 2 + 1 * 0,
    ;
    assert(row[3] == 2) by (nonlinear_arith)
        requires
            row[3] == p.x * 0 + p.y * 0 + p.z * 0 + 1 * 2,
    ;
    lemma_exact_quotient(p.z, 2);
}

/// The dot product with a stretched vector is the stretched dot product.
proof fn lemma_scaled_dot(a: V3, b: V3, k: int)
    ensures
        a.x * (k * b.x) + a.y * (k * b.y) + a.z * (k * b.z) == k * a.dot(b),
{
    assert(a.x * (k * b.x) == k * (a.x * b.x)) by (nonlinear_arith);
    assert(a.y * (k * b.y) == k * (a.y * b.y)) by (nonlinear_arith);
    assert(a.z * (k * b.z) == k * (a.z * b.z)) by (nonlinear_arith);
    assert(k * (a.x * b.x + a.y * b.y + a.z * b.z) == k * (a.x * b.x) + k * (a.y * b.y) + k * (a.z
        * b.z)) by (nonlinear_arith);
}

/// The view transform of an exact direction of view takes the eye to the
/// origin, and a step from the eye along `forward` to a point straight ahead
/// on the negative depth axis.
pub proof fn law_view_looks_down_the_depth_axis(eye: V3, forward: V3, up: V3, lf: int, lu: int)
    requires
        orientation_exact(forward, up, lf, lu),
    ensures
        ({
            let view = translation(eye).product(rotation(forward, up, lf, lu));
            let origin = row4(eye.x, eye.y, eye.z, 1).product(view).cells[0];
            let ahead = row4(
                eye.x + forward.x,
                eye.y + forward.y,
                eye.z + forward.z,
                1,
            ).product(view).cells[0];
            &&& origin == seq![0int, 0int, 0int, lf * lu]
            &&& ahead == seq![0int, 0int, -(lu * square(lf)), lf * lu]
        }),
{
    let t = translation(eye);
    let r = rotation(forward, up, lf, lu);
    let view = t.product(r);
    let s = forward.cross(up);
    let re = seq![
        s.x,
        lf * up.x,
        -(lu * forward.x),
        0,
        s.y,
        lf * up.y,
        -(lu * forward.y),
        0,
        s.z,
        lf * up.z,
        -(lu * forward.z),
        0,
        0,
        0,
        0,
        lf * lu,
    ];
    let te = seq![1, 0, 0, 0, 0, 1, 0, 0, 0, 0, 1, 0, -eye.x, -eye.y, -eye.z, 1];
    // a row through the view is the row through the translation, then the rotation
    let p0 = row4(eye.x, eye.y, eye.z, 1);
    let p1 = row4(eye.x + forward.x, eye.y + forward.y, eye.z + forward.z, 1);
    crate::determinant_laws::law_product_associative(p0, t, r);
    crate::determinant_laws::law_product_associative(p1, t, r);
    lemma_row_times_square4(eye.x, eye.y, eye.z, 1, te);
    lemma_row_times_square4(eye.x + forward.x, eye.y + forward.y, eye.z + forward.z, 1, te);
    let m0 = p0.product(t);
    let m1 = p1.product(t);
    assert(m0.cells[0] =~= seq![0int, 0int, 0int, 1int]);
    assert(m1.cells[0] =~= seq![forward.x, forward.y, forward.z, 1int]);
    crate::determinant::lemma_mat_equal(m0, row4(0, 0, 0, 1));
    crate::determinant::lemma_mat_equal(m1, row4(forward.x, forward.y, forward.z, 1));
    lemma_row_times_square4(0, 0, 0, 1, re);
    lemma_row_times_square4(forward.x, forward.y, forward.z, 1, re);
    let ahead = p1.product(view).cells[0];
    lemma_cross_is_perpendicular(forward, up);
    lemma_scaled_dot(forward, up, lf);
    lemma_scaled_dot(forward, forward, -lu);
    assert(-(lu * forward.x) == (-lu) * forward.x && -(lu * forward.y) == (-lu) * forward.y && -(lu
        * forward.z) == (-lu) * forward.z) by (nonlinear_arith);
    assert((-lu) * square(lf) == -(lu * square(lf))) by (nonlinear_arith);
    assert(lf * 0 == 0);
    assert(ahead =~= seq![0int, 0int, -(lu * square(lf)), lf * lu]);
    assert(p0.product(view).cells[0] =~= seq![0int, 0int, 0int, lf * lu]);
}

} // verus!
