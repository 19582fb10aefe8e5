//! Laws of the triangle predicates.

use crate::determinant::Mat;
use crate::determinant::row4;
use crate::determinant_laws::lemma_product_fits;
use crate::fixed::COORD_LIMIT;
use crate::fixed::fits_i64;
use crate::fixed::floor_quotient;
use crate::fixed::lemma_exact_quotient;
use crate::raster::depth_reading;
use crate::triangle::contains;
use crate::triangle::covers;
use crate::triangle::hit;
use crate::triangle::leftmost_hit;
use crate::triangle::rightmost_hit;
use crate::triangle::span_of;
use crate::triangle::successor;
use crate::fixed::pixel_centre;
use crate::triangle::depth_matrix;
use crate::triangle::edge_cross;
use crate::triangle::lemma_cross_bound;
use crate::triangle::lemma_scaled_bound;
use crate::triangle::plane;
use crate::triangle::triangle_wf;
use crate::vector::lemma_cross_is_perpendicular;
use crate::vector::V3;
use vstd::prelude::*;

verus! {

/// Seen from the other end of an edge, the cross product that tells the side
/// of a point is the opposite vector.
proof fn lemma_cross_reversed(p: V3, a: V3, b: V3)
    ensures
        p.minus(b).cross(a.minus(b)) == p.minus(a).cross(b.minus(a)).negated(),
{
    let l = p.minus(b).cross(a.minus(b));
    let r = p.minus(a).cross(b.minus(a)).negated();
    assert(l.x == r.x) by (nonlinear_arith)
        requires
            l.x == (p.y - b.y) * (a.z - b.z) - (p.z - b.z) * (a.y - b.y),
            r.x == -((p.y - a.y) * (b.z - a.z) - (p.z - a.z) * (b.y - a.y)),
    ;
    assert(l.y == r.y) by (nonlinear_arith)
        requires
            l.y == (p.z - b.z) * (a.x - b.x) - (p.x - b.x) * (a.z - b.z),
            r.y == -((p.z - a.z) * (b.x - a.x) - (p.x - a.x) * (b.z - a.z)),
    ;
    assert(l.z == r.z) by (nonlinear_arith)
        requires
            l.z == (p.x - b.x) * (a.y - b.y) - (p.y - b.y) * (a.x - b.x),
            r.z == -((p.x - a.x) * (b.y - a.y) - (p.y - a.y) * (b.x - a.x)),
    ;
}

/// The dot product of two opposite vectors is that of the vectors, in either
/// order.
proof fn lemma_dot_negated(u: V3, v: V3)
    ensures
        u.negated().dot(v.negated()) == v.dot(u),
{
    assert((-u.x) * (-v.x) + (-u.y) * (-v.y) + (-u.z) * (-v.z) == v.x * u.x + v.y * u.y + v.z
        * u.z) by (nonlinear_arith);
}

/// Containment does not depend on the winding: a triangle and the triangle
/// with its second and third vertex exchanged contain the same points.
pub proof fn law_containment_ignores_winding(t: Seq<V3>, p: V3)
    requires
        t.len() == 3,
    ensures
        contains(seq![t[0], t[2], t[1]], p) == contains(t, p),
{
    let r = seq![t[0], t[2], t[1]];
    lemma_cross_reversed(p, t[2], t[0]);
    lemma_cross_reversed(p, t[1], t[2]);
    lemma_cross_reversed(p, t[0], t[1]);
    assert(edge_cross(r, 0, p) == edge_cross(t, 2, p).negated());
    assert(edge_cross(r, 1, p) == edge_cross(t, 1, p).negated());
    assert(edge_cross(r, 2, p) == edge_cross(t, 0, p).negated());
    lemma_dot_negated(edge_cross(t, 2, p), edge_cross(t, 1, p));
    lemma_dot_negated(edge_cross(t, 1, p), edge_cross(t, 0, p));
    lemma_dot_negated(edge_cross(t, 0, p), edge_cross(t, 2, p));
}

/// A point on the same side of all three edges, strictly, is contained,
/// whichever side it is.
pub proof fn law_contains_interior(t: Seq<V3>, p: V3)
    requires
        t.len() == 3,
        t[0].z == 0 && t[1].z == 0 && t[2].z == 0 && p.z == 0,
        (edge_cross(t, 0, p).z > 0 && edge_cross(t, 1, p).z > 0 && edge_cross(t, 2, p).z > 0) || (
        edge_cross(t, 0, p).z < 0 && edge_cross(t, 1, p).z < 0 && edge_cross(t, 2, p).z < 0),
    ensures
        contains(t, p),
{
    let c0 = edge_cross(t, 0, p);
    let c1 = edge_cross(t, 1, p);
    let c2 = edge_cross(t, 2, p);
    assert(c0.x == 0 && c0.y == 0 && c1.x == 0 && c1.y == 0 && c2.x == 0 && c2.y == 0)
        by (nonlinear_arith)
        requires
            t[0].z == 0 && t[1].z == 0 && t[2].z == 0 && p.z == 0,
            c0 == p.minus(t[0]).cross(t[1].minus(t[0])),
            c1 == p.minus(t[1]).cross(t[2].minus(t[1])),
            c2 == p.minus(t[2]).cross(t[0].minus(t[2])),
    ;
    assert(c0.z * c1.z >= 0 && c1.z * c2.z >= 0 && c2.z * c0.z >= 0) by (nonlinear_arith)
        requires
            (c0.z > 0 && c1.z > 0 && c2.z > 0) || (c0.z < 0 && c1.z < 0 && c2.z < 0),
    ;
}

/// The depth that a triangle's depth matrix gives above a position is the
/// depth of the triangle's plane there, rounded downwards: with the plane
/// `a x + b y + c z + d = 0` it is `-(a x + b y + d) / c`. There is none for a
/// triangle seen edge-on, where `c` is zero, nor where the quotient is no
/// `i64`.
pub proof fn law_depth_reading(t: Seq<V3>, x: int, y: int)
    requires
        triangle_wf(t),
        -COORD_LIMIT <= x <= COORD_LIMIT,
        -COORD_LIMIT <= y <= COORD_LIMIT,
    ensures
        ({
            let (a, b, c, d) = plane(t);
            let depth = floor_quotient(-(a * x + b * y + d), c);
            depth_reading(depth_matrix(t), x, y) == (if c == 0 || !fits_i64(depth) {
                None
            } else {
                Some(depth as i64)
            })
        }),
{
    let (a, b, c, d) = plane(t);
    let dm = depth_matrix(t);
    let row = row4(x, y, 0, 1);
    assert(t[0].within(COORD_LIMIT as int) && t[1].within(COORD_LIMIT as int) && t[2].within(
        COORD_LIMIT as int,
    ));
    lemma_cross_bound(t[1].minus(t[0]), t[2].minus(t[0]));
    lemma_scaled_bound(a, t[0].x);
    lemma_scaled_bound(b, t[0].y);
    lemma_scaled_bound(c, t[0].z);
    let limit = 0x1000_0000_0000_0000_0000_0000int;
    assert forall|i: int, j: int| 0 <= i < 4 && 0 <= j < 2 implies -limit
        <= #[trigger] dm.cells[i][j] <= limit by {
        if i == 0 {
        } else if i == 1 {
        } else if i == 2 {
        } else {
        }
    }
    lemma_product_fits(row, dm, COORD_LIMIT as int, limit);
    reveal_with_fuel(Mat::dot, 5);
    assert(row.dot(dm, 0, 0, 4) == x * (-a) + y * (-b) + 0 * 0 + 1 * (-d));
    assert(row.dot(dm, 0, 1, 4) == x * 0 + y * 0 + 0 * 0 + 1 * c);
    assert(x * (-a) == -(a * x)) by (nonlinear_arith);
    assert(y * (-b) == -(b * y)) by (nonlinear_arith);
}

/// Above each of its vertices the plane of a triangle has the depth of the
/// vertex, unless the triangle is seen edge-on.
pub proof fn law_depth_at_vertices(t: Seq<V3>, i: int)
    requires
        triangle_wf(t),
        0 <= i < 3,
        plane(t).2 != 0,
    ensures
        depth_reading(depth_matrix(t), t[i].x, t[i].y) == Some(t[i].z as i64),
{
    let (a, b, c, d) = plane(t);
    assert(t[0].within(COORD_LIMIT as int) && t[1].within(COORD_LIMIT as int) && t[2].within(
        COORD_LIMIT as int,
    ));
    law_depth_reading(t, t[i].x, t[i].y);
    let u = t[1].minus(t[0]);
    let v = t[2].minus(t[0]);
    lemma_cross_is_perpendicular(u, v);
    let e = t[i].minus(t[0]);
    // the vertex lies in the plane
    assert(a * e.x + b * e.y + c * e.z == 0) by {
        if i == 0 {
            assert(a * 0 == 0 && b * 0 == 0 && c * 0 == 0);
        } else if i == 1 {
            assert(a * u.x == u.x * a && b * u.y == u.y * b && c * u.z == u.z * c)
                by (nonlinear_arith);
        } else {
            assert(a * v.x == v.x * a && b * v.y == v.y * b && c * v.z == v.z * c)
                by (nonlinear_arith);
        }
    }
    assert(a * e.x == a * t[i].x - a * t[0].x) by (nonlinear_arith)
        requires
            e.x == t[i].x - t[0].x,
    ;
    assert(b * e.y == b * t[i].y - b * t[0].y) by (nonlinear_arith)
        requires
            e.y == t[i].y - t[0].y,
    ;
    assert(c * e.z == c * t[i].z - c * t[0].z) by (nonlinear_arith)
        requires
            e.z == t[i].z - t[0].z,
    ;
    assert(d == -(a * t[0].x + b * t[0].y + c * t[0].z)) by {
        assert(a * t[0].x == t[0].x * a && b * t[0].y == t[0].y * b && c * t[0].z == t[0].z * c)
            by (nonlinear_arith);
    }
    assert(-(a * t[i].x + b * t[i].y + d) == t[i].z * c) by (nonlinear_arith)
        requires
            a * t[i].x - a * t[0].x + (b * t[i].y - b * t[0].y) + (c * t[i].z - c * t[0].z) == 0,
            d == -(a * t[0].x + b * t[0].y + c * t[0].z),
    ;
    lemma_exact_quotient(t[i].z, c);
}

/// The triangle lies in the plane of the screen: every vertex at depth zero.
pub open spec fn is_flat(t: Seq<V3>) -> bool {
    t.len() == 3 && t[0].z == 0 && t[1].z == 0 && t[2].z == 0
}

/// On which side of the edge from vertex `e` to its successor the point
/// `(x, y)` of the screen lies: positive on one side, negative on the other,
/// zero on the line through the edge.
pub open spec fn side(t: Seq<V3>, e: int, x: int, y: int) -> int {
    (x - t[e].x) * (t[successor(e)].y - t[e].y) - (y - t[e].y) * (t[successor(e)].x - t[e].x)
}

/// For a triangle and a point in the plane of the screen the cross product of
/// an edge points along the depth axis, by the side of the point.
proof fn lemma_flat_cross(t: Seq<V3>, e: int, x: int, y: int)
    requires
        is_flat(t),
        0 <= e < 3,
    ensures
        edge_cross(t, e, V3 { x, y, z: 0 }) == (V3 { x: 0, y: 0, z: side(t, e, x, y) }),
{
    let p = V3 { x, y, z: 0 };
    let c = edge_cross(t, e, p);
    let u = p.minus(t[e]);
    let v = t[successor(e)].minus(t[e]);
    assert(u.z == 0 && v.z == 0);
    assert(u.y * 0 == 0 && 0 * v.y == 0 && 0 * v.x == 0 && u.x * 0 == 0);
}

/// In the plane of the screen containment is what it is meant to be: the
/// point lies on one side of all three edges, or on an edge.
pub proof fn law_contains_is_one_sided(t: Seq<V3>, x: int, y: int)
    requires
        is_flat(t),
    ensures
        contains(t, V3 { x, y, z: 0 }) == ({
            ||| side(t, 0, x, y) >= 0 && side(t, 1, x, y) >= 0 && side(t, 2, x, y) >= 0
            ||| side(t, 0, x, y) <= 0 && side(t, 1, x, y) <= 0 && side(t, 2, x, y) <= 0
        }),
{
    lemma_flat_cross(t, 0, x, y);
    lemma_flat_cross(t, 1, x, y);
    lemma_flat_cross(t, 2, x, y);
    let a = side(t, 0, x, y);
    let b = side(t, 1, x, y);
    let c = side(t, 2, x, y);
    assert(0 * 0 + 0 * 0 + a * b == a * b);
    assert(0 * 0 + 0 * 0 + b * c == b * c);
    assert(0 * 0 + 0 * 0 + c * a == c * a);
    lemma_one_sided(a, b, c);
}

/// Three numbers whose products in pairs are not negative are all not
/// negative or all not positive, and the other way round.
proof fn lemma_one_sided(a: int, b: int, c: int)
    ensures
        (a * b >= 0 && b * c >= 0 && c * a >= 0) == ((a >= 0 && b >= 0 && c >= 0) || (a <= 0 && b
            <= 0 && c <= 0)),
{
    lemma_sign(a, b);
    lemma_sign(b, c);
    lemma_sign(c, a);
}

proof fn lemma_sign(a: int, b: int)
    ensures
        (a > 0 && b > 0) || (a < 0 && b < 0) ==> a * b > 0,
        (a > 0 && b < 0) || (a < 0 && b > 0) ==> a * b < 0,
        a == 0 || b == 0 ==> a * b == 0,
{
    assert(((a > 0 && b > 0) || (a < 0 && b < 0) ==> a * b > 0) && ((a > 0 && b < 0) || (a < 0 && b
        > 0) ==> a * b < 0) && (a == 0 || b == 0 ==> a * b == 0)) by (nonlinear_arith);
}

/// The three sides of a point add up to the same number wherever the point
/// lies: twice the area of the triangle, with the sign of its winding.
proof fn lemma_sides_add_up(t: Seq<V3>, x1: int, y1: int, x2: int, y2: int)
    requires
        t.len() == 3,
    ensures
        side(t, 0, x1, y1) + side(t, 1, x1, y1) + side(t, 2, x1, y1) == side(t, 0, x2, y2) + side(
            t,
            1,
            x2,
            y2,
        ) + side(t, 2, x2, y2),
{
    lemma_side_shift(t, 0, x1, y1, x2, y2);
    lemma_side_shift(t, 1, x1, y1, x2, y2);
    lemma_side_shift(t, 2, x1, y1, x2, y2);
    let d0x = t[1].x - t[0].x;
    let d1x = t[2].x - t[1].x;
    let d2x = t[0].x - t[2].x;
    let d0y = t[1].y - t[0].y;
    let d1y = t[2].y - t[1].y;
    let d2y = t[0].y - t[2].y;
    let dx = x2 - x1;
    let dy = y2 - y1;
    assert(dx * d0y + dx * d1y + dx * d2y == 0) by (nonlinear_arith)
        requires
            d0y + d1y + d2y == 0,
    ;
    assert(dy * d0x + dy * d1x + dy * d2x == 0) by (nonlinear_arith)
        requires
            d0x + d1x + d2x == 0,
    ;
}

/// How the side changes from one point to another.
proof fn lemma_side_shift(t: Seq<V3>, e: int, x1: int, y1: int, x2: int, y2: int)
    ensures
        side(t, e, x2, y2) - side(t, e, x1, y1) == (x2 - x1) * (t[successor(e)].y - t[e].y) - (y2
            - y1) * (t[successor(e)].x - t[e].x),
{
    let dy = t[successor(e)].y - t[e].y;
    let dx = t[successor(e)].x - t[e].x;
    let ax = t[e].x;
    let ay = t[e].y;
    assert((x2 - ax) * dy - (x1 - ax) * dy == (x2 - x1) * dy) by (nonlinear_arith);
    assert((y2 - ay) * dx - (y1 - ay) * dx == (y2 - y1) * dx) by (nonlinear_arith);
}

/// Along a scanline the side of a point between two others lies between
/// their sides.
proof fn lemma_side_between(t: Seq<V3>, e: int, y: int, xl: int, xi: int, xr: int)
    requires
        xl <= xi <= xr,
    ensures
        side(t, e, xl, y) >= 0 && side(t, e, xr, y) >= 0 ==> side(t, e, xi, y) >= 0,
        side(t, e, xl, y) <= 0 && side(t, e, xr, y) <= 0 ==> side(t, e, xi, y) <= 0,
{
    lemma_side_shift(t, e, xl, y, xi, y);
    lemma_side_shift(t, e, xi, y, xr, y);
    let dy = t[successor(e)].y - t[e].y;
    let dx = t[successor(e)].x - t[e].x;
    assert((y - y) * dx == 0);
    let a = xi - xl;
    let b = xr - xi;
    assert((dy >= 0 ==> a * dy >= 0 && b * dy >= 0) && (dy <= 0 ==> a * dy <= 0 && b * dy <= 0))
        by (nonlinear_arith)
        requires
            a >= 0,
            b >= 0,
    ;
}

/// What a triangle in the plane of the screen covers of a scanline has no
/// gap: a pixel between two pixels whose centres the triangle contains has
/// its centre in the triangle too.
pub proof fn law_cover_has_no_gap(t: Seq<V3>, y: int, l: int, i: int, r: int)
    requires
        is_flat(t),
        l <= i <= r,
        covers(t, y, l),
        covers(t, y, r),
    ensures
        covers(t, y, i),
{
    let xl = pixel_centre(l);
    let xi = pixel_centre(i);
    let xr = pixel_centre(r);
    law_contains_is_one_sided(t, xl, y);
    law_contains_is_one_sided(t, xi, y);
    law_contains_is_one_sided(t, xr, y);
    lemma_side_between(t, 0, y, xl, xi, xr);
    lemma_side_between(t, 1, y, xl, xi, xr);
    lemma_side_between(t, 2, y, xl, xi, xr);
    lemma_sides_add_up(t, xl, y, xr, y);
}

/// Every pixel of a span has its centre in the triangle: the span of a
/// triangle in the plane of the screen holds no pixel whose centre lies
/// outside.
pub proof fn law_span_is_covered(t: Seq<V3>, y: int, sx: int, ex: int, i: int)
    requires
        is_flat(t),
        span_of(t, y, sx, ex) matches Some((l, r)) && l <= i <= r,
    ensures
        covers(t, y, i),
{
    if exists|k: int| hit(t, y, sx, ex, k) {
        let l = choose|l: int| leftmost_hit(t, y, sx, ex, l);
        let r = choose|r: int| rightmost_hit(t, y, sx, ex, r);
        crate::raster_laws::lemma_span_within(t, y, sx, ex);
        lemma_span_ends(t, y, sx, ex);
        assert(hit(t, y, sx, ex, l) && hit(t, y, sx, ex, r));
        law_cover_has_no_gap(t, y, l, i, r);
    }
}

/// The two ends of a span are hits.
proof fn lemma_span_ends(t: Seq<V3>, y: int, sx: int, ex: int)
    ensures
        span_of(t, y, sx, ex) matches Some((l, r)) ==> leftmost_hit(t, y, sx, ex, l)
            && rightmost_hit(t, y, sx, ex, r),
{
    if exists|k: int| hit(t, y, sx, ex, k) {
        let w = choose|k: int| hit(t, y, sx, ex, k);
        crate::raster_laws::lemma_extreme_hits(t, y, sx, ex, w);
    }
}

} // verus!
