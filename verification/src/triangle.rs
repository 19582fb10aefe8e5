//! Triangles on the sub-pixel grid: bounding box, containment, plane and
//! depth, and the span of a scanline.

use crate::determinant::Determinant;
use crate::determinant::Mat;
use crate::fixed::ceil_quotient;
use crate::fixed::centre_of;
use crate::fixed::COORD_LIMIT;
use crate::fixed::div_ceil;
use crate::fixed::div_floor;
use crate::fixed::floor_quotient;
use crate::fixed::pixel_centre;
use crate::fixed::PIXEL_LIMIT;
use crate::fixed::UNIT;
use crate::position::Pos3;
use crate::render_object::RenderObject;
use crate::vector::product_difference;
use crate::vector::V3;
use crate::vector::Vector3;
use vstd::prelude::*;

verus! {

/// The larger of two numbers.
pub fn max(l: i64, r: i64) -> (m: i64)
    ensures
        m == larger(l as int, r as int),
{
    if l < r {
        r
    } else {
        l
    }
}

/// The smaller of two numbers.
pub fn min(l: i64, r: i64) -> (m: i64)
    ensures
        m == smaller(l as int, r as int),
{
    if l < r {
        l
    } else {
        r
    }
}

pub open spec fn larger(l: int, r: int) -> int {
    if l < r {
        r
    } else {
        l
    }
}

pub open spec fn smaller(l: int, r: int) -> int {
    if l < r {
        l
    } else {
        r
    }
}

/// The vertex that follows vertex `i` in the order of the triangle.
pub open spec fn successor(i: int) -> int {
    if i == 2 {
        0
    } else {
        i + 1
    }
}

/// The cross product that tells on which side of the edge from vertex `i` to
/// its successor the point `p` lies: the vector from the vertex to `p`, times
/// the edge.
pub open spec fn edge_cross(t: Seq<V3>, i: int, p: V3) -> V3 {
    p.minus(t[i]).cross(t[successor(i)].minus(t[i]))
}

/// Containment: the point lies on the same side of all three edges, an edge
/// itself included. No two of the three cross products point against each
/// other: each is compared with the one of the edge before it, the first
/// with the last.
pub open spec fn contains(t: Seq<V3>, p: V3) -> bool {
    &&& edge_cross(t, 0, p).dot(edge_cross(t, 1, p)) >= 0
    &&& edge_cross(t, 1, p).dot(edge_cross(t, 2, p)) >= 0
    &&& edge_cross(t, 2, p).dot(edge_cross(t, 0, p)) >= 0
}

/// The coefficients `(a, b, c, d)` of the plane `a x + b y + c z + d = 0`
/// through the three vertices: the cross product of the two edges that leave
/// the first vertex, and the offset that puts that vertex on the plane.
pub open spec fn plane(t: Seq<V3>) -> (int, int, int, int) {
    let n = t[1].minus(t[0]).cross(t[2].minus(t[0]));
    (n.x, n.y, n.z, -n.dot(t[0]))
}

/// The matrix that takes a homogeneous position `(x, y, z, w)` to the pair
/// `(-(a x + b y + d w), c w)`: the depth of the plane above `(x / w, y / w)`
/// is the first of the two divided by the second.
pub open spec fn depth_matrix(t: Seq<V3>) -> Mat {
    let (a, b, c, d) = plane(t);
    Mat {
        rows: 4,
        cols: 2,
        cells: seq![seq![-a, 0int], seq![-b, 0int], seq![0int, 0int], seq![-d, c]],
    }
}

/// The pixel that holds the grid coordinate `v`, and pixel 0 for what lies
/// before the first pixel.
pub open spec fn pixel_below(v: int) -> int {
    larger(0, floor_quotient(v, UNIT as int))
}

/// The first pixel boundary at or behind the grid coordinate `v`, and 0 for
/// what lies before the first pixel.
pub open spec fn pixel_above(v: int) -> int {
    larger(0, ceil_quotient(v, UNIT as int))
}

/// Where the line through the edge from vertex `e` to its successor meets the
/// scanline `y`: the pixel column that holds the meeting point. An edge that
/// runs along the scanlines meets none.
pub open spec fn intercept(t: Seq<V3>, e: int, y: int) -> Option<int> {
    let p1 = t[e];
    let p2 = t[successor(e)];
    let dy = p2.y - p1.y;
    if dy == 0 {
        None
    } else {
        Some(floor_quotient(p1.x * dy + (p2.x - p1.x) * (y - p1.y), dy * UNIT))
    }
}

/// Pixel column `i` is probed for edge `e`: the edge meets the scanline
/// between `sx` and `ex`, and `i` lies between them and no more than two
/// columns from the meeting point.
pub open spec fn probed(t: Seq<V3>, e: int, y: int, sx: int, ex: int, i: int) -> bool {
    match intercept(t, e, y) {
        None => false,
        Some(x) => sx <= x <= ex && sx <= i <= ex && x - 2 <= i <= x + 2,
    }
}

/// The triangle contains the centre of pixel column `i` on the scanline `y`.
pub open spec fn covers(t: Seq<V3>, y: int, i: int) -> bool {
    contains(t, V3 { x: pixel_centre(i), y: y, z: 0 })
}

/// Pixel column `i` is probed for one of the three edges, and the centre of
/// that pixel on the scanline is inside the triangle.
pub open spec fn hit(t: Seq<V3>, y: int, sx: int, ex: int, i: int) -> bool {
    &&& probed(t, 0, y, sx, ex, i) || probed(t, 1, y, sx, ex, i) || probed(t, 2, y, sx, ex, i)
    &&& covers(t, y, i)
}

/// The span of the scanline `y` between the columns `sx` and `ex`: the
/// leftmost and the rightmost hit, if there is a hit at all.
pub open spec fn span_of(t: Seq<V3>, y: int, sx: int, ex: int) -> Option<(int, int)> {
    if exists|i: int| hit(t, y, sx, ex, i) {
        Some(
            (
                choose|l: int| leftmost_hit(t, y, sx, ex, l),
                choose|r: int| rightmost_hit(t, y, sx, ex, r),
            ),
        )
    } else {
        None
    }
}

/// Column `l` is hit, and no column before it.
pub open spec fn leftmost_hit(t: Seq<V3>, y: int, sx: int, ex: int, l: int) -> bool {
    hit(t, y, sx, ex, l) && forall|i: int| hit(t, y, sx, ex, i) ==> l <= i
}

/// Column `r` is hit, and no column behind it.
pub open spec fn rightmost_hit(t: Seq<V3>, y: int, sx: int, ex: int, r: int) -> bool {
    hit(t, y, sx, ex, r) && forall|i: int| hit(t, y, sx, ex, i) ==> i <= r
}

/// The leftmost and the rightmost hit are the span.
pub proof fn lemma_span_of(t: Seq<V3>, y: int, sx: int, ex: int, l: int, r: int)
    requires
        leftmost_hit(t, y, sx, ex, l),
        rightmost_hit(t, y, sx, ex, r),
    ensures
        span_of(t, y, sx, ex) == Some((l, r)),
{
    let cl = choose|l: int| leftmost_hit(t, y, sx, ex, l);
    let cr = choose|r: int| rightmost_hit(t, y, sx, ex, r);
    assert(leftmost_hit(t, y, sx, ex, cl));
    assert(rightmost_hit(t, y, sx, ex, cr));
    assert(cl == l);
    assert(cr == r);
}

/// Pixel column `i` is probed for one of the first `e` edges.
pub open spec fn probed_before(t: Seq<V3>, e: int, y: int, sx: int, ex: int, i: int) -> bool {
    ||| e > 0 && probed(t, 0, y, sx, ex, i)
    ||| e > 1 && probed(t, 1, y, sx, ex, i)
    ||| e > 2 && probed(t, 2, y, sx, ex, i)
}

/// An ordered triple of vertices.
#[derive(Debug)]
pub struct Triangle {
    poses: Vec<Pos3>,
}

impl View for Triangle {
    type V = Seq<V3>;

    closed spec fn view(&self) -> Seq<V3> {
        Seq::new(self.poses@.len(), |i: int| self.poses@[i]@)
    }
}

/// Three vertices, each coordinate within [`COORD_LIMIT`].
pub open spec fn triangle_wf(t: Seq<V3>) -> bool {
    &&& t.len() == 3
    &&& forall|i: int| 0 <= i < 3 ==> (#[trigger] t[i]).within(COORD_LIMIT as int)
}

pub proof fn lemma_cross_bound(u: V3, v: V3)
    requires
        u.within(2 * COORD_LIMIT),
        v.within(2 * COORD_LIMIT),
    ensures
        u.cross(v).within(0x2000_0000_0000_0000),
{
    lemma_product_difference_bound(u.y, v.z, u.z, v.y);
    lemma_product_difference_bound(u.z, v.x, u.x, v.z);
    lemma_product_difference_bound(u.x, v.y, u.y, v.x);
}

proof fn lemma_product_difference_bound(a: int, b: int, c: int, d: int)
    requires
        -0x4000_0000 <= a <= 0x4000_0000,
        -0x4000_0000 <= b <= 0x4000_0000,
        -0x4000_0000 <= c <= 0x4000_0000,
        -0x4000_0000 <= d <= 0x4000_0000,
    ensures
        -0x2000_0000_0000_0000 <= a * b - c * d <= 0x2000_0000_0000_0000,
{
    assert(-0x1000_0000_0000_0000 <= a * b <= 0x1000_0000_0000_0000) by (nonlinear_arith)
        requires
            -0x4000_0000 <= a <= 0x4000_0000,
            -0x4000_0000 <= b <= 0x4000_0000,
    ;
    assert(-0x1000_0000_0000_0000 <= c * d <= 0x1000_0000_0000_0000) by (nonlinear_arith)
        requires
            -0x4000_0000 <= c <= 0x4000_0000,
            -0x4000_0000 <= d <= 0x4000_0000,
    ;
}

impl Triangle {
    /// The triangle is made of three vertices within [`COORD_LIMIT`].
    pub open spec fn wf(&self) -> bool {
        triangle_wf(self@)
    }

    pub fn new(pos1: Pos3, pos2: Pos3, pos3: Pos3) -> (r: Self)
        ensures
            r@ == seq![pos1@, pos2@, pos3@],
    {
        let mut poses: Vec<Pos3> = Vec::new();
        poses.push(pos1);
        poses.push(pos2);
        poses.push(pos3);
        let r = Self { poses };
        assert(r@ =~= seq![pos1@, pos2@, pos3@]);
        r
    }

    pub fn from_vec(vec: Vec<Pos3>) -> (r: Self)
        ensures
            r@ == Seq::new(vec@.len(), |i: int| vec@[i]@),
    {
        Self { poses: vec }
    }

    /// The number of vertices: three, unless the triangle was made of a
    /// vector of another length.
    pub fn len(&self) -> (r: usize)
        ensures
            r == self@.len(),
    {
        self.poses.len()
    }

    /// Vertex `i`.
    pub fn vertex(&self, i: usize) -> (p: Pos3)
        requires
            i < self@.len(),
        ensures
            p@ == self@[i as int],
    {
        self.poses[i]
    }

    /// Whether the vertices are three and within [`COORD_LIMIT`]: what the
    /// geometric methods ask for.
    pub fn is_wf(&self) -> (r: bool)
        ensures
            r == self.wf(),
    {
        if self.poses.len() != 3 {
            return false;
        }
        let mut i: usize = 0;
        while i < 3
            invariant
                i <= 3,
                self@.len() == 3,
                self.poses@.len() == 3,
                forall|k: int| 0 <= k < i ==> (#[trigger] self@[k]).within(COORD_LIMIT as int),
            decreases 3 - i,
        {
            let p = self.poses[i];
            if p.x < -COORD_LIMIT || p.x > COORD_LIMIT || p.y < -COORD_LIMIT || p.y > COORD_LIMIT
                || p.z < -COORD_LIMIT || p.z > COORD_LIMIT {
                assert(!self@[i as int].within(COORD_LIMIT as int));
                return false;
            }
            i += 1;
        }
        true
    }

    /// The bounding box in whole pixels, as `(min x, max x, min y, max y)`:
    /// the least coordinate rounded down to a pixel and the greatest rounded
    /// up, with pixel 0 for what lies before the first pixel.
    pub fn get_edge(&self) -> (r: (u32, u32, u32, u32))
        requires
            self.wf(),
        ensures
            r.0 == pixel_below(smaller(smaller(self@[0].x, self@[1].x), self@[2].x)),
            r.1 == pixel_above(larger(larger(self@[0].x, self@[1].x), self@[2].x)),
            r.2 == pixel_below(smaller(smaller(self@[0].y, self@[1].y), self@[2].y)),
            r.3 == pixel_above(larger(larger(self@[0].y, self@[1].y), self@[2].y)),
            r.0 <= r.1 <= PIXEL_LIMIT,
            r.2 <= r.3 <= PIXEL_LIMIT,
    {
        assert(self@[0].within(COORD_LIMIT as int) && self@[1].within(COORD_LIMIT as int)
            && self@[2].within(COORD_LIMIT as int));
        let min_x = min(min(self.poses[0].x, self.poses[1].x), self.poses[2].x);
        let max_x = max(max(self.poses[0].x, self.poses[1].x), self.poses[2].x);
        let min_y = min(min(self.poses[0].y, self.poses[1].y), self.poses[2].y);
        let max_y = max(max(self.poses[0].y, self.poses[1].y), self.poses[2].y);
        proof {
            lemma_pixel_order(min_x as int, max_x as int);
            lemma_pixel_order(min_y as int, max_y as int);
        }
        (floor_pixel(min_x), ceil_pixel(max_x), floor_pixel(min_y), ceil_pixel(max_y))
    }

    /// The coefficients `(a, b, c, d)` of the plane through the three
    /// vertices.
    pub fn get_surface_equation(&self) -> (r: (i128, i128, i128, i128))
        requires
            self.wf(),
        ensures
            (r.0 as int, r.1 as int, r.2 as int, r.3 as int) == plane(self@),
    {
        assert(self@[0].within(COORD_LIMIT as int) && self@[1].within(COORD_LIMIT as int)
            && self@[2].within(COORD_LIMIT as int));
        let p0 = self.poses[0];
        let p1 = self.poses[1];
        let p2 = self.poses[2];
        assert(p0@ == self@[0] && p1@ == self@[1] && p2@ == self@[2]);
        let a = product_difference(p1.y - p0.y, p2.z - p0.z, p1.z - p0.z, p2.y - p0.y);
        let b = product_difference(p2.x - p0.x, p1.z - p0.z, p1.x - p0.x, p2.z - p0.z);
        let c = product_difference(p1.x - p0.x, p2.y - p0.y, p2.x - p0.x, p1.y - p0.y);
        proof {
            lemma_cross_bound(p1@.minus(p0@), p2@.minus(p0@));
            let n = p1@.minus(p0@).cross(p2@.minus(p0@));
            assert(a == n.x && c == n.z);
            assert(b == n.y) by (nonlinear_arith)
                requires
                    b == (p2.x - p0.x) * (p1.z - p0.z) - (p1.x - p0.x) * (p2.z - p0.z),
                    n.y == (p1.z - p0.z) * (p2.x - p0.x) - (p1.x - p0.x) * (p2.z - p0.z),
            ;
            lemma_scaled_bound(a as int, p0.x as int);
            lemma_scaled_bound(b as int, p0.y as int);
            lemma_scaled_bound(c as int, p0.z as int);
        }
        let d = -(a * (p0.x as i128) + b * (p0.y as i128) + c * (p0.z as i128));
        (a, b, c, d)
    }

    /// The matrix that gives the depth of the triangle's plane above a
    /// position: a homogeneous row times it is a numerator and a denominator
    /// of the depth. For a triangle seen edge-on the denominator is zero.
    pub fn get_depth_matrix(&self) -> (r: Determinant)
        requires
            self.wf(),
        ensures
            r.wf(),
            r@ == depth_matrix(self@),
    {
        let (a, b, c, d) = self.get_surface_equation();
        proof {
            assert(self@[0].within(COORD_LIMIT as int) && self@[1].within(COORD_LIMIT as int)
                && self@[2].within(COORD_LIMIT as int));
            lemma_cross_bound(self@[1].minus(self@[0]), self@[2].minus(self@[0]));
            lemma_scaled_bound(a as int, self@[0].x);
            lemma_scaled_bound(b as int, self@[0].y);
            lemma_scaled_bound(c as int, self@[0].z);
        }
        let mut elements: Vec<i128> = Vec::new();
        elements.push(-a);
        elements.push(0);
        elements.push(-b);
        elements.push(0);
        elements.push(0);
        elements.push(0);
        elements.push(-d);
        elements.push(c);
        let r = Determinant::from_vec(4, 2, false, elements).unwrap();
        proof {
            let want = depth_matrix(self@);
            assert(want.cells[0] =~= seq![-a as int, 0int]);
            crate::determinant::lemma_mat_equal(r@, want);
        }
        r
    }

    fn edge_cross(&self, i: usize, pos: &Pos3) -> (r: Vector3)
        requires
            self.wf(),
            i < 3,
            pos@.within(COORD_LIMIT as int),
        ensures
            r@ == edge_cross(self@, i as int, pos@),
            r@.within(0x2000_0000_0000_0000),
    {
        let j = if i == 2 {
            0
        } else {
            i + 1
        };
        assert(self@[i as int].within(COORD_LIMIT as int) && self@[j as int].within(
            COORD_LIMIT as int,
        ));
        let vec1 = self.poses[j].sub(&self.poses[i]);
        let vec2 = pos.sub(&self.poses[i]);
        proof {
            lemma_cross_bound(vec2@, vec1@);
        }
        vec2.cross(&vec1)
    }

    /// Whether the triangle contains `pos`, its edges included: the cross
    /// products of the vector from a vertex to `pos` with the edge that leaves
    /// the vertex, taken for each of the three edges, do not point against
    /// each other. Each is compared with the one before it, and the last with
    /// the first. The answer is the same for both windings.
    pub fn in_triangle(&self, pos: &Pos3) -> (r: bool)
        requires
            self.wf(),
            pos@.within(COORD_LIMIT as int),
        ensures
            r == contains(self@, pos@),
    {
        let first = self.edge_cross(0, pos);
        let mut last_cross_vec: Vector3 = first;
        let mut i: usize = 1;
        while i < 3
            invariant
                self.wf(),
                pos@.within(COORD_LIMIT as int),
                1 <= i <= 3,
                first@ == edge_cross(self@, 0, pos@),
                first@.within(0x2000_0000_0000_0000),
                last_cross_vec@ == edge_cross(self@, i - 1, pos@),
                last_cross_vec@.within(0x2000_0000_0000_0000),
                i >= 2 ==> edge_cross(self@, 0, pos@).dot(edge_cross(self@, 1, pos@)) >= 0,
                i >= 3 ==> edge_cross(self@, 1, pos@).dot(edge_cross(self@, 2, pos@)) >= 0,
            decreases 3 - i,
        {
            let cross = self.edge_cross(i, pos);
            if last_cross_vec.dot(&cross) < 0 {
                return false;
            }
            last_cross_vec = cross;
            i += 1;
        }
        last_cross_vec.dot(&first) >= 0
    }

    /// The pixel column in which the line through edge `e` meets the
    /// scanline `y`, if the edge does not run along the scanlines.
    fn intercept(&self, e: usize, y: i64) -> (r: Option<i128>)
        requires
            self.wf(),
            e < 3,
            -COORD_LIMIT <= y <= COORD_LIMIT,
        ensures
            r.is_some() == intercept(self@, e as int, y as int).is_some(),
            r matches Some(x) ==> intercept(self@, e as int, y as int) == Some(x as int),
    {
        let j = if e == 2 {
            0
        } else {
            e + 1
        };
        assert(self@[e as int].within(COORD_LIMIT as int) && self@[j as int].within(
            COORD_LIMIT as int,
        ));
        let p1 = self.poses[e];
        let p2 = self.poses[j];
        let dy: i64 = p2.y - p1.y;
        if dy == 0 {
            return None;
        }
        let dx: i64 = p2.x - p1.x;
        let rise: i64 = y - p1.y;
        proof {
            assert(-0x1000_0000_0000_0000 <= p1.x * dy <= 0x1000_0000_0000_0000)
                by (nonlinear_arith)
                requires
                    -0x4000_0000 <= p1.x <= 0x4000_0000,
                    -0x4000_0000 <= dy <= 0x4000_0000,
            ;
            assert(-0x1000_0000_0000_0000 <= dx * rise <= 0x1000_0000_0000_0000)
                by (nonlinear_arith)
                requires
                    -0x4000_0000 <= dx <= 0x4000_0000,
                    -0x4000_0000 <= rise <= 0x4000_0000,
            ;
            assert(-0x4000_0000_0000 <= dy * UNIT <= 0x4000_0000_0000 && dy * UNIT != 0)
                by (nonlinear_arith)
                requires
                    -0x4000_0000 <= dy <= 0x4000_0000,
                    dy != 0,
                    UNIT == 65536,
            ;
        }
        let num: i128 = (p1.x as i128) * (dy as i128) + (dx as i128) * (rise as i128);
        let den: i128 = (dy as i128) * (UNIT as i128);
        Some(div_floor(num, den))
    }

    /// The span of the scanline `y` that the triangle covers between the
    /// pixel columns `sx` and `ex`, both included.
    ///
    /// Each edge is followed to the scanline; where the meeting point lies
    /// between `sx` and `ex`, the pixels up to two columns to either side of
    /// it are probed, each at its centre. The span runs from the leftmost to
    /// the rightmost probed pixel that the triangle contains, and there is
    /// none if it contains no probed pixel.
    pub fn get_horizon_edge(&self, y: i64, sx: u32, ex: u32) -> (r: Option<(u32, u32)>)
        requires
            self.wf(),
            -COORD_LIMIT <= y <= COORD_LIMIT,
            ex < PIXEL_LIMIT,
        ensures
            match r {
                None => forall|i: int| !hit(self@, y as int, sx as int, ex as int, i),
                Some((l, r)) => {
                    &&& hit(self@, y as int, sx as int, ex as int, l as int)
                    &&& hit(self@, y as int, sx as int, ex as int, r as int)
                    &&& forall|i: int|
                        hit(self@, y as int, sx as int, ex as int, i) ==> l <= i <= r
                    &&& sx <= l <= r <= ex
                },
            },
            span_of(self@, y as int, sx as int, ex as int) == (match r {
                None => None::<(int, int)>,
                Some((l, r)) => Some((l as int, r as int)),
            }),
    {
        let mut found = false;
        let mut left: u32 = 0;
        let mut right: u32 = 0;
        let mut e: usize = 0;
        while e < 3
            invariant
                self.wf(),
                -COORD_LIMIT <= y <= COORD_LIMIT,
                ex < PIXEL_LIMIT,
                e <= 3,
                found ==> hit(self@, y as int, sx as int, ex as int, left as int) && hit(
                    self@,
                    y as int,
                    sx as int,
                    ex as int,
                    right as int,
                ),
                forall|i: int|
                    probed_before(self@, e as int, y as int, sx as int, ex as int, i)
                        && #[trigger] covers(self@, y as int, i) ==> found && left <= i <= right,
            decreases 3 - e,
        {
            let meet = self.intercept(e, y);
            let mut inside = false;
            let mut x: i128 = 0;
            if let Some(v) = meet {
                if v >= sx as i128 && v <= ex as i128 {
                    inside = true;
                    x = v;
                }
            }
            if inside {
                let lo: u32 = if x - 2 < sx as i128 {
                    sx
                } else {
                    (x - 2) as u32
                };
                let hi: u32 = if x + 2 > ex as i128 {
                    ex
                } else {
                    (x + 2) as u32
                };
                let mut i: u32 = lo;
                while i <= hi
                    invariant
                        self.wf(),
                        -COORD_LIMIT <= y <= COORD_LIMIT,
                        ex < PIXEL_LIMIT,
                        e < 3,
                        sx <= lo <= i <= hi + 1,
                        hi <= ex,
                        intercept(self@, e as int, y as int) == Some(x as int),
                        sx <= x <= ex,
                        lo == larger(sx as int, x - 2),
                        hi == smaller(ex as int, x + 2),
                        found ==> hit(self@, y as int, sx as int, ex as int, left as int) && hit(
                            self@,
                            y as int,
                            sx as int,
                            ex as int,
                            right as int,
                        ),
                        forall|k: int|
                            (probed_before(self@, e as int, y as int, sx as int, ex as int, k) || lo
                                <= k < i) && #[trigger] covers(self@, y as int, k) ==> found && left
                                <= k <= right,
                    decreases hi + 1 - i,
                {
                    let pos = Pos3::new(centre_of(i), y, 0);
                    assert(pos@ == (V3 { x: pixel_centre(i as int), y: y as int, z: 0 }));
                    if self.in_triangle(&pos) {
                        assert(covers(self@, y as int, i as int));
                        assert(probed(self@, e as int, y as int, sx as int, ex as int, i as int));
                        if !found {
                            found = true;
                            left = i;
                            right = i;
                        } else {
                            if i < left {
                                left = i;
                            }
                            if i > right {
                                right = i;
                            }
                        }
                    }
                    i += 1;
                }
            }
            e += 1;
        }
        if found {
            proof {
                lemma_span_of(self@, y as int, sx as int, ex as int, left as int, right as int);
            }
            Some((left, right))
        } else {
            None
        }
    }

    /// The indexed form of the triangle: its vertices and the indices 0, 1, 2.
    pub fn to_render_obj(&self) -> (r: RenderObject)
        ensures
            r.vertices() == self@,
            r.indexes@ == seq![0usize, 1usize, 2usize],
    {
        let mut indexes: Vec<usize> = Vec::new();
        indexes.push(0);
        indexes.push(1);
        indexes.push(2);
        let r = RenderObject::from_vec(self.poses.clone(), indexes);
        assert(r.vertices() =~= self@);
        r
    }
}

pub proof fn lemma_scaled_bound(a: int, x: int)
    requires
        -0x2000_0000_0000_0000 <= a <= 0x2000_0000_0000_0000,
        -0x2000_0000 <= x <= 0x2000_0000,
    ensures
        -0x400_0000_0000_0000_0000_0000 <= a * x <= 0x400_0000_0000_0000_0000_0000,
{
    assert(-0x400_0000_0000_0000_0000_0000 <= a * x <= 0x400_0000_0000_0000_0000_0000)
        by (nonlinear_arith)
        requires
            -0x2000_0000_0000_0000 <= a <= 0x2000_0000_0000_0000,
            -0x2000_0000 <= x <= 0x2000_0000,
    ;
}

proof fn lemma_pixel_order(lo: int, hi: int)
    requires
        -COORD_LIMIT <= lo <= hi <= COORD_LIMIT,
    ensures
        0 <= pixel_below(lo) <= pixel_above(hi) <= PIXEL_LIMIT,
{
    let u = UNIT as int;
    crate::fixed::lemma_floor_quotient_bounds(lo, u);
    crate::fixed::lemma_floor_quotient_bounds(-hi, u);
    let f = floor_quotient(lo, u);
    let c = ceil_quotient(hi, u);
    assert(f * u <= lo);
    assert(hi <= c * u);
    assert(c * u - u < hi);
}

/// The pixel that holds a coordinate within [`COORD_LIMIT`].
fn floor_pixel(v: i64) -> (r: u32)
    requires
        -COORD_LIMIT <= v <= COORD_LIMIT,
    ensures
        r == pixel_below(v as int),
{
    let q = div_floor(v as i128, UNIT as i128);
    proof {
        crate::fixed::lemma_floor_quotient_bounds(v as int, UNIT as int);
    }
    if q < 0 {
        0
    } else {
        q as u32
    }
}

/// The first pixel boundary at or behind a coordinate within
/// [`COORD_LIMIT`].
fn ceil_pixel(v: i64) -> (r: u32)
    requires
        -COORD_LIMIT <= v <= COORD_LIMIT,
    ensures
        r == pixel_above(v as int),
{
    let q = div_ceil(v as i128, UNIT as i128);
    proof {
        crate::fixed::lemma_floor_quotient_bounds(-(v as int), UNIT as int);
    }
    if q < 0 {
        0
    } else {
        q as u32
    }
}

} // verus!
