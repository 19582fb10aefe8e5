//! The two ways in which a fragment gets its colour: the grey of its depth,
//! or the texel of an image that lies under it on the triangle in space.
//!
//! For a texture the place of a fragment on the triangle is given by three
//! weights, one for each vertex. On the screen the weight of a vertex is the
//! area of the triangle that the fragment spans with the other two vertices.
//! In space each of these areas counts the less the farther its vertex lies
//! from the eye, so each is multiplied by a correction: the product of the
//! homogeneous divisors of the other two vertices.

use crate::fixed::centre_of;
use crate::fixed::COORD_LIMIT;
use crate::fixed::div_floor;
use crate::fixed::floor_quotient;
use crate::fixed::pixel_centre;
use crate::fixed::PIXEL_LIMIT;
use crate::fixed::product_within;
use crate::raster::grey;
use crate::raster::grey_paint;
use crate::raster::Paint;
use crate::raster::shade_of;
use crate::texture::texel_at;
use crate::texture::Texture;
use crate::triangle::Triangle;
use crate::triangle_resources::Uv;
use crate::triangle_resources::UV_LIMIT;
use crate::vector::product_difference;
use crate::vector::V3;
use vstd::prelude::*;

verus! {

/// The largest divisor that takes part in a correction as it is: larger
/// ones are halved until the largest of the three is below it.
pub const DIVISOR_LIMIT: i128 = 0x10_0000;

/// The largest correction.
pub const CORRECTION_LIMIT: i128 = 0x100_0000_0000;

/// Twice the signed area of the triangle that the origin spans with the
/// points `a` and `b` of the plane.
pub open spec fn area2(a: V3, b: V3) -> int {
    a.x * b.y - a.y * b.x
}

/// The weights of the three vertices of `flat` at the position `(x, y)` of
/// the screen: for each vertex twice the signed area of the triangle that
/// the position spans with the other two.
pub open spec fn edge_weights(flat: Seq<V3>, x: int, y: int) -> (int, int, int) {
    let p = V3 { x, y, z: 0 };
    (
        area2(flat[1].minus(p), flat[2].minus(p)),
        area2(flat[2].minus(p), flat[0].minus(p)),
        area2(flat[0].minus(p), flat[1].minus(p)),
    )
}

/// How often `m` has to be halved to get below [`DIVISOR_LIMIT`].
pub open spec fn halvings(m: int) -> nat
    decreases m,
{
    if m < DIVISOR_LIMIT {
        0
    } else {
        1 + halvings(m / 2)
    }
}

/// `a`, halved `s` times and rounded downwards each time.
pub open spec fn halved(a: int, s: nat) -> int
    decreases s,
{
    if s == 0 {
        a
    } else {
        halved(a / 2, (s - 1) as nat)
    }
}

pub open spec fn magnitude(w: int) -> int {
    if w < 0 {
        -w
    } else {
        w
    }
}

pub open spec fn largest(a: int, b: int, c: int) -> int {
    if a >= b && a >= c {
        a
    } else if b >= c {
        b
    } else {
        c
    }
}

/// The three divisors lie on one side of zero, and their magnitudes are
/// `i128`.
pub open spec fn one_sided(w: (int, int, int)) -> bool {
    ||| 0 < w.0 && 0 < w.1 && 0 < w.2
    ||| -i128::MAX <= w.0 < 0 && -i128::MAX <= w.1 < 0 && -i128::MAX <= w.2 < 0
}

/// The corrections for three vertices with the homogeneous divisors `w`.
///
/// The magnitudes of the divisors are halved together until the largest is
/// below [`DIVISOR_LIMIT`]; the correction of a vertex is the product of what
/// is left of the other two. Divisors that do not lie on one side of zero
/// give no correction: each vertex gets the factor one.
pub open spec fn correction(w: (int, int, int)) -> (int, int, int) {
    if one_sided(w) {
        let s = halvings(largest(magnitude(w.0), magnitude(w.1), magnitude(w.2)));
        let r0 = halved(magnitude(w.0), s);
        let r1 = halved(magnitude(w.1), s);
        let r2 = halved(magnitude(w.2), s);
        (r1 * r2, r2 * r0, r0 * r1)
    } else {
        (1, 1, 1)
    }
}

/// The value at a fragment of a quantity that has the values `a` at the
/// three vertices: the mean of the three, each counted with its weight times
/// its correction, rounded downwards. Where the weights add up to nothing the
/// value is zero.
pub open spec fn interpolated(
    weights: (int, int, int),
    corrections: (int, int, int),
    a: (int, int, int),
) -> int {
    let l0 = weights.0 * corrections.0;
    let l1 = weights.1 * corrections.1;
    let l2 = weights.2 * corrections.2;
    let total = l0 + l1 + l2;
    if total == 0 {
        0
    } else {
        floor_quotient(l0 * a.0 + l1 * a.1 + l2 * a.2, total)
    }
}

/// The paint that gives a fragment the texel under it: the texture
/// coordinates `uv` of the vertices are interpolated at the centre of the
/// pixel, and the image is looked up there by the nearest texel.
pub open spec fn texture_paint(
    flat: Seq<V3>,
    corrections: (int, int, int),
    uv: Seq<(int, int)>,
    texels: Seq<u8>,
    width: nat,
    height: nat,
) -> Paint {
    |i: int, j: int, d: i64|
        {
            let weights = edge_weights(flat, pixel_centre(i), pixel_centre(j));
            texel_at(
                texels,
                width,
                height,
                interpolated(weights, corrections, (uv[0].0, uv[1].0, uv[2].0)),
                interpolated(weights, corrections, (uv[0].1, uv[1].1, uv[2].1)),
            )
        }
}

/// What is needed to texture the fragments of one triangle.
pub struct Texturing<'a> {
    /// The outline of the triangle on the screen.
    pub flat: &'a Triangle,
    /// The correction of each vertex.
    pub corrections: (i128, i128, i128),
    /// The texture coordinates of the vertices.
    pub uv: [Uv; 3],
    /// The texture.
    pub image: &'a Texture,
}

/// How fragments get their colour.
pub enum Shader<'a> {
    /// Each fragment in the grey of its depth.
    Flat,
    /// Each fragment in the colour of the texel under it.
    Textured(Texturing<'a>),
}

pub open spec fn corrections_in_range(c: (int, int, int)) -> bool {
    &&& 0 <= c.0 <= CORRECTION_LIMIT
    &&& 0 <= c.1 <= CORRECTION_LIMIT
    &&& 0 <= c.2 <= CORRECTION_LIMIT
}

impl<'a> Texturing<'a> {
    pub open spec fn wf(&self) -> bool {
        &&& self.flat.wf()
        &&& self.image.wf()
        &&& corrections_in_range(
            (self.corrections.0 as int, self.corrections.1 as int, self.corrections.2 as int),
        )
        &&& self.uv@[0].in_range()
        &&& self.uv@[1].in_range()
        &&& self.uv@[2].in_range()
    }

    pub open spec fn coordinates(&self) -> Seq<(int, int)> {
        seq![
            (self.uv@[0].u as int, self.uv@[0].v as int),
            (self.uv@[1].u as int, self.uv@[1].v as int),
            (self.uv@[2].u as int, self.uv@[2].v as int),
        ]
    }

    pub open spec fn paint(&self) -> Paint {
        texture_paint(
            self.flat@,
            (self.corrections.0 as int, self.corrections.1 as int, self.corrections.2 as int),
            self.coordinates(),
            self.image@.texels,
            self.image@.width,
            self.image@.height,
        )
    }
}

impl<'a> Shader<'a> {
    pub open spec fn wf(&self) -> bool {
        match self {
            Shader::Flat => true,
            Shader::Textured(t) => t.wf(),
        }
    }

    /// The paint of the shader.
    pub open spec fn paint(&self) -> Paint {
        match self {
            Shader::Flat => grey_paint(),
            Shader::Textured(t) => t.paint(),
        }
    }

    /// The colour of the fragment of pixel `(i, j)` with the depth `depth`.
    pub fn colour(&self, i: u32, j: u32, depth: i64) -> (c: [u8; 4])
        requires
            self.wf(),
            i < PIXEL_LIMIT,
            j < PIXEL_LIMIT,
        ensures
            c@ == (self.paint())(i as int, j as int, depth),
    {
        match self {
            Shader::Flat => {
                let grey_byte = shade_of(depth);
                let c = [grey_byte, grey_byte, grey_byte, grey_byte];
                assert(c@ =~= grey(grey_byte));
                c
            },
            Shader::Textured(t) => {
                let x: i64 = centre_of(i);
                let y: i64 = centre_of(j);
                let weights = weights_at(t.flat, x, y);
                let u = interpolate(weights, t.corrections, (t.uv[0].u, t.uv[1].u, t.uv[2].u));
                let v = interpolate(weights, t.corrections, (t.uv[0].v, t.uv[1].v, t.uv[2].v));
                t.image.sample(u, v)
            },
        }
    }
}

/// The weights of the three vertices of `flat` at the position `(x, y)`.
pub fn weights_at(flat: &Triangle, x: i64, y: i64) -> (w: (i128, i128, i128))
    requires
        flat.wf(),
        -COORD_LIMIT <= x <= COORD_LIMIT,
        -COORD_LIMIT <= y <= COORD_LIMIT,
    ensures
        (w.0 as int, w.1 as int, w.2 as int) == edge_weights(flat@, x as int, y as int),
        -0x2000_0000_0000_0000 <= w.0 <= 0x2000_0000_0000_0000,
        -0x2000_0000_0000_0000 <= w.1 <= 0x2000_0000_0000_0000,
        -0x2000_0000_0000_0000 <= w.2 <= 0x2000_0000_0000_0000,
{
    assert(flat@[0].within(COORD_LIMIT as int) && flat@[1].within(COORD_LIMIT as int)
        && flat@[2].within(COORD_LIMIT as int));
    let a = flat.vertex(0);
    let b = flat.vertex(1);
    let c = flat.vertex(2);
    let (ax, ay) = (a.x - x, a.y - y);
    let (bx, by) = (b.x - x, b.y - y);
    let (cx, cy) = (c.x - x, c.y - y);
    proof {
        lemma_area_bound(bx as int, cy as int, by as int, cx as int);
        lemma_area_bound(cx as int, ay as int, cy as int, ax as int);
        lemma_area_bound(ax as int, by as int, ay as int, bx as int);
    }
    (
        product_difference(bx, cy, by, cx),
        product_difference(cx, ay, cy, ax),
        product_difference(ax, by, ay, bx),
    )
}

proof fn lemma_area_bound(a: int, b: int, c: int, d: int)
    requires
        -0x4000_0000 <= a <= 0x4000_0000,
        -0x4000_0000 <= b <= 0x4000_0000,
        -0x4000_0000 <= c <= 0x4000_0000,
        -0x4000_0000 <= d <= 0x4000_0000,
    ensures
        -0x2000_0000_0000_0000 <= a * b - c * d <= 0x2000_0000_0000_0000,
{
    assert(-0x1000_0000_0000_0000 <= a * b <= 0x1000_0000_0000_0000) by (nonlinear_arith)
        requires
            -0x4000_0000 <= a <= 0x4000_0000,
            -0x4000_0000 <= b <= 0x4000_0000,
    ;
    assert(-0x1000_0000_0000_0000 <= c * d <= 0x1000_0000_0000_0000) by (nonlinear_arith)
        requires
            -0x4000_0000 <= c <= 0x4000_0000,
            -0x4000_0000 <= d <= 0x4000_0000,
    ;
}

/// The value at a fragment of a quantity with the values `a` at the
/// vertices.
pub fn interpolate(
    weights: (i128, i128, i128),
    corrections: (i128, i128, i128),
    a: (i64, i64, i64),
) -> (r: i128)
    requires
        -0x2000_0000_0000_0000 <= weights.0 <= 0x2000_0000_0000_0000,
        -0x2000_0000_0000_0000 <= weights.1 <= 0x2000_0000_0000_0000,
        -0x2000_0000_0000_0000 <= weights.2 <= 0x2000_0000_0000_0000,
        corrections_in_range((corrections.0 as int, corrections.1 as int, corrections.2 as int)),
        -UV_LIMIT <= a.0 <= UV_LIMIT,
        -UV_LIMIT <= a.1 <= UV_LIMIT,
        -UV_LIMIT <= a.2 <= UV_LIMIT,
    ensures
        r == interpolated(
            (weights.0 as int, weights.1 as int, weights.2 as int),
            (corrections.0 as int, corrections.1 as int, corrections.2 as int),
            (a.0 as int, a.1 as int, a.2 as int),
        ),
{
    let l0 = product_within(weights.0, corrections.0, Ghost(0x2000_0000_0000_0000), Ghost(0x100_0000_0000));
    let l1 = product_within(weights.1, corrections.1, Ghost(0x2000_0000_0000_0000), Ghost(0x100_0000_0000));
    let l2 = product_within(weights.2, corrections.2, Ghost(0x2000_0000_0000_0000), Ghost(0x100_0000_0000));
    let total = l0 + l1 + l2;
    if total == 0 {
        0
    } else {
        let n0 = product_within(l0, a.0 as i128, Ghost(0x20_0000_0000_0000_0000_0000_0000), Ghost(0x10_0000));
        let n1 = product_within(l1, a.1 as i128, Ghost(0x20_0000_0000_0000_0000_0000_0000), Ghost(0x10_0000));
        let n2 = product_within(l2, a.2 as i128, Ghost(0x20_0000_0000_0000_0000_0000_0000), Ghost(0x10_0000));
        div_floor(n0 + n1 + n2, total)
    }
}

/// The magnitude of a number other than the least `i128`.
fn magnitude_of(w: i128) -> (r: i128)
    requires
        w > i128::MIN,
    ensures
        r == magnitude(w as int),
        r >= 0,
{
    if w < 0 {
        -w
    } else {
        w
    }
}

/// The corrections for three vertices with the homogeneous divisors `w`.
pub fn correct(w: (i128, i128, i128)) -> (c: (i128, i128, i128))
    ensures
        (c.0 as int, c.1 as int, c.2 as int) == correction((w.0 as int, w.1 as int, w.2 as int)),
        corrections_in_range((c.0 as int, c.1 as int, c.2 as int)),
{
    let positive = w.0 > 0 && w.1 > 0 && w.2 > 0;
    let negative = w.0 < 0 && w.1 < 0 && w.2 < 0 && w.0 > i128::MIN && w.1 > i128::MIN && w.2
        > i128::MIN;
    if !positive && !negative {
        return (1, 1, 1);
    }
    let mut r0 = magnitude_of(w.0);
    let mut r1 = magnitude_of(w.1);
    let mut r2 = magnitude_of(w.2);
    let ghost m0 = r0 as int;
    let ghost m1 = r1 as int;
    let ghost m2 = r2 as int;
    let ghost total = halvings(largest(m0, m1, m2));
    let ghost mut done: nat = 0;
    while r0 >= DIVISOR_LIMIT || r1 >= DIVISOR_LIMIT || r2 >= DIVISOR_LIMIT
        invariant
            0 <= r0 && 0 <= r1 && 0 <= r2,
            0 <= m0 && 0 <= m1 && 0 <= m2,
            r0 == halved(m0, done),
            r1 == halved(m1, done),
            r2 == halved(m2, done),
            total == done + halvings(largest(r0 as int, r1 as int, r2 as int)),
            total == halvings(largest(m0, m1, m2)),
        decreases r0 + r1 + r2,
    {
        proof {
            lemma_halved_once_more(m0, done);
            lemma_halved_once_more(m1, done);
            lemma_halved_once_more(m2, done);
            lemma_largest_halves(r0 as int, r1 as int, r2 as int);
            done = done + 1;
        }
        r0 = r0 / 2;
        r1 = r1 / 2;
        r2 = r2 / 2;
    }
    assert(halvings(largest(r0 as int, r1 as int, r2 as int)) == 0);
    (
        product_within(r1, r2, Ghost(0x10_0000), Ghost(0x10_0000)),
        product_within(r2, r0, Ghost(0x10_0000), Ghost(0x10_0000)),
        product_within(r0, r1, Ghost(0x10_0000), Ghost(0x10_0000)),
    )
}

/// Halving once more is halving the result of the halvings before.
proof fn lemma_halved_once_more(a: int, s: nat)
    ensures
        halved(a, s + 1) == halved(a, s) / 2,
    decreases s,
{
    assert(halved(a, s + 1) == halved(a / 2, ((s + 1) - 1) as nat));
    if s > 0 {
        lemma_halved_once_more(a / 2, (s - 1) as nat);
        assert(halved(a, s) == halved(a / 2, (s - 1) as nat));
        assert(((s - 1) as nat) + 1 == s);
    } else {
        assert(halved(a / 2, 0) == a / 2);
    }
}

/// The largest of three halves is half the largest.
proof fn lemma_largest_halves(a: int, b: int, c: int)
    requires
        0 <= a,
        0 <= b,
        0 <= c,
    ensures
        largest(a / 2, b / 2, c / 2) == largest(a, b, c) / 2,
{
}

} // verus!
