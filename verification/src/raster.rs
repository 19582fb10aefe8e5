//! From triangles in space to pixels: projection, culling, scanning, depth
//! and shade.

use crate::determinant::Determinant;
use crate::determinant::Mat;
use crate::determinant::MatrixError;
use crate::determinant::row4;
use crate::fixed::centre_of;
use crate::fixed::COORD_LIMIT;
use crate::fixed::div_floor;
use crate::fixed::fits_i64;
use crate::fixed::floor_quotient;
use crate::fixed::FRAME_LIMIT;
use crate::fixed::pixel_centre;
use crate::fixed::PIXEL_LIMIT;
use crate::fixed::UNIT;
use crate::output_buffer::Frame;
use crate::output_buffer::OutputBuffer;
use crate::output_buffer::pixel_of;
use crate::position::divided;
use crate::position::Pos3;
use crate::position::quotient_i64;
use crate::shader::correct;
use crate::shader::correction;
use crate::shader::Shader;
use crate::shader::texture_paint;
use crate::texture::Image;
use crate::triangle::depth_matrix;
use crate::triangle::larger;
use crate::triangle::pixel_above;
use crate::triangle::pixel_below;
use crate::triangle::smaller;
use crate::triangle::span_of;
use crate::triangle::Triangle;
use crate::triangle_resources::TexturedTriangle;
use crate::vector::V3;
use vstd::prelude::*;

verus! {

/// The grey of a depth: `255 * (depth + 1) / 2` rounded downwards, and the
/// nearest of 0 and 255 for a depth outside the unit range.
pub open spec fn shade(depth: int) -> u8 {
    let v = floor_quotient(255 * (depth + UNIT), 2 * UNIT);
    if v < 0 {
        0u8
    } else if v > 255 {
        255u8
    } else {
        v as u8
    }
}

/// The four bytes of a grey.
pub open spec fn grey(c: u8) -> Seq<u8> {
    seq![c, c, c, c]
}

/// The depth that the matrix `dm` gives above the grid position `(x, y)`:
/// the first cell of the row `(x, y, 0, 1)` times `dm`, divided by the
/// second and rounded downwards. There is none where the product cannot be
/// formed, the second cell is zero, or the quotient is no `i64`.
pub open spec fn depth_reading(dm: Mat, x: int, y: int) -> Option<i64> {
    let row = row4(x, y, 0, 1);
    let num = row.dot(dm, 0, 0, 4);
    let den = row.dot(dm, 0, 1, 4);
    if !row.product_fits(dm) || den == 0 || !fits_i64(floor_quotient(num, den)) {
        None
    } else {
        Some(floor_quotient(num, den) as i64)
    }
}

/// How a fragment gets its colour: from its pixel and its depth.
pub type Paint = spec_fn(int, int, i64) -> Seq<u8>;

/// The paint that shades a fragment to the grey of its depth.
pub open spec fn grey_paint() -> Paint {
    |i: int, j: int, d: i64| grey(shade(d as int))
}

/// The frame after the fragment of pixel `(i, j)` arrived: the depth is read
/// above the centre of the pixel, and the paint gives the colour. A pixel
/// without a depth reading gets no fragment.
pub open spec fn fragment_drawn(frame: Frame, dm: Mat, paint: Paint, i: int, j: int) -> Frame {
    match depth_reading(dm, pixel_centre(i), pixel_centre(j)) {
        Some(d) => frame.plotted(i, j, d, paint(i, j, d)),
        None => frame,
    }
}

/// The frame after the first `count` pixels of row `j` from column `l` on
/// got their fragments, from left to right.
pub open spec fn span_drawn(
    frame: Frame,
    dm: Mat,
    paint: Paint,
    j: int,
    l: int,
    count: nat,
) -> Frame
    decreases count,
{
    if count == 0 {
        frame
    } else {
        fragment_drawn(
            span_drawn(frame, dm, paint, j, l, (count - 1) as nat),
            dm,
            paint,
            l + count - 1,
            j,
        )
    }
}

/// The frame after the first `count` rows from row `sy` on were scanned, top
/// down: each row gets the span that the triangle `flat` covers between the
/// columns `sx` and `ex` at the height of the pixel centres, as far as the
/// span lies within the frame.
pub open spec fn rows_drawn(
    frame: Frame,
    flat: Seq<V3>,
    dm: Mat,
    paint: Paint,
    sx: int,
    ex: int,
    sy: int,
    count: nat,
) -> Frame
    decreases count,
{
    if count == 0 {
        frame
    } else {
        let before = rows_drawn(frame, flat, dm, paint, sx, ex, sy, (count - 1) as nat);
        let j = sy + count - 1;
        match span_of(flat, pixel_centre(j), sx, ex) {
            Some((l, r)) => span_drawn(
                before,
                dm,
                paint,
                j,
                l,
                larger(smaller(r, frame.width - 1) - l + 1, 0) as nat,
            ),
            None => before,
        }
    }
}

/// The columns and rows that are scanned for a triangle: its bounding box,
/// cut to the frame and the column behind it. The result is the first
/// column, the last column, the first row, and the number of rows.
pub open spec fn scan_bounds(frame: Frame, flat: Seq<V3>) -> (int, int, int, nat) {
    let sx = pixel_below(smaller(smaller(flat[0].x, flat[1].x), flat[2].x));
    let ex = pixel_above(larger(larger(flat[0].x, flat[1].x), flat[2].x));
    let sy = pixel_below(smaller(smaller(flat[0].y, flat[1].y), flat[2].y));
    let ey = pixel_above(larger(larger(flat[0].y, flat[1].y), flat[2].y));
    (sx, smaller(ex, frame.width as int), sy, larger(smaller(ey, frame.height as int) - sy, 0) as nat)
}

/// The frame after a triangle on the screen was drawn: `flat` gives its
/// outline, `tilt` its plane and so the depth of each fragment, `paint` the
/// colour.
pub open spec fn triangle_drawn(frame: Frame, flat: Seq<V3>, tilt: Seq<V3>, paint: Paint) -> Frame {
    let (sx, ex, sy, rows) = scan_bounds(frame, flat);
    if frame.width == 0 {
        frame
    } else {
        rows_drawn(frame, flat, depth_matrix(tilt), paint, sx, ex, sy, rows)
    }
}

/// The position in normalised device coordinates that the transform `mvp`
/// gives the vertex `v`: the row `(x, y, z, 1)` times `mvp`, divided by its
/// fourth cell. There is none where that cell is zero or a quotient is no
/// `i64`.
pub open spec fn projected(v: V3, mvp: Mat) -> Option<V3> {
    let p = row4(v.x, v.y, v.z, 1).product(mvp).cells[0];
    if p[3] == 0 || !divided(p[0], p[1], p[2], p[3]).fits() {
        None
    } else {
        Some(divided(p[0], p[1], p[2], p[3]))
    }
}

/// The row of the vertex `v` can be multiplied with `mvp`.
pub open spec fn transform_fits(v: V3, mvp: Mat) -> bool {
    row4(v.x, v.y, v.z, 1).product_fits(mvp)
}

/// A position in normalised device coordinates is kept: across and upwards
/// it lies within the unit square, and its depth is within [`COORD_LIMIT`].
pub open spec fn on_screen(p: V3) -> bool {
    &&& -UNIT <= p.x <= UNIT
    &&& -UNIT <= p.y <= UNIT
    &&& -COORD_LIMIT <= p.z <= COORD_LIMIT
}

/// The place on the screen of a kept position, with the depth `z`.
pub open spec fn placed(p: V3, width: int, height: int, z: int) -> V3 {
    V3 { x: pixel_of(width, height, p.x, p.y).0, y: pixel_of(width, height, p.x, p.y).1, z: z }
}

/// A triangle of the scene on the screen: its outline at depth zero and the
/// triangle with its depths. There is none if a vertex has no projection or
/// is not kept: then the whole triangle is dropped.
pub open spec fn screen_triangle(tri: Seq<V3>, mvp: Mat, width: int, height: int) -> Option<
    (Seq<V3>, Seq<V3>),
> {
    match (projected(tri[0], mvp), projected(tri[1], mvp), projected(tri[2], mvp)) {
        (Some(a), Some(b), Some(c)) => if on_screen(a) && on_screen(b) && on_screen(c) {
            Some(
                (
                    seq![
                        placed(a, width, height, 0),
                        placed(b, width, height, 0),
                        placed(c, width, height, 0),
                    ],
                    seq![
                        placed(a, width, height, a.z),
                        placed(b, width, height, b.z),
                        placed(c, width, height, c.z),
                    ],
                ),
            )
        } else {
            None
        },
        _ => None,
    }
}

/// The frame after the first `count` triangles of the scene were drawn, in
/// the order of the scene.
pub open spec fn scene_drawn(frame: Frame, scene: Seq<Seq<V3>>, mvp: Mat, count: nat) -> Frame
    decreases count,
{
    if count == 0 {
        frame
    } else {
        let before = scene_drawn(frame, scene, mvp, (count - 1) as nat);
        match screen_triangle(scene[count - 1], mvp, frame.width as int, frame.height as int) {
            Some((flat, tilt)) => triangle_drawn(before, flat, tilt, grey_paint()),
            None => before,
        }
    }
}

/// Every vertex of the scene can be transformed.
pub open spec fn scene_fits(scene: Seq<Seq<V3>>, mvp: Mat) -> bool {
    forall|k: int, i: int|
        0 <= k < scene.len() && 0 <= i < 3 ==> transform_fits(#[trigger] scene[k][i], mvp)
}

/// A frame of the given size that nothing was drawn to.
pub open spec fn blank(width: nat, height: nat) -> Frame {
    Frame {
        width,
        height,
        color: Seq::new(width * height * 4, |k: int| 0u8),
        depth: Seq::new(width * height, |k: int| None::<i64>),
    }
}

/// The triangles of a scene as contracts speak of them.
pub open spec fn scene_of(triangles: Seq<Triangle>) -> Seq<Seq<V3>> {
    Seq::new(triangles.len(), |k: int| triangles[k]@)
}

/// The homogeneous divisor of the vertex `v` under the transform `mvp`: the
/// fourth cell of its row times the transform.
pub open spec fn divisor(v: V3, mvp: Mat) -> int {
    row4(v.x, v.y, v.z, 1).product(mvp).cells[0][3]
}

/// The position that the transform `mvp` gives the vertex `v`, if it has
/// one, and the homogeneous divisor of the vertex.
///
/// Fails with `Overflow` exactly when the row of the vertex cannot be
/// multiplied with the transform.
pub fn project(v: &Pos3, mvp: &Determinant) -> (r: Result<(Option<Pos3>, i128), MatrixError>)
    requires
        mvp.wf(),
        mvp@.rows == 4,
        mvp@.cols == 4,
    ensures
        match r {
            Ok((p, w)) => {
                &&& transform_fits(v@, mvp@)
                &&& w == divisor(v@, mvp@)
                &&& match p {
                    Some(q) => projected(v@, mvp@) == Some(q@),
                    None => projected(v@, mvp@) is None,
                }
            },
            Err(e) => e == MatrixError::Overflow && !transform_fits(v@, mvp@),
        },
{
    let h = v.to_homogeneous();
    proof {
        h.lemma_view();
        crate::determinant::lemma_mat_equal(h@, row4(v@.x, v@.y, v@.z, 1));
    }
    match h.mul(mvp) {
        Ok(p) => {
            proof {
                p.lemma_view();
            }
            let w = p.index(0, 3);
            Ok((Pos3::from_matrix(&p), w))
        },
        Err(_) => Err(MatrixError::Overflow),
    }
}

/// Whether a position in normalised device coordinates is kept.
pub fn is_on_screen(p: &Pos3) -> (r: bool)
    ensures
        r == on_screen(p@),
{
    -UNIT <= p.x && p.x <= UNIT && -UNIT <= p.y && p.y <= UNIT && -COORD_LIMIT <= p.z && p.z
        <= COORD_LIMIT
}

/// A kept position lands within the frame, edges included.
proof fn lemma_placed_in_range(p: V3, width: int, height: int, z: int)
    requires
        on_screen(p),
        0 <= width <= PIXEL_LIMIT,
        0 <= height <= PIXEL_LIMIT,
        -COORD_LIMIT <= z <= COORD_LIMIT,
    ensures
        placed(p, width, height, z).within(COORD_LIMIT as int),
{
    let a = width * (p.x + UNIT);
    let b = height * (UNIT - p.y);
    assert(0 <= a <= 0x4000_0000) by (nonlinear_arith)
        requires
            a == width * (p.x + UNIT),
            0 <= width <= 8192,
            0 <= p.x + UNIT <= 0x2_0000,
    ;
    assert(0 <= b <= 0x4000_0000) by (nonlinear_arith)
        requires
            b == height * (UNIT - p.y),
            0 <= height <= 8192,
            0 <= UNIT - p.y <= 0x2_0000,
    ;
    crate::fixed::lemma_floor_quotient_bounds(a, 2);
    crate::fixed::lemma_floor_quotient_bounds(b, 2);
}

/// A triangle of the scene on the screen of `out`: its outline at depth
/// zero, and the triangle with its depths. There is none if the triangle is
/// dropped.
///
/// Fails with `Overflow` exactly when one of the three vertices cannot be
/// transformed.
pub fn to_screen(out: &OutputBuffer, tri: &Triangle, mvp: &Determinant) -> (r: Result<
    Option<(Triangle, Triangle)>,
    MatrixError,
>)
    requires
        tri@.len() == 3,
        mvp.wf(),
        mvp@.rows == 4,
        mvp@.cols == 4,
        out@.width <= PIXEL_LIMIT,
        out@.height <= PIXEL_LIMIT,
    ensures
        match r {
            Ok(s) => {
                &&& transform_fits(tri@[0], mvp@)
                &&& transform_fits(tri@[1], mvp@)
                &&& transform_fits(tri@[2], mvp@)
                &&& match s {
                    Some((flat, tilt)) => {
                        &&& flat.wf()
                        &&& tilt.wf()
                        &&& screen_triangle(tri@, mvp@, out@.width as int, out@.height as int)
                            == Some((flat@, tilt@))
                    },
                    None => screen_triangle(tri@, mvp@, out@.width as int, out@.height as int)
                        is None,
                }
            },
            Err(e) => {
                &&& e == MatrixError::Overflow
                &&& !transform_fits(tri@[0], mvp@) || !transform_fits(tri@[1], mvp@)
                    || !transform_fits(tri@[2], mvp@)
            },
        },
{
    let (a, _) = project(&tri.vertex(0), mvp)?;
    let (b, _) = project(&tri.vertex(1), mvp)?;
    let (c, _) = project(&tri.vertex(2), mvp)?;
    match (a, b, c) {
        (Some(a), Some(b), Some(c)) => {
            if !is_on_screen(&a) || !is_on_screen(&b) || !is_on_screen(&c) {
                return Ok(None);
            }
            proof {
                let w = out@.width as int;
                let h = out@.height as int;
                lemma_placed_in_range(a@, w, h, 0);
                lemma_placed_in_range(b@, w, h, 0);
                lemma_placed_in_range(c@, w, h, 0);
                lemma_placed_in_range(a@, w, h, a@.z);
                lemma_placed_in_range(b@, w, h, b@.z);
                lemma_placed_in_range(c@, w, h, c@.z);
            }
            let flat = Triangle::new(
                out.pos_to_pixel_pos(&a),
                out.pos_to_pixel_pos(&b),
                out.pos_to_pixel_pos(&c),
            );
            let tilt = Triangle::new(
                out.pos_to_pixel_pos_with_z(&a),
                out.pos_to_pixel_pos_with_z(&b),
                out.pos_to_pixel_pos_with_z(&c),
            );
            proof {
                let w = out@.width as int;
                let h = out@.height as int;
                assert(flat@ =~= seq![placed(a@, w, h, 0), placed(b@, w, h, 0), placed(c@, w, h, 0)]);
                assert(tilt@ =~= seq![
                    placed(a@, w, h, a@.z),
                    placed(b@, w, h, b@.z),
                    placed(c@, w, h, c@.z),
                ]);
            }
            Ok(Some((flat, tilt)))
        },
        _ => Ok(None),
    }
}

/// A position on the screen is kept: it lies within the frame, edges
/// included, and its depth is within [`COORD_LIMIT`].
pub open spec fn in_view(p: V3, width: int, height: int) -> bool {
    &&& 0 <= p.x <= width * UNIT
    &&& 0 <= p.y <= height * UNIT
    &&& -COORD_LIMIT <= p.z <= COORD_LIMIT
}

/// A triangle of a textured scene on the screen, for a transform that ends
/// on the screen: its outline at depth zero, the triangle with its depths,
/// and the corrections of its vertices. There is none if a vertex has no
/// position or is not kept: then the whole triangle is dropped.
pub open spec fn pixel_triangle(tri: Seq<V3>, mvp: Mat, width: int, height: int) -> Option<
    (Seq<V3>, Seq<V3>, (int, int, int)),
> {
    match (projected(tri[0], mvp), projected(tri[1], mvp), projected(tri[2], mvp)) {
        (Some(a), Some(b), Some(c)) => if in_view(a, width, height) && in_view(b, width, height)
            && in_view(c, width, height) {
            Some(
                (
                    seq![
                        V3 { x: a.x, y: a.y, z: 0 },
                        V3 { x: b.x, y: b.y, z: 0 },
                        V3 { x: c.x, y: c.y, z: 0 },
                    ],
                    seq![a, b, c],
                    correction((divisor(tri[0], mvp), divisor(tri[1], mvp), divisor(tri[2], mvp))),
                ),
            )
        } else {
            None
        },
        _ => None,
    }
}

/// The triangles of a textured scene as contracts speak of them: the
/// vertices and the texture coordinates of each.
pub open spec fn textured_scene_of(triangles: Seq<TexturedTriangle>) -> Seq<
    (Seq<V3>, Seq<(int, int)>),
> {
    Seq::new(triangles.len(), |k: int| (triangles[k].vertices(), triangles[k].coordinates()))
}

/// Every vertex of the textured scene can be transformed.
pub open spec fn textured_scene_fits(scene: Seq<(Seq<V3>, Seq<(int, int)>)>, mvp: Mat) -> bool {
    forall|k: int, i: int|
        0 <= k < scene.len() && 0 <= i < 3 ==> transform_fits(#[trigger] scene[k].0[i], mvp)
}

/// The frame after the first `count` triangles of the textured scene were
/// drawn, in the order of the scene, each fragment in the colour of the texel
/// under it.
pub open spec fn textured_scene_drawn(
    frame: Frame,
    scene: Seq<(Seq<V3>, Seq<(int, int)>)>,
    mvp: Mat,
    image: Image,
    count: nat,
) -> Frame
    decreases count,
{
    if count == 0 {
        frame
    } else {
        let before = textured_scene_drawn(frame, scene, mvp, image, (count - 1) as nat);
        match pixel_triangle(scene[count - 1].0, mvp, frame.width as int, frame.height as int) {
            Some((flat, tilt, corrections)) => triangle_drawn(
                before,
                flat,
                tilt,
                texture_paint(
                    flat,
                    corrections,
                    scene[count - 1].1,
                    image.texels,
                    image.width,
                    image.height,
                ),
            ),
            None => before,
        }
    }
}

/// Whether a position on the screen is kept.
pub fn is_in_view(p: &Pos3, width: u32, height: u32) -> (r: bool)
    requires
        width <= PIXEL_LIMIT,
        height <= PIXEL_LIMIT,
    ensures
        r == in_view(p@, width as int, height as int),
        r ==> p@.within(COORD_LIMIT as int),
{
    assert(width * UNIT <= COORD_LIMIT && height * UNIT <= COORD_LIMIT) by (nonlinear_arith)
        requires
            0 <= width <= 8192,
            0 <= height <= 8192,
            UNIT == 65536,
            COORD_LIMIT == 0x2000_0000,
    ;
    0 <= p.x && p.x <= (width as i64) * UNIT && 0 <= p.y && p.y <= (height as i64) * UNIT
        && -COORD_LIMIT <= p.z && p.z <= COORD_LIMIT
}

/// A triangle of a textured scene on the screen of `out`, for a transform
/// that ends on the screen: its outline at depth zero, the triangle with its
/// depths, and the corrections of its vertices. There is none if the
/// triangle is dropped.
///
/// Fails with `Overflow` exactly when one of the three vertices cannot be
/// transformed.
pub fn to_screen_pixels(out: &OutputBuffer, tri: &TexturedTriangle, mvp: &Determinant) -> (r:
    Result<Option<(Triangle, Triangle, (i128, i128, i128))>, MatrixError>)
    requires
        mvp.wf(),
        mvp@.rows == 4,
        mvp@.cols == 4,
        out@.width <= PIXEL_LIMIT,
        out@.height <= PIXEL_LIMIT,
    ensures
        match r {
            Ok(s) => {
                &&& transform_fits(tri.vertices()[0], mvp@)
                &&& transform_fits(tri.vertices()[1], mvp@)
                &&& transform_fits(tri.vertices()[2], mvp@)
                &&& match s {
                    Some((flat, tilt, c)) => {
                        &&& flat.wf()
                        &&& tilt.wf()
                        &&& crate::shader::corrections_in_range(
                            (c.0 as int, c.1 as int, c.2 as int),
                        )
                        &&& pixel_triangle(
                            tri.vertices(),
                            mvp@,
                            out@.width as int,
                            out@.height as int,
                        ) == Some((flat@, tilt@, (c.0 as int, c.1 as int, c.2 as int)))
                    },
                    None => pixel_triangle(
                        tri.vertices(),
                        mvp@,
                        out@.width as int,
                        out@.height as int,
                    ) is None,
                }
            },
            Err(e) => {
                &&& e == MatrixError::Overflow
                &&& !transform_fits(tri.vertices()[0], mvp@) || !transform_fits(
                    tri.vertices()[1],
                    mvp@,
                ) || !transform_fits(tri.vertices()[2], mvp@)
            },
        },
{
    let (a, wa) = project(&tri.v[0], mvp)?;
    let (b, wb) = project(&tri.v[1], mvp)?;
    let (c, wc) = project(&tri.v[2], mvp)?;
    match (a, b, c) {
        (Some(a), Some(b), Some(c)) => {
            let width = out.width();
            let height = out.height();
            if !is_in_view(&a, width, height) || !is_in_view(&b, width, height) || !is_in_view(
                &c,
                width,
                height,
            ) {
                return Ok(None);
            }
            let flat = Triangle::new(
                Pos3::from_xyz(a.x(), a.y(), 0),
                Pos3::from_xyz(b.x(), b.y(), 0),
                Pos3::from_xyz(c.x(), c.y(), 0),
            );
            let tilt = Triangle::new(a, b, c);
            Ok(Some((flat, tilt, correct((wa, wb, wc)))))
        },
        _ => Ok(None),
    }
}

/// The grey of a depth.
pub fn shade_of(depth: i64) -> (c: u8)
    ensures
        c == shade(depth as int),
{
    let v = div_floor(255 * ((depth as i128) + (UNIT as i128)), 2 * (UNIT as i128));
    if v < 0 {
        0
    } else if v > 255 {
        255
    } else {
        v as u8
    }
}

/// The depth that the matrix `dm` gives above the grid position `(x, y)`.
pub fn depth_under(dm: &Determinant, x: i64, y: i64) -> (r: Option<i64>)
    requires
        dm.wf(),
        dm@.rows == 4,
        dm@.cols == 2,
    ensures
        r == depth_reading(dm@, x as int, y as int),
{
    let pos = Pos3::from_xyz(x, y, 0);
    let h = pos.to_homogeneous();
    proof {
        h.lemma_view();
        crate::determinant::lemma_mat_equal(h@, row4(x as int, y as int, 0, 1));
    }
    match h.mul(dm) {
        Ok(p) => {
            let den = p.index(0, 1);
            if den == 0 {
                None
            } else {
                quotient_i64(p.index(0, 0), den)
            }
        },
        Err(_) => None,
    }
}

/// Lets the fragments of the pixels `l` to `r` of row `j` arrive, from left
/// to right, each in the colour that the shader gives it.
pub fn draw_span(
    out: &mut OutputBuffer,
    dm: &Determinant,
    shader: &Shader,
    j: u32,
    l: u32,
    r: u32,
)
    requires
        old(out).wf(),
        shader.wf(),
        dm.wf(),
        dm@.rows == 4,
        dm@.cols == 2,
        l <= r < old(out)@.width,
        j < old(out)@.height,
        old(out)@.width <= PIXEL_LIMIT,
        old(out)@.height <= PIXEL_LIMIT,
    ensures
        final(out).wf(),
        final(out).for_terminal() == old(out).for_terminal(),
        final(out)@ == span_drawn(
            old(out)@,
            dm@,
            shader.paint(),
            j as int,
            l as int,
            (r - l + 1) as nat,
        ),
        final(out)@.width == old(out)@.width,
        final(out)@.height == old(out)@.height,
{
    let y: i64 = centre_of(j);
    let mut i: u32 = l;
    while i <= r
        invariant
            out.wf(),
            out.for_terminal() == old(out).for_terminal(),
            shader.wf(),
            dm.wf(),
            dm@.rows == 4,
            dm@.cols == 2,
            l <= i <= r + 1,
            r < out@.width,
            j < out@.height,
            out@.width == old(out)@.width,
            out@.height == old(out)@.height,
            out@.width <= PIXEL_LIMIT,
            out@.height <= PIXEL_LIMIT,
            y == pixel_centre(j as int),
            out@ == span_drawn(
                old(out)@,
                dm@,
                shader.paint(),
                j as int,
                l as int,
                (i - l) as nat,
            ),
        decreases r + 1 - i,
    {
        let x: i64 = centre_of(i);
        if let Some(depth) = depth_under(dm, x, y) {
            let rgba = shader.colour(i, j, depth);
            out.plot(i, j, depth, rgba.as_slice());
        }
        i += 1;
    }
}

/// Draws a triangle on the screen: every row of its bounding box within the
/// frame gets the span that `flat` covers, as far as it lies within the
/// frame, each fragment with the depth of the plane of `tilt` and the colour
/// that the shader gives it.
pub fn draw_triangle(out: &mut OutputBuffer, flat: &Triangle, tilt: &Triangle, shader: &Shader)
    requires
        old(out).wf(),
        shader.wf(),
        flat.wf(),
        tilt.wf(),
        old(out)@.width <= FRAME_LIMIT,
        old(out)@.height <= FRAME_LIMIT,
    ensures
        final(out).wf(),
        final(out).for_terminal() == old(out).for_terminal(),
        final(out)@ == triangle_drawn(old(out)@, flat@, tilt@, shader.paint()),
        final(out)@.width == old(out)@.width,
        final(out)@.height == old(out)@.height,
{
    let (sx, ex, sy, ey) = flat.get_edge();
    let dm = tilt.get_depth_matrix();
    if out.width() == 0 {
        return ;
    }
    let last = out.width() - 1;
    let ex = if ex < out.width() {
        ex
    } else {
        out.width()
    };
    let ey = if ey < out.height() {
        ey
    } else {
        out.height()
    };
    let mut j: u32 = sy;
    while j < ey
        invariant
            out.wf(),
            out.for_terminal() == old(out).for_terminal(),
            shader.wf(),
            flat.wf(),
            dm.wf(),
            dm@ == depth_matrix(tilt@),
            out@.width == old(out)@.width,
            out@.height == old(out)@.height,
            out@.width <= FRAME_LIMIT,
            out@.height <= FRAME_LIMIT,
            last == out@.width - 1,
            ex <= out@.width,
            ey <= out@.height,
            scan_bounds(old(out)@, flat@) == (
                sx as int,
                ex as int,
                sy as int,
                larger(ey - sy, 0) as nat,
            ),
            sy <= j,
            sy < ey ==> j <= ey,
            sy >= ey ==> j == sy,
            out@ == rows_drawn(
                old(out)@,
                flat@,
                dm@,
                shader.paint(),
                sx as int,
                ex as int,
                sy as int,
                (j - sy) as nat,
            ),
        decreases ey - j,
    {
        let y: i64 = centre_of(j);
        if let Some((l, r)) = flat.get_horizon_edge(y, sx, ex) {
            if l <= last {
                let r = if r < last {
                    r
                } else {
                    last
                };
                draw_span(out, &dm, shader, j, l, r);
            }
        }
        j += 1;
    }
}

} // verus!
