//! Laws of the renderer: what drawing does to a single pixel, and why the
//! order of drawing does not show.

use crate::determinant::Mat;
use crate::fixed::pixel_centre;
use crate::output_buffer::Frame;
use crate::output_buffer::in_front;
use crate::output_buffer_laws::in_frame;
use crate::output_buffer_laws::lemma_cell;
use crate::output_buffer_laws::lemma_cells_differ;
use crate::raster::depth_reading;
use crate::raster::fragment_drawn;
use crate::raster::grey_paint;
use crate::raster::Paint;
use crate::raster::pixel_triangle;
use crate::raster::rows_drawn;
use crate::raster::scan_bounds;
use crate::raster::scene_drawn;
use crate::raster::screen_triangle;
use crate::raster::span_drawn;
use crate::raster::textured_scene_drawn;
use crate::raster::triangle_drawn;
use crate::raster_laws::law_depth_never_recedes;
use crate::raster_laws::law_textured_depth_never_recedes;
use crate::raster_laws::lemma_span_within;
use crate::shader::texture_paint;
use crate::texture::Image;
use crate::triangle::depth_matrix;
use crate::triangle::larger;
use crate::triangle::smaller;
use crate::triangle::span_of;
use crate::vector::V3;
use vstd::prelude::*;

verus! {

/// What a pixel holds: a depth, if anything was drawn to it, and four bytes
/// of colour.
pub struct Held {
    pub depth: Option<i64>,
    pub colour: Seq<u8>,
}

/// What pixel `(x, y)` of a frame holds.
pub open spec fn held(f: Frame, x: int, y: int) -> Held {
    Held { depth: f.depth_at(x, y), colour: f.pixel(x, y) }
}

/// The first four bytes of a colour.
pub open spec fn first_four(rgba: Seq<u8>) -> Seq<u8> {
    Seq::new(4, |k: int| rgba[k])
}

/// What a pixel holds after a fragment arrived, if one did: the fragment, if
/// it lies in front of what the pixel held, and what it held otherwise.
pub open spec fn taken(h: Held, arriving: Option<(i64, Seq<u8>)>) -> Held {
    match arriving {
        Some((d, rgba)) => if in_front(d, h.depth) {
            Held { depth: Some(d), colour: first_four(rgba) }
        } else {
            h
        },
        None => h,
    }
}

/// The fragment of pixel `(i, j)` under the depth matrix `dm`: its depth
/// above the centre of the pixel and its colour, if there is a depth.
pub open spec fn arriving(dm: Mat, paint: Paint, i: int, j: int) -> Option<(i64, Seq<u8>)> {
    match depth_reading(dm, pixel_centre(i), pixel_centre(j)) {
        Some(d) => Some((d, paint(i, j, d))),
        None => None,
    }
}

/// Pixel `(x, y)` lies in one of the `count` rows from `sy` on, within the
/// span of its row.
pub open spec fn in_rows(
    flat: Seq<V3>,
    sx: int,
    ex: int,
    sy: int,
    count: nat,
    x: int,
    y: int,
) -> bool {
    &&& sy <= y < sy + count
    &&& span_of(flat, pixel_centre(y), sx, ex) matches Some((l, r)) && l <= x <= r
}

/// The number of pixels of the span from `l` to `r` that lie in a frame of
/// the given width.
pub open spec fn within_frame(l: int, r: int, width: int) -> nat {
    larger(smaller(r, width - 1) - l + 1, 0) as nat
}

/// The fragment that a triangle on a screen of the given size sends to pixel
/// `(x, y)`: none if the scan of the triangle does not reach the pixel, or
/// if there is no depth above it.
pub open spec fn sent(
    frame: Frame,
    flat: Seq<V3>,
    tilt: Seq<V3>,
    paint: Paint,
    x: int,
    y: int,
) -> Option<(i64, Seq<u8>)> {
    let (sx, ex, sy, rows) = scan_bounds(frame, flat);
    if frame.width > 0 && in_rows(flat, sx, ex, sy, rows, x, y) {
        arriving(depth_matrix(tilt), paint, x, y)
    } else {
        None
    }
}

/// Two well-formed frames of one size that hold the same at every pixel are
/// the same frame.
pub proof fn lemma_frames_equal(g: Frame, f: Frame)
    requires
        g.wf(),
        f.wf(),
        g.width == f.width,
        g.height == f.height,
        forall|x: int, y: int| in_frame(f, x, y) ==> #[trigger] held(g, x, y) == held(f, x, y),
    ensures
        g == f,
{
    let w = f.width as int;
    let h = f.height as int;
    assert forall|c: int| 0 <= c < f.depth.len() implies g.depth[c] == f.depth[c] by {
        lemma_place(c, w, h);
        let x = c % w;
        let y = c / w;
        assert(held(g, x, y) == held(f, x, y));
        assert(f.cell(x, y) == c && g.cell(x, y) == c);
    }
    assert(g.depth =~= f.depth);
    assert forall|k: int| 0 <= k < f.color.len() implies g.color[k] == f.color[k] by {
        let c = k / 4;
        let b = k % 4;
        assert(0 <= c < w * h);
        lemma_place(c, w, h);
        let x = c % w;
        let y = c / w;
        assert(held(g, x, y) == held(f, x, y));
        assert(f.cell(x, y) == c && g.cell(x, y) == c);
        assert(f.pixel(x, y)[b] == f.color[c * 4 + b]);
        assert(g.pixel(x, y)[b] == g.color[c * 4 + b]);
    }
    assert(g.color =~= f.color);
}

/// A place among the pixels is the place of a pixel of the frame.
proof fn lemma_place(c: int, w: int, h: int)
    requires
        0 <= w,
        0 <= h,
        0 <= c < w * h,
    ensures
        w > 0,
        0 <= c % w < w,
        0 <= c / w < h,
        (c / w) * w + c % w == c,
{
    if w == 0 {
        assert(w * h == 0) by (nonlinear_arith)
            requires
                w == 0,
        ;
    }
    vstd::arithmetic::div_mod::lemma_fundamental_div_mod(c, w);
    vstd::arithmetic::div_mod::lemma_mod_bound(c, w);
    vstd::arithmetic::div_mod::lemma_div_pos_is_pos(c, w);
    let q = c / w;
    assert(w * q == q * w) by (nonlinear_arith);
    if q >= h {
        assert(q * w >= w * h) by (nonlinear_arith)
            requires
                q >= h,
                w > 0,
        ;
    }
}

/// A fragment changes the pixel that it arrives at, and no other.
pub proof fn lemma_plot_pixel_by_pixel(f: Frame, x: int, y: int, d: i64, rgba: Seq<u8>)
    requires
        f.wf(),
        in_frame(f, x, y),
    ensures
        f.plotted(x, y, d, rgba).wf(),
        f.plotted(x, y, d, rgba).width == f.width,
        f.plotted(x, y, d, rgba).height == f.height,
        held(f.plotted(x, y, d, rgba), x, y) == taken(held(f, x, y), Some((d, rgba))),
        forall|x2: int, y2: int|
            in_frame(f, x2, y2) && (x2 != x || y2 != y) ==> #[trigger] held(
                f.plotted(x, y, d, rgba),
                x2,
                y2,
            ) == held(f, x2, y2),
{
    let g = f.plotted(x, y, d, rgba);
    lemma_cell(f, x, y);
    assert forall|x2: int, y2: int| in_frame(f, x2, y2) && (x2 != x || y2 != y) implies #[trigger] held(
        g,
        x2,
        y2,
    ) == held(f, x2, y2) by {
        lemma_cell(f, x2, y2);
        lemma_cells_differ(f, x, y, x2, y2);
        assert(g.pixel(x2, y2) =~= f.pixel(x2, y2));
    }
    if in_front(d, f.depth_at(x, y)) {
        assert(g.pixel(x, y) =~= first_four(rgba));
    }
}

proof fn lemma_fragment_pixel_by_pixel(f: Frame, dm: Mat, paint: Paint, i: int, j: int)
    requires
        f.wf(),
        in_frame(f, i, j),
    ensures
        fragment_drawn(f, dm, paint, i, j).wf(),
        fragment_drawn(f, dm, paint, i, j).width == f.width,
        fragment_drawn(f, dm, paint, i, j).height == f.height,
        held(fragment_drawn(f, dm, paint, i, j), i, j) == taken(
            held(f, i, j),
            arriving(dm, paint, i, j),
        ),
        forall|x: int, y: int|
            in_frame(f, x, y) && (x != i || y != j) ==> #[trigger] held(
                fragment_drawn(f, dm, paint, i, j),
                x,
                y,
            ) == held(f, x, y),
{
    match depth_reading(dm, pixel_centre(i), pixel_centre(j)) {
        Some(d) => {
            lemma_plot_pixel_by_pixel(f, i, j, d, paint(i, j, d));
        },
        None => {},
    }
}

proof fn lemma_span_pixel_by_pixel(f: Frame, dm: Mat, paint: Paint, j: int, l: int, count: nat)
    requires
        f.wf(),
        0 <= l,
        count > 0 ==> l + count <= f.width,
        0 <= j < f.height,
    ensures
        span_drawn(f, dm, paint, j, l, count).wf(),
        span_drawn(f, dm, paint, j, l, count).width == f.width,
        span_drawn(f, dm, paint, j, l, count).height == f.height,
        forall|x: int, y: int|
            in_frame(f, x, y) ==> #[trigger] held(span_drawn(f, dm, paint, j, l, count), x, y) == (
            if y == j && l <= x < l + count {
                taken(held(f, x, y), arriving(dm, paint, x, y))
            } else {
                held(f, x, y)
            }),
    decreases count,
{
    if count > 0 {
        let before = span_drawn(f, dm, paint, j, l, (count - 1) as nat);
        let after = span_drawn(f, dm, paint, j, l, count);
        lemma_span_pixel_by_pixel(f, dm, paint, j, l, (count - 1) as nat);
        lemma_fragment_pixel_by_pixel(before, dm, paint, l + count - 1, j);
        assert forall|x: int, y: int| in_frame(f, x, y) implies #[trigger] held(after, x, y) == (if y
            == j && l <= x < l + count {
            taken(held(f, x, y), arriving(dm, paint, x, y))
        } else {
            held(f, x, y)
        }) by {
            assert(in_frame(before, x, y));
            assert(held(before, x, y) == (if y == j && l <= x < l + count - 1 {
                taken(held(f, x, y), arriving(dm, paint, x, y))
            } else {
                held(f, x, y)
            }));
        }
    }
}

proof fn lemma_rows_pixel_by_pixel(
    f: Frame,
    flat: Seq<V3>,
    dm: Mat,
    paint: Paint,
    sx: int,
    ex: int,
    sy: int,
    count: nat,
)
    requires
        f.wf(),
        0 <= sx,
        0 <= sy,
        count > 0 ==> sy + count <= f.height,
    ensures
        rows_drawn(f, flat, dm, paint, sx, ex, sy, count).wf(),
        rows_drawn(f, flat, dm, paint, sx, ex, sy, count).width == f.width,
        rows_drawn(f, flat, dm, paint, sx, ex, sy, count).height == f.height,
        forall|x: int, y: int|
            in_frame(f, x, y) ==> #[trigger] held(
                rows_drawn(f, flat, dm, paint, sx, ex, sy, count),
                x,
                y,
            ) == (if in_rows(flat, sx, ex, sy, count, x, y) {
                taken(held(f, x, y), arriving(dm, paint, x, y))
            } else {
                held(f, x, y)
            }),
    decreases count,
{
    if count > 0 {
        let before = rows_drawn(f, flat, dm, paint, sx, ex, sy, (count - 1) as nat);
        let after = rows_drawn(f, flat, dm, paint, sx, ex, sy, count);
        lemma_rows_pixel_by_pixel(f, flat, dm, paint, sx, ex, sy, (count - 1) as nat);
        let j = sy + count - 1;
        lemma_span_within(flat, pixel_centre(j), sx, ex);
        match span_of(flat, pixel_centre(j), sx, ex) {
            Some((l, r)) => {
                lemma_span_pixel_by_pixel(before, dm, paint, j, l, within_frame(l, r, f.width as int));
            },
            None => {},
        }
        assert forall|x: int, y: int| in_frame(f, x, y) implies #[trigger] held(after, x, y) == (
        if in_rows(flat, sx, ex, sy, count, x, y) {
            taken(held(f, x, y), arriving(dm, paint, x, y))
        } else {
            held(f, x, y)
        }) by {
            assert(in_frame(before, x, y));
            assert(held(before, x, y) == (if in_rows(flat, sx, ex, sy, (count - 1) as nat, x, y) {
                taken(held(f, x, y), arriving(dm, paint, x, y))
            } else {
                held(f, x, y)
            }));
        }
    }
}

/// What drawing a triangle does to a pixel: the pixel takes the fragment
/// that the triangle sends it, if that lies in front of what the pixel held,
/// and holds what it held otherwise. What the triangle sends does not depend
/// on what the frame holds.
pub proof fn law_triangle_pixel_by_pixel(f: Frame, flat: Seq<V3>, tilt: Seq<V3>, paint: Paint)
    requires
        f.wf(),
    ensures
        triangle_drawn(f, flat, tilt, paint).wf(),
        triangle_drawn(f, flat, tilt, paint).width == f.width,
        triangle_drawn(f, flat, tilt, paint).height == f.height,
        forall|x: int, y: int|
            in_frame(f, x, y) ==> #[trigger] held(triangle_drawn(f, flat, tilt, paint), x, y)
                == taken(held(f, x, y), sent(f, flat, tilt, paint, x, y)),
        forall|g: Frame, x: int, y: int|
            g.width == f.width && g.height == f.height ==> #[trigger] sent(
                g,
                flat,
                tilt,
                paint,
                x,
                y,
            ) == sent(f, flat, tilt, paint, x, y),
{
    let (sx, ex, sy, rows) = scan_bounds(f, flat);
    if f.width > 0 {
        lemma_rows_pixel_by_pixel(f, flat, depth_matrix(tilt), paint, sx, ex, sy, rows);
    }
}

/// No pixel outside a triangle is written: a triangle in the plane of the
/// screen sends a fragment only to pixels whose centres it contains, and
/// every other pixel holds after the drawing what it held before.
pub proof fn law_fragments_lie_in_the_triangle(
    f: Frame,
    flat: Seq<V3>,
    tilt: Seq<V3>,
    paint: Paint,
    x: int,
    y: int,
)
    requires
        f.wf(),
        in_frame(f, x, y),
        crate::triangle_laws::is_flat(flat),
    ensures
        sent(f, flat, tilt, paint, x, y) is Some ==> crate::triangle::covers(
            flat,
            pixel_centre(y),
            x,
        ),
        !crate::triangle::covers(flat, pixel_centre(y), x) ==> held(
            triangle_drawn(f, flat, tilt, paint),
            x,
            y,
        ) == held(f, x, y),
{
    law_triangle_pixel_by_pixel(f, flat, tilt, paint);
    let (sx, ex, sy, rows) = scan_bounds(f, flat);
    if sent(f, flat, tilt, paint, x, y) is Some {
        crate::triangle_laws::law_span_is_covered(flat, pixel_centre(y), sx, ex, x);
    }
}

/// Two fragments for one pixel clash: both are there, and at the same depth.
pub open spec fn clash(a: Option<(i64, Seq<u8>)>, b: Option<(i64, Seq<u8>)>) -> bool {
    a matches Some(p) && b matches Some(q) && p.0 == q.0
}

/// Two triangles can be drawn in either order: where they send no pixel two
/// fragments of the same depth, the two orders leave the same frame.
pub proof fn law_order_of_triangles(
    f: Frame,
    flat_a: Seq<V3>,
    tilt_a: Seq<V3>,
    paint_a: Paint,
    flat_b: Seq<V3>,
    tilt_b: Seq<V3>,
    paint_b: Paint,
)
    requires
        f.wf(),
        forall|x: int, y: int|
            in_frame(f, x, y) ==> !clash(
                #[trigger] sent(f, flat_a, tilt_a, paint_a, x, y),
                sent(f, flat_b, tilt_b, paint_b, x, y),
            ),
    ensures
        triangle_drawn(triangle_drawn(f, flat_a, tilt_a, paint_a), flat_b, tilt_b, paint_b)
            == triangle_drawn(triangle_drawn(f, flat_b, tilt_b, paint_b), flat_a, tilt_a, paint_a),
{
    let fa = triangle_drawn(f, flat_a, tilt_a, paint_a);
    let fb = triangle_drawn(f, flat_b, tilt_b, paint_b);
    let fab = triangle_drawn(fa, flat_b, tilt_b, paint_b);
    let fba = triangle_drawn(fb, flat_a, tilt_a, paint_a);
    law_triangle_pixel_by_pixel(f, flat_a, tilt_a, paint_a);
    law_triangle_pixel_by_pixel(f, flat_b, tilt_b, paint_b);
    law_triangle_pixel_by_pixel(fa, flat_b, tilt_b, paint_b);
    law_triangle_pixel_by_pixel(fb, flat_a, tilt_a, paint_a);
    assert forall|x: int, y: int| in_frame(fba, x, y) implies #[trigger] held(fab, x, y) == held(
        fba,
        x,
        y,
    ) by {
        let a = sent(f, flat_a, tilt_a, paint_a, x, y);
        let b = sent(f, flat_b, tilt_b, paint_b, x, y);
        assert(in_frame(f, x, y) && in_frame(fa, x, y) && in_frame(fb, x, y));
        assert(sent(fa, flat_b, tilt_b, paint_b, x, y) == b);
        assert(sent(fb, flat_a, tilt_a, paint_a, x, y) == a);
        assert(held(fa, x, y) == taken(held(f, x, y), a));
        assert(held(fb, x, y) == taken(held(f, x, y), b));
        assert(held(fab, x, y) == taken(held(fa, x, y), b));
        assert(held(fba, x, y) == taken(held(fb, x, y), a));
        assert(!clash(a, b));
    }
    lemma_frames_equal(fab, fba);
}

/// A farther triangle drawn later overwrites nothing: where a second
/// triangle sends fragments only to pixels that the first sends fragments
/// to, and none of them nearer than the fragment of the first, the frame
/// after both is the frame after the first alone, colours and depths.
pub proof fn law_farther_triangle_changes_nothing(
    f: Frame,
    flat_a: Seq<V3>,
    tilt_a: Seq<V3>,
    paint_a: Paint,
    flat_b: Seq<V3>,
    tilt_b: Seq<V3>,
    paint_b: Paint,
)
    requires
        f.wf(),
        forall|x: int, y: int|
            in_frame(f, x, y) ==> (#[trigger] sent(f, flat_b, tilt_b, paint_b, x, y) matches Some(
                q,
            ) ==> (sent(f, flat_a, tilt_a, paint_a, x, y) matches Some(p) && q.0 <= p.0)),
    ensures
        triangle_drawn(triangle_drawn(f, flat_a, tilt_a, paint_a), flat_b, tilt_b, paint_b)
            == triangle_drawn(f, flat_a, tilt_a, paint_a),
{
    let fa = triangle_drawn(f, flat_a, tilt_a, paint_a);
    let fab = triangle_drawn(fa, flat_b, tilt_b, paint_b);
    law_triangle_pixel_by_pixel(f, flat_a, tilt_a, paint_a);
    law_triangle_pixel_by_pixel(f, flat_b, tilt_b, paint_b);
    law_triangle_pixel_by_pixel(fa, flat_b, tilt_b, paint_b);
    assert forall|x: int, y: int| in_frame(fa, x, y) implies #[trigger] held(fab, x, y) == held(
        fa,
        x,
        y,
    ) by {
        let a = sent(f, flat_a, tilt_a, paint_a, x, y);
        let b = sent(f, flat_b, tilt_b, paint_b, x, y);
        assert(in_frame(f, x, y));
        assert(sent(fa, flat_b, tilt_b, paint_b, x, y) == b);
        assert(held(fa, x, y) == taken(held(f, x, y), a));
        assert(held(fab, x, y) == taken(held(fa, x, y), b));
    }
    lemma_frames_equal(fab, fa);
}

/// The sequence with the entries at `k` and `k + 1` exchanged.
pub open spec fn exchanged<A>(s: Seq<A>, k: int) -> Seq<A> {
    s.update(k, s[k + 1]).update(k + 1, s[k])
}

/// Two triangles of a scene clash on the screen of a frame: both are drawn,
/// and they send some pixel two fragments of the same depth.
pub open spec fn triangles_clash(f: Frame, a: Seq<V3>, b: Seq<V3>, mvp: Mat) -> bool {
    match (
        screen_triangle(a, mvp, f.width as int, f.height as int),
        screen_triangle(b, mvp, f.width as int, f.height as int),
    ) {
        (Some((flat_a, tilt_a)), Some((flat_b, tilt_b))) => exists|x: int, y: int|
            in_frame(f, x, y) && clash(
                #[trigger] sent(f, flat_a, tilt_a, grey_paint(), x, y),
                sent(f, flat_b, tilt_b, grey_paint(), x, y),
            ),
        _ => false,
    }
}

/// What was drawn after the first `count` triangles depends on these
/// triangles only.
proof fn lemma_scene_prefix(
    f: Frame,
    scene: Seq<Seq<V3>>,
    other: Seq<Seq<V3>>,
    mvp: Mat,
    count: nat,
)
    requires
        forall|k: int| 0 <= k < count ==> scene[k] == other[k],
    ensures
        scene_drawn(f, scene, mvp, count) == scene_drawn(f, other, mvp, count),
    decreases count,
{
    if count > 0 {
        lemma_scene_prefix(f, scene, other, mvp, (count - 1) as nat);
    }
}

/// The order of a scene does not show: where two neighbours in the scene do
/// not clash, the scene with the two exchanged gives the same frame, from the
/// second of them on.
pub proof fn law_order_of_scene(f: Frame, scene: Seq<Seq<V3>>, mvp: Mat, k: int, count: nat)
    requires
        f.wf(),
        0 <= k,
        k + 2 <= count <= scene.len(),
        !triangles_clash(f, scene[k], scene[k + 1], mvp),
    ensures
        scene_drawn(f, exchanged(scene, k), mvp, count) == scene_drawn(f, scene, mvp, count),
    decreases count,
{
    let other = exchanged(scene, k);
    if count > k + 2 {
        law_order_of_scene(f, scene, mvp, k, (count - 1) as nat);
        assert(other[count - 1] == scene[count - 1]);
    } else {
        let start = scene_drawn(f, scene, mvp, k as nat);
        lemma_scene_prefix(f, other, scene, mvp, k as nat);
        law_depth_never_recedes(f, scene, mvp, k as nat);
        let w = f.width as int;
        let h = f.height as int;
        let a = scene[k];
        let b = scene[k + 1];
        assert(other[k] == b && other[k + 1] == a);
        // the scene draws a, then b; the other b, then a
        let one = scene_drawn(f, scene, mvp, (k + 1) as nat);
        let other_one = scene_drawn(f, other, mvp, (k + 1) as nat);
        assert(scene_drawn(f, scene, mvp, (k + 1 - 1) as nat) == start);
        assert(scene_drawn(f, other, mvp, (k + 1 - 1) as nat) == start);
        assert(scene_drawn(f, scene, mvp, (k + 2 - 1) as nat) == one);
        assert(scene_drawn(f, other, mvp, (k + 2 - 1) as nat) == other_one);
        match (screen_triangle(a, mvp, w, h), screen_triangle(b, mvp, w, h)) {
            (Some((flat_a, tilt_a)), Some((flat_b, tilt_b))) => {
                law_triangle_pixel_by_pixel(start, flat_a, tilt_a, grey_paint());
                law_triangle_pixel_by_pixel(start, flat_b, tilt_b, grey_paint());
                law_triangle_pixel_by_pixel(f, flat_a, tilt_a, grey_paint());
                law_triangle_pixel_by_pixel(f, flat_b, tilt_b, grey_paint());
                assert forall|x: int, y: int| in_frame(start, x, y) implies !clash(
                    #[trigger] sent(start, flat_a, tilt_a, grey_paint(), x, y),
                    sent(start, flat_b, tilt_b, grey_paint(), x, y),
                ) by {
                    assert(in_frame(f, x, y));
                    assert(sent(start, flat_a, tilt_a, grey_paint(), x, y) == sent(
                        f,
                        flat_a,
                        tilt_a,
                        grey_paint(),
                        x,
                        y,
                    ));
                    assert(sent(start, flat_b, tilt_b, grey_paint(), x, y) == sent(
                        f,
                        flat_b,
                        tilt_b,
                        grey_paint(),
                        x,
                        y,
                    ));
                }
                law_order_of_triangles(
                    start,
                    flat_a,
                    tilt_a,
                    grey_paint(),
                    flat_b,
                    tilt_b,
                    grey_paint(),
                );
            },
            _ => {},
        }
    }
}

/// The paint of a triangle of a textured scene on the screen.
pub open spec fn paint_of(
    flat: Seq<V3>,
    corrections: (int, int, int),
    uv: Seq<(int, int)>,
    image: Image,
) -> Paint {
    texture_paint(
        flat,
        corrections,
        uv,
        image.texels,
        image.width,
        image.height,
    )
}

/// Two triangles of a textured scene clash on the screen of a frame: both
/// are drawn, and they send some pixel two fragments of the same depth.
pub open spec fn textured_triangles_clash(
    f: Frame,
    a: (Seq<V3>, Seq<(int, int)>),
    b: (Seq<V3>, Seq<(int, int)>),
    mvp: Mat,
    image: Image,
) -> bool {
    match (
        pixel_triangle(a.0, mvp, f.width as int, f.height as int),
        pixel_triangle(b.0, mvp, f.width as int, f.height as int),
    ) {
        (Some((flat_a, tilt_a, ca)), Some((flat_b, tilt_b, cb))) => exists|x: int, y: int|
            in_frame(f, x, y) && clash(
                #[trigger] sent(f, flat_a, tilt_a, paint_of(flat_a, ca, a.1, image), x, y),
                sent(f, flat_b, tilt_b, paint_of(flat_b, cb, b.1, image), x, y),
            ),
        _ => false,
    }
}

proof fn lemma_textured_scene_prefix(
    f: Frame,
    scene: Seq<(Seq<V3>, Seq<(int, int)>)>,
    other: Seq<(Seq<V3>, Seq<(int, int)>)>,
    mvp: Mat,
    image: Image,
    count: nat,
)
    requires
        forall|k: int| 0 <= k < count ==> scene[k] == other[k],
    ensures
        textured_scene_drawn(f, scene, mvp, image, count) == textured_scene_drawn(
            f,
            other,
            mvp,
            image,
            count,
        ),
    decreases count,
{
    if count > 0 {
        lemma_textured_scene_prefix(f, scene, other, mvp, image, (count - 1) as nat);
    }
}

/// The order of a textured scene does not show either: where two neighbours
/// in the scene do not clash, the scene with the two exchanged gives the same
/// frame, from the second of them on.
pub proof fn law_order_of_textured_scene(
    f: Frame,
    scene: Seq<(Seq<V3>, Seq<(int, int)>)>,
    mvp: Mat,
    image: Image,
    k: int,
    count: nat,
)
    requires
        f.wf(),
        0 <= k,
        k + 2 <= count <= scene.len(),
        !textured_triangles_clash(f, scene[k], scene[k + 1], mvp, image),
    ensures
        textured_scene_drawn(f, exchanged(scene, k), mvp, image, count) == textured_scene_drawn(
            f,
            scene,
            mvp,
            image,
            count,
        ),
    decreases count,
{
    let other = exchanged(scene, k);
    if count > k + 2 {
        law_order_of_textured_scene(f, scene, mvp, image, k, (count - 1) as nat);
        assert(other[count - 1] == scene[count - 1]);
    } else {
        let start = textured_scene_drawn(f, scene, mvp, image, k as nat);
        lemma_textured_scene_prefix(f, other, scene, mvp, image, k as nat);
        law_textured_depth_never_recedes(f, scene, mvp, image, k as nat);
        let w = f.width as int;
        let h = f.height as int;
        let a = scene[k];
        let b = scene[k + 1];
        assert(other[k] == b && other[k + 1] == a);
        let one = textured_scene_drawn(f, scene, mvp, image, (k + 1) as nat);
        let other_one = textured_scene_drawn(f, other, mvp, image, (k + 1) as nat);
        assert(textured_scene_drawn(f, scene, mvp, image, (k + 1 - 1) as nat) == start);
        assert(textured_scene_drawn(f, other, mvp, image, (k + 1 - 1) as nat) == start);
        assert(textured_scene_drawn(f, scene, mvp, image, (k + 2 - 1) as nat) == one);
        assert(textured_scene_drawn(f, other, mvp, image, (k + 2 - 1) as nat) == other_one);
        match (pixel_triangle(a.0, mvp, w, h), pixel_triangle(b.0, mvp, w, h)) {
            (Some((flat_a, tilt_a, ca)), Some((flat_b, tilt_b, cb))) => {
                let pa = paint_of(flat_a, ca, a.1, image);
                let pb = paint_of(flat_b, cb, b.1, image);
                law_triangle_pixel_by_pixel(start, flat_a, tilt_a, pa);
                law_triangle_pixel_by_pixel(start, flat_b, tilt_b, pb);
                law_triangle_pixel_by_pixel(f, flat_a, tilt_a, pa);
                law_triangle_pixel_by_pixel(f, flat_b, tilt_b, pb);
                assert forall|x: int, y: int| in_frame(start, x, y) implies !clash(
                    #[trigger] sent(start, flat_a, tilt_a, pa, x, y),
                    sent(start, flat_b, tilt_b, pb, x, y),
                ) by {
                    assert(in_frame(f, x, y));
                    assert(sent(start, flat_a, tilt_a, pa, x, y) == sent(f, flat_a, tilt_a, pa, x, y));
                    assert(sent(start, flat_b, tilt_b, pb, x, y) == sent(f, flat_b, tilt_b, pb, x, y));
                }
                law_order_of_triangles(start, flat_a, tilt_a, pa, flat_b, tilt_b, pb);
            },
            _ => {},
        }
    }
}

} // verus!
