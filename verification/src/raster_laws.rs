//! Laws of the renderer: what drawing does to the depths of a frame.

use crate::determinant::Mat;
use crate::fixed::pixel_centre;
use crate::output_buffer::Frame;
use crate::output_buffer_laws::in_frame;
use crate::output_buffer_laws::lemma_plot_never_recedes;
use crate::output_buffer_laws::lemma_plotted_wf;
use crate::output_buffer_laws::no_farther;
use crate::output_buffer_laws::no_pixel_farther;
use crate::raster::depth_reading;
use crate::raster::fragment_drawn;
use crate::raster::grey_paint;
use crate::raster::Paint;
use crate::raster::pixel_triangle;
use crate::raster::rows_drawn;
use crate::raster::scan_bounds;
use crate::raster::scene_drawn;
use crate::raster::screen_triangle;
use crate::raster::span_drawn;
use crate::raster::textured_scene_drawn;
use crate::raster::triangle_drawn;
use crate::shader::texture_paint;
use crate::texture::Image;
use crate::triangle::hit;
use crate::triangle::larger;
use crate::triangle::smaller;
use crate::triangle::leftmost_hit;
use crate::triangle::rightmost_hit;
use crate::triangle::span_of;
use crate::vector::V3;
use vstd::prelude::*;

verus! {

/// What is no farther than something that is no farther than a frame is no
/// farther than the frame.
pub proof fn lemma_no_pixel_farther_chain(h: Frame, g: Frame, f: Frame)
    requires
        no_pixel_farther(h, g),
        no_pixel_farther(g, f),
    ensures
        no_pixel_farther(h, f),
{
    assert forall|c: int| 0 <= c < f.depth.len() implies no_farther(
        #[trigger] h.depth[c],
        f.depth[c],
    ) by {
        assert(no_farther(h.depth[c], g.depth[c]));
        assert(no_farther(g.depth[c], f.depth[c]));
    }
}

/// A span lies between the columns that were asked for.
pub proof fn lemma_span_within(t: Seq<V3>, y: int, sx: int, ex: int)
    ensures
        span_of(t, y, sx, ex) matches Some((l, r)) ==> sx <= l <= r <= ex,
{
    if exists|i: int| hit(t, y, sx, ex, i) {
        let w = choose|i: int| hit(t, y, sx, ex, i);
        lemma_extreme_hits(t, y, sx, ex, w);
        let l = choose|l: int| leftmost_hit(t, y, sx, ex, l);
        let r = choose|r: int| rightmost_hit(t, y, sx, ex, r);
        assert(leftmost_hit(t, y, sx, ex, l));
        assert(rightmost_hit(t, y, sx, ex, r));
    }
}

/// Where a column is hit, there is a leftmost and a rightmost hit.
pub proof fn lemma_extreme_hits(t: Seq<V3>, y: int, sx: int, ex: int, w: int)
    requires
        hit(t, y, sx, ex, w),
    ensures
        exists|l: int| leftmost_hit(t, y, sx, ex, l),
        exists|r: int| rightmost_hit(t, y, sx, ex, r),
{
    lemma_leftmost_from(t, y, sx, ex, w, (w - sx) as nat);
    lemma_rightmost_from(t, y, sx, ex, w, (ex - w) as nat);
}

proof fn lemma_leftmost_from(t: Seq<V3>, y: int, sx: int, ex: int, w: int, room: nat)
    requires
        hit(t, y, sx, ex, w),
        room == w - sx,
    ensures
        exists|l: int| leftmost_hit(t, y, sx, ex, l),
    decreases room,
{
    if exists|i: int| hit(t, y, sx, ex, i) && i < w {
        let i = choose|i: int| hit(t, y, sx, ex, i) && i < w;
        lemma_leftmost_from(t, y, sx, ex, i, (i - sx) as nat);
    } else {
        assert(leftmost_hit(t, y, sx, ex, w));
    }
}

proof fn lemma_rightmost_from(t: Seq<V3>, y: int, sx: int, ex: int, w: int, room: nat)
    requires
        hit(t, y, sx, ex, w),
        room == ex - w,
    ensures
        exists|r: int| rightmost_hit(t, y, sx, ex, r),
    decreases room,
{
    if exists|i: int| hit(t, y, sx, ex, i) && i > w {
        let i = choose|i: int| hit(t, y, sx, ex, i) && i > w;
        lemma_rightmost_from(t, y, sx, ex, i, (ex - i) as nat);
    } else {
        assert(rightmost_hit(t, y, sx, ex, w));
    }
}

proof fn lemma_fragment(f: Frame, dm: Mat, paint: Paint, i: int, j: int)
    requires
        f.wf(),
        in_frame(f, i, j),
    ensures
        fragment_drawn(f, dm, paint, i, j).wf(),
        no_pixel_farther(fragment_drawn(f, dm, paint, i, j), f),
{
    match depth_reading(dm, pixel_centre(i), pixel_centre(j)) {
        Some(d) => {
            lemma_plotted_wf(f, i, j, d, paint(i, j, d));
            lemma_plot_never_recedes(f, i, j, d, paint(i, j, d));
        },
        None => {},
    }
}

proof fn lemma_span(f: Frame, dm: Mat, paint: Paint, j: int, l: int, count: nat)
    requires
        f.wf(),
        0 <= l,
        count > 0 ==> l + count <= f.width,
        0 <= j < f.height,
    ensures
        span_drawn(f, dm, paint, j, l, count).wf(),
        no_pixel_farther(span_drawn(f, dm, paint, j, l, count), f),
    decreases count,
{
    if count > 0 {
        let before = span_drawn(f, dm, paint, j, l, (count - 1) as nat);
        lemma_span(f, dm, paint, j, l, (count - 1) as nat);
        lemma_fragment(before, dm, paint, l + count - 1, j);
        lemma_no_pixel_farther_chain(span_drawn(f, dm, paint, j, l, count), before, f);
    }
}

proof fn lemma_rows(
    f: Frame,
    flat: Seq<V3>,
    dm: Mat,
    paint: Paint,
    sx: int,
    ex: int,
    sy: int,
    count: nat,
)
    requires
        f.wf(),
        0 <= sx,
        0 <= sy,
        count > 0 ==> sy + count <= f.height,
    ensures
        rows_drawn(f, flat, dm, paint, sx, ex, sy, count).wf(),
        rows_drawn(f, flat, dm, paint, sx, ex, sy, count).width == f.width,
        no_pixel_farther(rows_drawn(f, flat, dm, paint, sx, ex, sy, count), f),
    decreases count,
{
    if count > 0 {
        let before = rows_drawn(f, flat, dm, paint, sx, ex, sy, (count - 1) as nat);
        lemma_rows(f, flat, dm, paint, sx, ex, sy, (count - 1) as nat);
        let j = sy + count - 1;
        lemma_span_within(flat, pixel_centre(j), sx, ex);
        match span_of(flat, pixel_centre(j), sx, ex) {
            Some((l, r)) => {
                lemma_span(
                    before,
                    dm,
                    paint,
                    j,
                    l,
                    larger(smaller(r, f.width - 1) - l + 1, 0) as nat,
                );
                lemma_no_pixel_farther_chain(
                    rows_drawn(f, flat, dm, paint, sx, ex, sy, count),
                    before,
                    f,
                );
            },
            None => {},
        }
    }
}

/// Drawing a triangle never moves a pixel farther away, whatever the paint.
pub proof fn law_triangle_never_recedes(f: Frame, flat: Seq<V3>, tilt: Seq<V3>, paint: Paint)
    requires
        f.wf(),
    ensures
        triangle_drawn(f, flat, tilt, paint).wf(),
        triangle_drawn(f, flat, tilt, paint).width == f.width,
        triangle_drawn(f, flat, tilt, paint).height == f.height,
        no_pixel_farther(triangle_drawn(f, flat, tilt, paint), f),
{
    let (sx, ex, sy, rows) = scan_bounds(f, flat);
    if f.width > 0 {
        lemma_rows(f, flat, crate::triangle::depth_matrix(tilt), paint, sx, ex, sy, rows);
    }
}

/// While a scene is drawn the depth of a pixel only grows: after each
/// triangle no pixel is farther than it was before that triangle, nor than
/// it was in the frame that the drawing began with.
pub proof fn law_depth_never_recedes(f: Frame, scene: Seq<Seq<V3>>, mvp: Mat, count: nat)
    requires
        f.wf(),
    ensures
        scene_drawn(f, scene, mvp, count).wf(),
        scene_drawn(f, scene, mvp, count).width == f.width,
        scene_drawn(f, scene, mvp, count).height == f.height,
        no_pixel_farther(scene_drawn(f, scene, mvp, count), f),
        count > 0 ==> no_pixel_farther(
            scene_drawn(f, scene, mvp, count),
            scene_drawn(f, scene, mvp, (count - 1) as nat),
        ),
    decreases count,
{
    if count > 0 {
        let before = scene_drawn(f, scene, mvp, (count - 1) as nat);
        law_depth_never_recedes(f, scene, mvp, (count - 1) as nat);
        match screen_triangle(scene[count - 1], mvp, f.width as int, f.height as int) {
            Some((flat, tilt)) => {
                law_triangle_never_recedes(before, flat, tilt, grey_paint());
                lemma_no_pixel_farther_chain(scene_drawn(f, scene, mvp, count), before, f);
            },
            None => {},
        }
    }
}

/// While a textured scene is drawn the depth of a pixel only grows, just as
/// for a scene in grey.
pub proof fn law_textured_depth_never_recedes(
    f: Frame,
    scene: Seq<(Seq<V3>, Seq<(int, int)>)>,
    mvp: Mat,
    image: Image,
    count: nat,
)
    requires
        f.wf(),
    ensures
        textured_scene_drawn(f, scene, mvp, image, count).wf(),
        textured_scene_drawn(f, scene, mvp, image, count).width == f.width,
        textured_scene_drawn(f, scene, mvp, image, count).height == f.height,
        no_pixel_farther(textured_scene_drawn(f, scene, mvp, image, count), f),
        count > 0 ==> no_pixel_farther(
            textured_scene_drawn(f, scene, mvp, image, count),
            textured_scene_drawn(f, scene, mvp, image, (count - 1) as nat),
        ),
    decreases count,
{
    if count > 0 {
        let before = textured_scene_drawn(f, scene, mvp, image, (count - 1) as nat);
        law_textured_depth_never_recedes(f, scene, mvp, image, (count - 1) as nat);
        match pixel_triangle(scene[count - 1].0, mvp, f.width as int, f.height as int) {
            Some((flat, tilt, corrections)) => {
                law_triangle_never_recedes(
                    before,
                    flat,
                    tilt,
                    texture_paint(
                        flat,
                        corrections,
                        scene[count - 1].1,
                        image.texels,
                        image.width,
                        image.height,
                    ),
                );
                lemma_no_pixel_farther_chain(
                    textured_scene_drawn(f, scene, mvp, image, count),
                    before,
                    f,
                );
            },
            None => {},
        }
    }
}

} // verus!
