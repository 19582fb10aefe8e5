//! Laws of the depth test, stated over [`Frame`].

use crate::fixed::lemma_floor_quotient_bounds;
use crate::output_buffer::Frame;
use crate::output_buffer::in_front;
use crate::output_buffer::pixel_of;
use crate::output_buffer::position_of;
use vstd::prelude::*;

verus! {

/// The depth `a` is no farther than `b`: a pixel without a depth is farther
/// than every depth.
pub open spec fn no_farther(a: Option<i64>, b: Option<i64>) -> bool {
    match (a, b) {
        (_, None) => true,
        (None, Some(_)) => false,
        (Some(x), Some(y)) => x >= y,
    }
}

/// The frame `g` has the size of `f`, and no pixel of it is farther than in
/// `f`.
pub open spec fn no_pixel_farther(g: Frame, f: Frame) -> bool {
    &&& g.width == f.width
    &&& g.height == f.height
    &&& g.depth.len() == f.depth.len()
    &&& g.color.len() == f.color.len()
    &&& forall|c: int| 0 <= c < f.depth.len() ==> no_farther(#[trigger] g.depth[c], f.depth[c])
}

/// Pixel `(x, y)` is a pixel of the frame.
pub open spec fn in_frame(f: Frame, x: int, y: int) -> bool {
    0 <= x < f.width && 0 <= y < f.height
}

/// A pixel of the frame has its place among the cells.
pub proof fn lemma_cell(f: Frame, x: int, y: int)
    requires
        f.wf(),
        in_frame(f, x, y),
    ensures
        0 <= f.cell(x, y) < f.depth.len(),
        0 <= f.cell(x, y) * 4,
        f.cell(x, y) * 4 + 4 <= f.color.len(),
{
    let w = f.width as int;
    let h = f.height as int;
    assert(y * w >= 0) by (nonlinear_arith)
        requires
            0 <= y,
            0 <= w,
    ;
    assert(y * w + w <= w * h) by (nonlinear_arith)
        requires
            y + 1 <= h,
            0 <= w,
    ;
}

/// Two pixels of the frame that differ have different places.
pub proof fn lemma_cells_differ(f: Frame, x1: int, y1: int, x2: int, y2: int)
    requires
        in_frame(f, x1, y1),
        in_frame(f, x2, y2),
        x1 != x2 || y1 != y2,
    ensures
        f.cell(x1, y1) != f.cell(x2, y2),
{
    let w = f.width as int;
    if y1 < y2 {
        assert(y1 * w + w <= y2 * w) by (nonlinear_arith)
            requires
                y1 + 1 <= y2,
                0 <= w,
        ;
    } else if y2 < y1 {
        assert(y2 * w + w <= y1 * w) by (nonlinear_arith)
            requires
                y2 + 1 <= y1,
                0 <= w,
        ;
    }
}

/// A fragment leaves a well-formed frame well-formed and of the same size.
pub proof fn lemma_plotted_wf(f: Frame, x: int, y: int, d: i64, rgba: Seq<u8>)
    requires
        f.wf(),
        in_frame(f, x, y),
    ensures
        f.plotted(x, y, d, rgba).wf(),
        f.plotted(x, y, d, rgba).width == f.width,
        f.plotted(x, y, d, rgba).height == f.height,
{
    lemma_cell(f, x, y);
}

/// A fragment never moves a pixel farther away.
pub proof fn lemma_plot_never_recedes(f: Frame, x: int, y: int, d: i64, rgba: Seq<u8>)
    requires
        f.wf(),
        in_frame(f, x, y),
    ensures
        no_pixel_farther(f.plotted(x, y, d, rgba), f),
{
    lemma_cell(f, x, y);
}

/// A fragment never moves a pixel farther away: the pixel it arrives at
/// holds the larger of the two depths afterwards, and every other pixel holds
/// what it held.
pub proof fn law_plot_keeps_the_nearest(f: Frame, x: int, y: int, d: i64, rgba: Seq<u8>)
    requires
        f.wf(),
        in_frame(f, x, y),
        rgba.len() >= 4,
    ensures
        no_pixel_farther(f.plotted(x, y, d, rgba), f),
        f.plotted(x, y, d, rgba).depth_at(x, y) == (if in_front(d, f.depth_at(x, y)) {
            Some(d)
        } else {
            f.depth_at(x, y)
        }),
        forall|x2: int, y2: int|
            in_frame(f, x2, y2) && (x2 != x || y2 != y) ==> {
                &&& #[trigger] f.plotted(x, y, d, rgba).depth_at(x2, y2) == f.depth_at(x2, y2)
                &&& f.plotted(x, y, d, rgba).pixel(x2, y2) == f.pixel(x2, y2)
            },
        f.plotted(x, y, d, rgba).pixel(x, y) == (if in_front(d, f.depth_at(x, y)) {
            rgba.subrange(0, 4)
        } else {
            f.pixel(x, y)
        }),
{
    let g = f.plotted(x, y, d, rgba);
    lemma_cell(f, x, y);
    assert forall|x2: int, y2: int| in_frame(f, x2, y2) && (x2 != x || y2 != y) implies {
        &&& #[trigger] g.depth_at(x2, y2) == f.depth_at(x2, y2)
        &&& g.pixel(x2, y2) == f.pixel(x2, y2)
    } by {
        lemma_cell(f, x2, y2);
        lemma_cells_differ(f, x, y, x2, y2);
        assert(g.pixel(x2, y2) =~= f.pixel(x2, y2));
    }
    if in_front(d, f.depth_at(x, y)) {
        assert(g.pixel(x, y) =~= rgba.subrange(0, 4));
    }
}

/// A fragment that is no nearer than one that came before it to the same
/// pixel changes nothing: what came first and nearer stays, colour and
/// depth.
pub proof fn law_farther_fragment_changes_nothing(
    f: Frame,
    x: int,
    y: int,
    near: i64,
    near_rgba: Seq<u8>,
    far: i64,
    far_rgba: Seq<u8>,
)
    requires
        f.wf(),
        in_frame(f, x, y),
        far <= near,
    ensures
        f.plotted(x, y, near, near_rgba).plotted(x, y, far, far_rgba) == f.plotted(
            x,
            y,
            near,
            near_rgba,
        ),
{
    lemma_cell(f, x, y);
}

/// Two fragments of different depths that arrive at one pixel leave the same
/// frame in either order.
pub proof fn law_order_of_fragments(
    f: Frame,
    x: int,
    y: int,
    d1: i64,
    rgba1: Seq<u8>,
    d2: i64,
    rgba2: Seq<u8>,
)
    requires
        f.wf(),
        in_frame(f, x, y),
        d1 != d2,
    ensures
        f.plotted(x, y, d1, rgba1).plotted(x, y, d2, rgba2) == f.plotted(x, y, d2, rgba2).plotted(
            x,
            y,
            d1,
            rgba1,
        ),
{
    lemma_cell(f, x, y);
    let a = f.plotted(x, y, d1, rgba1).plotted(x, y, d2, rgba2);
    let b = f.plotted(x, y, d2, rgba2).plotted(x, y, d1, rgba1);
    assert(a.depth =~= b.depth);
    assert(a.color =~= b.color);
}

/// Fragments that arrive at different pixels leave the same frame in either
/// order, whatever their depths.
pub proof fn law_order_of_pixels(
    f: Frame,
    x1: int,
    y1: int,
    d1: i64,
    rgba1: Seq<u8>,
    x2: int,
    y2: int,
    d2: i64,
    rgba2: Seq<u8>,
)
    requires
        f.wf(),
        in_frame(f, x1, y1),
        in_frame(f, x2, y2),
        x1 != x2 || y1 != y2,
    ensures
        f.plotted(x1, y1, d1, rgba1).plotted(x2, y2, d2, rgba2) == f.plotted(
            x2,
            y2,
            d2,
            rgba2,
        ).plotted(x1, y1, d1, rgba1),
{
    lemma_cell(f, x1, y1);
    lemma_cell(f, x2, y2);
    lemma_cells_differ(f, x1, y1, x2, y2);
    let a = f.plotted(x1, y1, d1, rgba1).plotted(x2, y2, d2, rgba2);
    let b = f.plotted(x2, y2, d2, rgba2).plotted(x1, y1, d1, rgba1);
    assert(a.depth =~= b.depth);
    assert(a.color =~= b.color);
}

/// From normalised device coordinates to the screen and back, a position
/// comes out where it went in, within two grid steps: it is never moved
/// forward across, nor backward upwards.
pub proof fn law_screen_and_back(width: int, height: int, x: int, y: int)
    requires
        width >= 1,
        height >= 1,
    ensures
        ({
            let on_screen = pixel_of(width, height, x, y);
            let back = position_of(width, height, on_screen.0, on_screen.1);
            &&& x - 2 <= back.0 <= x
            &&& y <= back.1 <= y + 2
        }),
{
    lemma_there_and_back(width, x + crate::fixed::UNIT);
    lemma_there_and_back(height, crate::fixed::UNIT - y);
}

/// Scaling by half a size and back loses at most two.
proof fn lemma_there_and_back(size: int, v: int)
    requires
        size >= 1,
    ensures
        v - 2 <= crate::fixed::floor_quotient(2 * crate::fixed::floor_quotient(size * v, 2), size)
            <= v,
{
    let p = crate::fixed::floor_quotient(size * v, 2);
    let q = crate::fixed::floor_quotient(2 * p, size);
    lemma_floor_quotient_bounds(size * v, 2);
    lemma_floor_quotient_bounds(2 * p, size);
    // q size <= 2 p <= size v < 2 p + 2 < q size + size + 2
    if q > v {
        assert(q * size >= size * v + size) by (nonlinear_arith)
            requires
                q >= v + 1,
                size >= 1,
        ;
    }
    if q < v - 2 {
        assert(q * size + size + 2 <= size * v) by (nonlinear_arith)
            requires
                q + 3 <= v,
                size >= 1,
        ;
    }
}

} // verus!
