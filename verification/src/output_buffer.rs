//! The frame that is drawn into: colour and depth for every pixel.
//!
//! Colours are four bytes a pixel in row-major order. A depth is larger the
//! nearer it is; a pixel that nothing was drawn to has no depth and lies
//! behind every depth.

use crate::determinant::Determinant;
use crate::determinant::lemma_mat_equal;
use crate::determinant::Mat;
use crate::fixed::COORD_LIMIT;
use crate::fixed::div_floor;
use crate::fixed::floor_quotient;
use crate::fixed::UNIT;
use crate::position::Pos3;
use vstd::prelude::*;

verus! {

/// The number of bytes of a pixel's colour.
pub const RGB_STEP: usize = 4;

/// A frame as contracts speak of it.
pub struct Frame {
    pub width: nat,
    pub height: nat,
    /// `width * height * 4` bytes, row after row.
    pub color: Seq<u8>,
    /// `width * height` depths, row after row.
    pub depth: Seq<Option<i64>>,
}

/// Whether the depth `d` lies in front of what a pixel holds.
pub open spec fn in_front(d: i64, held: Option<i64>) -> bool {
    match held {
        None => true,
        Some(h) => d > h,
    }
}

impl Frame {
    pub open spec fn wf(self) -> bool {
        &&& self.color.len() == self.width * self.height * 4
        &&& self.depth.len() == self.width * self.height
    }

    /// The place of pixel `(x, y)` among the pixels.
    pub open spec fn cell(self, x: int, y: int) -> int {
        y * self.width + x
    }

    /// The four colour bytes of pixel `(x, y)`.
    pub open spec fn pixel(self, x: int, y: int) -> Seq<u8> {
        self.color.subrange(self.cell(x, y) * 4, self.cell(x, y) * 4 + 4)
    }

    /// The depth of pixel `(x, y)`.
    pub open spec fn depth_at(self, x: int, y: int) -> Option<i64> {
        self.depth[self.cell(x, y)]
    }

    /// The frame with the colour of pixel `(x, y)` replaced by the first four
    /// bytes of `rgba`.
    pub open spec fn with_pixel(self, x: int, y: int, rgba: Seq<u8>) -> Frame {
        let start = self.cell(x, y) * 4;
        Frame {
            color: Seq::new(
                self.color.len(),
                |k: int|
                    if start <= k < start + 4 {
                        rgba[k - start]
                    } else {
                        self.color[k]
                    },
            ),
            ..self
        }
    }

    /// The frame with the depth of pixel `(x, y)` replaced.
    pub open spec fn with_depth(self, x: int, y: int, d: i64) -> Frame {
        Frame { depth: self.depth.update(self.cell(x, y), Some(d)), ..self }
    }

    /// The frame after a fragment of depth `d` and colour `rgba` arrived at
    /// pixel `(x, y)`: it takes the pixel if it lies in front of what the
    /// pixel holds, and leaves the frame as it is otherwise.
    pub open spec fn plotted(self, x: int, y: int, d: i64, rgba: Seq<u8>) -> Frame {
        if in_front(d, self.depth_at(x, y)) {
            self.with_depth(x, y, d).with_pixel(x, y, rgba)
        } else {
            self
        }
    }
}

/// Where the position `(x, y)` in normalised device coordinates lies on a
/// `width` by `height` screen, in grid steps: `width / 2 * (x + 1)` and
/// `height / 2 * (1 - y)`, the screen growing downwards.
pub open spec fn pixel_of(width: int, height: int, x: int, y: int) -> (int, int) {
    (floor_quotient(width * (x + UNIT), 2), floor_quotient(height * (UNIT - y), 2))
}

/// The position in normalised device coordinates that lies at the grid
/// position `(px, py)` of a `width` by `height` screen: `2 px / width - 1`
/// and `1 - 2 py / height`. It undoes [`pixel_of`], save for the rounding.
pub open spec fn position_of(width: int, height: int, px: int, py: int) -> (int, int) {
    (floor_quotient(2 * px, width) - UNIT, UNIT - floor_quotient(2 * py, height))
}

/// A mark on a terminal: a place and a colour.
#[derive(Debug, Clone, Copy, PartialEq, Eq, Structural)]
pub struct Glyph {
    pub x: u32,
    pub y: u32,
    pub r: u8,
    pub g: u8,
    pub b: u8,
}

/// The marks for the first `count` pixels of a frame, row after row: one for
/// each pixel that is not fully transparent, at the place of the pixel and in
/// its colour.
pub open spec fn marks(frame: Frame, count: nat) -> Seq<Glyph>
    decreases count,
{
    if count == 0 {
        Seq::empty()
    } else {
        let before = marks(frame, (count - 1) as nat);
        let n = count - 1;
        if frame.color[4 * n + 3] == 0 {
            before
        } else {
            before.push(
                Glyph {
                    x: (n % frame.width as int) as u32,
                    y: (n / frame.width as int) as u32,
                    r: frame.color[4 * n],
                    g: frame.color[4 * n + 1],
                    b: frame.color[4 * n + 2],
                },
            )
        }
    }
}

/// The matrix that takes homogeneous normalised device coordinates to
/// homogeneous grid positions on a `width` by `height` screen.
pub open spec fn view_port(width: int, height: int) -> Mat {
    Mat {
        rows: 4,
        cols: 4,
        cells: seq![
            seq![width, 0int, 0int, 0int],
            seq![0int, -height, 0int, 0int],
            seq![0int, 0int, 2int, 0int],
            seq![width * UNIT, height * UNIT, 0int, 2int],
        ],
    }
}

/// A colour and depth buffer of a fixed size.
pub struct OutputBuffer {
    width: u32,
    height: u32,
    display: Vec<u8>,
    depth: Vec<Option<i64>>,
    tui: bool,
}

impl View for OutputBuffer {
    type V = Frame;

    closed spec fn view(&self) -> Frame {
        Frame {
            width: self.width as nat,
            height: self.height as nat,
            color: self.display@,
            depth: self.depth@,
        }
    }
}

proof fn lemma_cell_in_range(x: int, y: int, width: int, height: int)
    requires
        0 <= x < width,
        0 <= y < height,
    ensures
        0 <= y * width + x < width * height,
        0 <= (y * width + x) * 4,
        (y * width + x) * 4 + 4 <= width * height * 4,
        0 <= y * width,
{
    assert(y * width >= 0) by (nonlinear_arith)
        requires
            0 <= y,
            0 <= width,
    ;
    assert(y * width + width <= width * height) by (nonlinear_arith)
        requires
            y + 1 <= height,
            0 <= width,
    ;
}

impl OutputBuffer {
    /// The buffers have the size that the width and height ask for.
    pub closed spec fn wf(&self) -> bool {
        &&& self@.wf()
        &&& self.width * self.height * 4 <= usize::MAX
    }

    /// Whether the frame is meant for a terminal.
    pub closed spec fn for_terminal(&self) -> bool {
        self.tui
    }

    /// A frame of the given size: every colour byte zero, no pixel with a
    /// depth.
    pub fn new(width: u32, height: u32, tui: bool) -> (r: Self)
        requires
            width * height * 4 <= usize::MAX,
        ensures
            r.wf(),
            r.for_terminal() == tui,
            r@.width == width,
            r@.height == height,
            r@.color == Seq::new((width * height * 4) as nat, |k: int| 0u8),
            r@.depth == Seq::new((width * height) as nat, |k: int| None::<i64>),
    {
        assert(width * height <= width * height * 4) by (nonlinear_arith)
            requires
                0 <= width,
                0 <= height,
        ;
        let pixels_num: usize = (width as usize) * (height as usize);
        let depth: Vec<Option<i64>> = vec![None; pixels_num];
        let display: Vec<u8> = vec![0u8; pixels_num * RGB_STEP];
        assert(display@ =~= Seq::new((width * height * 4) as nat, |k: int| 0u8));
        assert(depth@ =~= Seq::new((width * height) as nat, |k: int| None::<i64>));
        Self { width, height, display, depth, tui }
    }

    pub fn width(&self) -> (r: u32)
        ensures
            r == self@.width,
    {
        self.width
    }

    pub fn height(&self) -> (r: u32)
        ensures
            r == self@.height,
    {
        self.height
    }

    /// Whether the frame is meant for a terminal.
    pub fn tui(&self) -> (r: bool)
        ensures
            r == self.for_terminal(),
    {
        self.tui
    }

    /// The colour bytes, four a pixel, row after row.
    pub fn display(&self) -> (r: &Vec<u8>)
        ensures
            r@ == self@.color,
    {
        &self.display
    }

    /// The depth of pixel `(x, y)`, or nothing if nothing was drawn to it.
    pub fn get_depth(&self, x: usize, y: usize) -> (r: Option<i64>)
        requires
            self.wf(),
            x < self@.width,
            y < self@.height,
        ensures
            r == self@.depth_at(x as int, y as int),
    {
        proof {
            lemma_cell_in_range(x as int, y as int, self.width as int, self.height as int);
        }
        self.depth[y * self.width as usize + x]
    }

    /// Gives pixel `(x, y)` the depth `val`, whatever it held.
    pub fn set_depth(&mut self, x: usize, y: usize, val: i64)
        requires
            old(self).wf(),
            x < old(self)@.width,
            y < old(self)@.height,
        ensures
            final(self).wf(),
            final(self).for_terminal() == old(self).for_terminal(),
            final(self)@ == old(self)@.with_depth(x as int, y as int, val),
    {
        proof {
            lemma_cell_in_range(x as int, y as int, self.width as int, self.height as int);
        }
        let idx = y * self.width as usize + x;
        self.depth.set(idx, Some(val));
    }

    /// Gives pixel `(x, y)` the colour that the first four bytes of `rgb`
    /// spell.
    pub fn put_pixel(&mut self, x: u32, y: u32, rgb: &[u8])
        requires
            old(self).wf(),
            x < old(self)@.width,
            y < old(self)@.height,
            rgb@.len() >= 4,
        ensures
            final(self).wf(),
            final(self).for_terminal() == old(self).for_terminal(),
            final(self)@ == old(self)@.with_pixel(x as int, y as int, rgb@),
    {
        proof {
            lemma_cell_in_range(x as int, y as int, self.width as int, self.height as int);
        }
        let start: usize = (y as usize * self.width as usize + x as usize) * RGB_STEP;
        let mut i: usize = 0;
        while i < RGB_STEP
            invariant
                i <= 4,
                rgb@.len() >= 4,
                start + 4 <= self.display.len(),
                self.display@.len() == old(self).display@.len(),
                self.width == old(self).width,
                self.height == old(self).height,
                self.depth == old(self).depth,
                self.tui == old(self).tui,
                forall|k: int|
                    0 <= k < self.display@.len() ==> self.display@[k] == (if start <= k < start + i {
                        rgb@[k - start]
                    } else {
                        old(self).display@[k]
                    }),
            decreases 4 - i,
        {
            self.display.set(start + i, rgb[i]);
            i += 1;
        }
        assert(self.display@ =~= old(self)@.with_pixel(x as int, y as int, rgb@).color);
    }

    /// Where the position `(x, y)` in normalised device coordinates lies on
    /// the screen, in grid steps.
    pub fn pos_to_pixel(&self, x: i64, y: i64) -> (r: (i64, i64))
        requires
            -COORD_LIMIT <= x <= COORD_LIMIT,
            -COORD_LIMIT <= y <= COORD_LIMIT,
        ensures
            (r.0 as int, r.1 as int) == pixel_of(
                self@.width as int,
                self@.height as int,
                x as int,
                y as int,
            ),
    {
        (half_scaled(self.width, x + UNIT), half_scaled(self.height, UNIT - y))
    }

    /// The matrix form of [`OutputBuffer::pos_to_pixel`], for homogeneous
    /// rows.
    pub fn to_view_port_matrix(&self) -> (r: Determinant)
        ensures
            r.wf(),
            r@ == view_port(self@.width as int, self@.height as int),
    {
        let w = self.width as i128;
        let h = self.height as i128;
        assert(0 <= w * UNIT <= 0xffff_ffff_0000 && 0 <= h * UNIT <= 0xffff_ffff_0000)
            by (nonlinear_arith)
            requires
                0 <= w <= 0xffff_ffff,
                0 <= h <= 0xffff_ffff,
                UNIT == 65536,
        ;
        let mut e: Vec<i128> = Vec::new();
        e.push(w);
        e.push(0);
        e.push(0);
        e.push(0);
        e.push(0);
        e.push(-h);
        e.push(0);
        e.push(0);
        e.push(0);
        e.push(0);
        e.push(2);
        e.push(0);
        e.push(w * (UNIT as i128));
        e.push(h * (UNIT as i128));
        e.push(0);
        e.push(2);
        let r = Determinant::from_vec(4, 4, false, e).unwrap();
        proof {
            lemma_mat_equal(r@, view_port(self@.width as int, self@.height as int));
        }
        r
    }

    /// The place on the screen of a position in normalised device
    /// coordinates, flattened to depth zero.
    pub fn pos_to_pixel_pos(&self, pos: &Pos3) -> (r: Pos3)
        requires
            -COORD_LIMIT <= pos.x <= COORD_LIMIT,
            -COORD_LIMIT <= pos.y <= COORD_LIMIT,
        ensures
            (r@.x, r@.y) == pixel_of(self@.width as int, self@.height as int, pos@.x, pos@.y),
            r@.z == 0,
    {
        let (x, y) = self.pos_to_pixel(pos.x(), pos.y());
        Pos3::from_xyz(x, y, 0)
    }

    /// The place on the screen of a position in normalised device
    /// coordinates, with the depth that it has.
    pub fn pos_to_pixel_pos_with_z(&self, pos: &Pos3) -> (r: Pos3)
        requires
            -COORD_LIMIT <= pos.x <= COORD_LIMIT,
            -COORD_LIMIT <= pos.y <= COORD_LIMIT,
        ensures
            (r@.x, r@.y) == pixel_of(self@.width as int, self@.height as int, pos@.x, pos@.y),
            r@.z == pos@.z,
    {
        let (x, y) = self.pos_to_pixel(pos.x(), pos.y());
        Pos3::from_xyz(x, y, pos.z())
    }

    /// The position in normalised device coordinates that lies at the grid
    /// position `(px, py)` of the screen, if the screen has pixels.
    pub fn pixel_to_pos(&self, px: i64, py: i64) -> (r: Option<(i64, i64)>)
        requires
            -COORD_LIMIT <= px <= COORD_LIMIT,
            -COORD_LIMIT <= py <= COORD_LIMIT,
        ensures
            r is Some <==> self@.width > 0 && self@.height > 0,
            r matches Some(p) ==> (p.0 as int, p.1 as int) == position_of(
                self@.width as int,
                self@.height as int,
                px as int,
                py as int,
            ),
    {
        if self.width == 0 || self.height == 0 {
            return None;
        }
        let qx = div_floor(2 * (px as i128), self.width as i128);
        let qy = div_floor(2 * (py as i128), self.height as i128);
        proof {
            crate::fixed::lemma_quotient_magnitude(2 * px, self.width as int);
            crate::fixed::lemma_quotient_magnitude(2 * py, self.height as int);
        }
        Some(((qx - UNIT as i128) as i64, (UNIT as i128 - qy) as i64))
    }

    /// The marks that show the frame on a terminal: one for each pixel that
    /// is not fully transparent, row after row.
    pub fn glyphs(&self) -> (r: Vec<Glyph>)
        requires
            self.wf(),
        ensures
            r@ == marks(self@, self@.width * self@.height),
    {
        let mut r: Vec<Glyph> = Vec::new();
        if self.width == 0 {
            assert(self@.width * self@.height == 0) by (nonlinear_arith)
                requires
                    self@.width == 0,
            ;
            return r;
        }
        let count: usize = self.depth.len();
        let width: usize = self.width as usize;
        let mut n: usize = 0;
        while n < count
            invariant
                n <= count,
                count == self@.width * self@.height,
                self.display@.len() == count * 4,
                self.display@.len() == self.display.len(),
                width == self@.width,
                width > 0,
                count * 4 <= usize::MAX,
                r@ == marks(self@, n as nat),
            decreases count - n,
        {
            let c = self.display[4 * n + 3];
            if c != 0 {
                proof {
                    vstd::arithmetic::div_mod::lemma_mod_bound(n as int, width as int);
                    vstd::arithmetic::div_mod::lemma_div_pos_is_pos(n as int, width as int);
                    lemma_row_of(n as int, self.width as int, self.height as int);
                }
                r.push(
                    Glyph {
                        x: (n % width) as u32,
                        y: (n / width) as u32,
                        r: self.display[4 * n],
                        g: self.display[4 * n + 1],
                        b: self.display[4 * n + 2],
                    },
                );
            }
            n += 1;
        }
        r
    }

    /// Lets a fragment of depth `depth` and colour `rgba` arrive at pixel
    /// `(x, y)`: the pixel takes both if the depth is strictly larger than
    /// the one it holds, or if it holds none. Says whether it did.
    pub fn plot(&mut self, x: u32, y: u32, depth: i64, rgba: &[u8]) -> (drawn: bool)
        requires
            old(self).wf(),
            x < old(self)@.width,
            y < old(self)@.height,
            rgba@.len() >= 4,
        ensures
            final(self).wf(),
            final(self).for_terminal() == old(self).for_terminal(),
            drawn == in_front(depth, old(self)@.depth_at(x as int, y as int)),
            final(self)@ == old(self)@.plotted(x as int, y as int, depth, rgba@),
    {
        let cur_depth = self.get_depth(x as usize, y as usize);
        let nearer = match cur_depth {
            None => true,
            Some(held) => depth > held,
        };
        if nearer {
            self.set_depth(x as usize, y as usize, depth);
            self.put_pixel(x, y, rgba);
        }
        nearer
    }
}

/// A pixel of the frame lies in one of its rows.
proof fn lemma_row_of(n: int, width: int, height: int)
    requires
        0 < width <= u32::MAX,
        0 <= height <= u32::MAX,
        0 <= n < width * height,
    ensures
        0 <= n / width < height,
{
    vstd::arithmetic::div_mod::lemma_fundamental_div_mod(n, width);
    vstd::arithmetic::div_mod::lemma_mod_bound(n, width);
    vstd::arithmetic::div_mod::lemma_div_pos_is_pos(n, width);
    let q = n / width;
    if q >= height {
        assert(width * q >= width * height) by (nonlinear_arith)
            requires
                q >= height,
                width > 0,
        ;
    }
}

/// `size * v / 2`, rounded downwards.
fn half_scaled(size: u32, v: i64) -> (r: i64)
    requires
        -0x4000_0000 <= v <= 0x4000_0000,
    ensures
        r == floor_quotient(size * v, 2),
{
    assert(-0x4000_0000_0000_0000 <= size * v <= 0x4000_0000_0000_0000) by (nonlinear_arith)
        requires
            0 <= size <= 0xffff_ffff,
            -0x4000_0000 <= v <= 0x4000_0000,
    ;
    let p: i128 = (size as i128) * (v as i128);
    proof {
        crate::fixed::lemma_quotient_magnitude(p as int, 2);
    }
    div_floor(p, 2) as i64
}

} // verus!
