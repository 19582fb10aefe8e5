//! Texture images and nearest-neighbour lookup.
//!
//! A texture holds its pixels as plain bytes: four a texel, red, green, blue
//! and alpha, row after row. Images of other kinds are brought into this
//! form before they come here.

use vstd::prelude::*;

verus! {

/// A texture as contracts speak of it.
pub struct Image {
    pub width: nat,
    pub height: nat,
    /// `width * height * 4` bytes, row after row.
    pub texels: Seq<u8>,
}

/// The four bytes of the texel in column `x` of row `y`.
pub open spec fn texel(texels: Seq<u8>, width: nat, x: int, y: int) -> Seq<u8> {
    texels.subrange((y * width + x) * 4, (y * width + x) * 4 + 4)
}

/// `v`, or the nearest of 0 and `size - 1` where `v` lies outside.
pub open spec fn clamped(v: int, size: nat) -> int {
    if v < 0 {
        0
    } else if v >= size {
        size - 1
    } else {
        v
    }
}

/// The colour at the texel coordinates `(u, v)`: that of the texel there, of
/// the nearest texel of the image where there is none, and transparent black
/// for an image without pixels.
pub open spec fn texel_at(texels: Seq<u8>, width: nat, height: nat, u: int, v: int) -> Seq<u8> {
    if width == 0 || height == 0 {
        seq![0u8, 0u8, 0u8, 0u8]
    } else {
        texel(texels, width, clamped(u, width), clamped(v, height))
    }
}

/// A texture image of eight-bit red, green, blue and alpha.
#[derive(Debug, Clone)]
pub struct Texture {
    width: u32,
    height: u32,
    texels: Vec<u8>,
}

impl View for Texture {
    type V = Image;

    closed spec fn view(&self) -> Image {
        Image { width: self.width as nat, height: self.height as nat, texels: self.texels@ }
    }
}

impl Texture {
    /// The texture holds four bytes for each of its texels.
    pub closed spec fn wf(&self) -> bool {
        self.texels@.len() == self.width * self.height * 4
    }

    /// The texture of the given size on the given bytes, or nothing if there
    /// are not four bytes for each texel.
    pub fn new(width: u32, height: u32, texels: Vec<u8>) -> (r: Option<Self>)
        ensures
            r is Some <==> texels@.len() == width * height * 4,
            r matches Some(t) ==> {
                &&& t.wf()
                &&& t@ == Image { width: width as nat, height: height as nat, texels: texels@ }
            },
    {
        assert(0 <= width * height <= 0xffff_fffe_0000_0001) by (nonlinear_arith)
            requires
                0 <= width <= 0xffff_ffff,
                0 <= height <= 0xffff_ffff,
        ;
        let wanted: u128 = (width as u128) * (height as u128) * 4;
        if texels.len() as u128 != wanted {
            None
        } else {
            Some(Self { width, height, texels })
        }
    }

    /// Whether the texture holds four bytes for each of its texels, as every
    /// texture does that [`Texture::new`] made.
    pub fn is_wf(&self) -> (r: bool)
        ensures
            r == self.wf(),
    {
        assert(0 <= self.width * self.height <= 0xffff_fffe_0000_0001) by (nonlinear_arith)
            requires
                0 <= self.width <= 0xffff_ffff,
                0 <= self.height <= 0xffff_ffff,
        ;
        self.texels.len() as u128 == (self.width as u128) * (self.height as u128) * 4
    }

    /// The number of texel columns.
    pub fn width(&self) -> (r: u32)
        ensures
            r == self@.width,
    {
        self.width
    }

    /// The number of texel rows.
    pub fn height(&self) -> (r: u32)
        ensures
            r == self@.height,
    {
        self.height
    }

    /// The four bytes of the texel in column `x` of row `y`.
    pub fn get_pixel(&self, x: u32, y: u32) -> (c: [u8; 4])
        requires
            self.wf(),
            x < self@.width,
            y < self@.height,
        ensures
            c@ == texel(self@.texels, self@.width, x as int, y as int),
    {
        proof {
            assert(self.texels@.len() == self.texels.len());
            lemma_texel_in_range(x as int, y as int, self.width as int, self.height as int);
        }
        let start: usize = (y as usize * self.width as usize + x as usize) * 4;
        let c = [
            self.texels[start],
            self.texels[start + 1],
            self.texels[start + 2],
            self.texels[start + 3],
        ];
        assert(c@ =~= texel(self@.texels, self@.width, x as int, y as int));
        c
    }

    /// The colour of the image at the texel coordinates `(u, v)`, by the
    /// nearest texel.
    pub fn sample(&self, u: i128, v: i128) -> (c: [u8; 4])
        requires
            self.wf(),
        ensures
            c@ == texel_at(self@.texels, self@.width, self@.height, u as int, v as int),
    {
        if self.width == 0 || self.height == 0 {
            let c = [0u8, 0u8, 0u8, 0u8];
            assert(c@ =~= seq![0u8, 0u8, 0u8, 0u8]);
            c
        } else {
            self.get_pixel(clamp(u, self.width), clamp(v, self.height))
        }
    }
}

proof fn lemma_texel_in_range(x: int, y: int, width: int, height: int)
    requires
        0 <= x < width,
        0 <= y < height,
    ensures
        0 <= y * width,
        0 <= y * width + x < width * height,
        (y * width + x) * 4 + 4 <= width * height * 4,
{
    assert(y * width >= 0) by (nonlinear_arith)
        requires
            0 <= y,
            0 <= width,
    ;
    assert(y * width + width <= width * height) by (nonlinear_arith)
        requires
            y + 1 <= height,
            0 <= width,
    ;
}

/// `v` brought into `0..size`.
fn clamp(v: i128, size: u32) -> (r: u32)
    requires
        size > 0,
    ensures
        r == clamped(v as int, size as nat),
        r < size,
{
    if v < 0 {
        0
    } else if v >= size as i128 {
        size - 1
    } else {
        v as u32
    }
}

} // verus!
