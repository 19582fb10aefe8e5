//! Textured scenes: triangles with a texture coordinate at each vertex, and
//! the image that they share.

use crate::position::Pos3;
use crate::vector::V3;
use crate::texture::Texture;
use vstd::prelude::*;

verus! {

/// The largest magnitude of a texture coordinate.
pub const UV_LIMIT: i64 = 0x10_0000;

/// A place in a texture image, in texels.
#[derive(Debug, Clone, Copy, PartialEq, Eq, Structural)]
pub struct Uv {
    pub u: i64,
    pub v: i64,
}

impl Uv {
    pub fn new(u: i64, v: i64) -> (r: Self)
        ensures
            r == (Uv { u, v }),
    {
        Uv { u, v }
    }

    pub fn u(&self) -> (r: i64)
        ensures
            r == self.u,
    {
        self.u
    }

    pub fn v(&self) -> (r: i64)
        ensures
            r == self.v,
    {
        self.v
    }

    /// Both coordinates stay within [`UV_LIMIT`].
    pub open spec fn in_range(&self) -> bool {
        -UV_LIMIT <= self.u <= UV_LIMIT && -UV_LIMIT <= self.v <= UV_LIMIT
    }
}

/// A triangle of a textured scene: three vertices in space, and the place of
/// each in the texture.
#[derive(Debug, Clone, Copy)]
pub struct TexturedTriangle {
    pub v: [Pos3; 3],
    pub uv: [Uv; 3],
}

impl TexturedTriangle {
    pub fn new(v: [Pos3; 3], uv: [Uv; 3]) -> (r: Self)
        ensures
            r.v == v,
            r.uv == uv,
    {
        Self { v, uv }
    }

    /// The three vertices as contracts speak of them.
    pub open spec fn vertices(&self) -> Seq<V3> {
        seq![self.v@[0]@, self.v@[1]@, self.v@[2]@]
    }

    /// The three texture coordinates as contracts speak of them.
    pub open spec fn coordinates(&self) -> Seq<(int, int)> {
        seq![
            (self.uv@[0].u as int, self.uv@[0].v as int),
            (self.uv@[1].u as int, self.uv@[1].v as int),
            (self.uv@[2].u as int, self.uv@[2].v as int),
        ]
    }

    /// The texture coordinates stay within [`UV_LIMIT`].
    pub open spec fn in_range(&self) -> bool {
        self.uv@[0].in_range() && self.uv@[1].in_range() && self.uv@[2].in_range()
    }

    /// Whether the texture coordinates stay within [`UV_LIMIT`].
    pub fn is_in_range(&self) -> (r: bool)
        ensures
            r == self.in_range(),
    {
        let a = self.uv[0];
        let b = self.uv[1];
        let c = self.uv[2];
        -UV_LIMIT <= a.u && a.u <= UV_LIMIT && -UV_LIMIT <= a.v && a.v <= UV_LIMIT && -UV_LIMIT
            <= b.u && b.u <= UV_LIMIT && -UV_LIMIT <= b.v && b.v <= UV_LIMIT && -UV_LIMIT <= c.u
            && c.u <= UV_LIMIT && -UV_LIMIT <= c.v && c.v <= UV_LIMIT
    }
}

/// A textured scene: its triangles in drawing order, and the image that
/// gives them their colour.
pub struct TriangleResources {
    pub triangles: Vec<TexturedTriangle>,
    pub image: Option<Texture>,
}

impl TriangleResources {
    pub fn new(triangles: Vec<TexturedTriangle>, image: Option<Texture>) -> (r: Self)
        ensures
            r.triangles@ == triangles@,
            r.image == image,
    {
        Self { triangles, image }
    }

    /// The scene has an image with four bytes for each texel, and every
    /// texture coordinate stays within [`UV_LIMIT`].
    pub open spec fn ready(&self) -> bool {
        &&& self.image matches Some(t) && t.wf()
        &&& forall|k: int| 0 <= k < self.triangles@.len() ==> (#[trigger] self.triangles@[k]).in_range()
    }

    /// Whether the scene has an image and every texture coordinate stays
    /// within [`UV_LIMIT`]: what rendering asks for.
    pub fn is_ready(&self) -> (r: bool)
        ensures
            r == self.ready(),
    {
        match &self.image {
            Some(t) => {
                if !t.is_wf() {
                    return false;
                }
            },
            None => {
                return false;
            },
        }
        let mut k: usize = 0;
        while k < self.triangles.len()
            invariant
                k <= self.triangles@.len(),
                forall|a: int| 0 <= a < k ==> (#[trigger] self.triangles@[a]).in_range(),
            decreases self.triangles@.len() - k,
        {
            if !self.triangles[k].is_in_range() {
                return false;
            }
            k += 1;
        }
        true
    }
}

} // verus!
