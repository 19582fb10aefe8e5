//! Indexed vertex lists.

use crate::position::Pos3;
use crate::vector::V3;
use vstd::prelude::*;

verus! {

/// A list of vertices and a list of indices into it, three to a triangle.
#[derive(Debug)]
pub struct RenderObject {
    pub vertexes: Vec<Pos3>,
    pub indexes: Vec<usize>,
}

impl RenderObject {
    /// The vertices as contracts speak of them.
    pub open spec fn vertices(&self) -> Seq<V3> {
        Seq::new(self.vertexes@.len(), |i: int| self.vertexes@[i]@)
    }

    pub fn from_vec(vertexes: Vec<Pos3>, indexes: Vec<usize>) -> (r: Self)
        ensures
            r.vertexes@ == vertexes@,
            r.indexes@ == indexes@,
    {
        Self { vertexes, indexes }
    }
}

} // verus!
