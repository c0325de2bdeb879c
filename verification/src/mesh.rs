//! Mesh output records: packed vertices, quad corner groups, index
//! sextuples, and the indirect-draw command layout.

use vstd::prelude::*;

verus! {

/// The six indices of one quad: two triangles with a fixed winding.
pub struct QuadIndexes<T> {
    indexes: [T; 6],
}

impl<T> View for QuadIndexes<T> {
    type V = Seq<T>;

    closed spec fn view(&self) -> Seq<T> {
        self.indexes@
    }
}

impl<T> QuadIndexes<T> {
    pub fn new(indexes: [T; 6]) -> (r: QuadIndexes<T>)
        ensures
            r@ == indexes@,
    {
        QuadIndexes { indexes }
    }

    /// The `i`th of the six indices.
    pub fn get(&self, i: usize) -> (r: &T)
        requires
            i < 6,
        ensures
            *r == self@[i as int],
    {
        &self.indexes[i]
    }
}

/// The four corner records of one quad.
pub struct QuadVertexes<T> {
    vertexes: [T; 4],
}

impl<T> View for QuadVertexes<T> {
    type V = Seq<T>;

    closed spec fn view(&self) -> Seq<T> {
        self.vertexes@
    }
}

impl<T> QuadVertexes<T> {
    pub fn new(vertexes: [T; 4]) -> (r: QuadVertexes<T>)
        ensures
            r@ == vertexes@,
    {
        QuadVertexes { vertexes }
    }

    /// The `i`th of the four corner records.
    pub fn get(&self, i: usize) -> (r: &T)
        requires
            i < 4,
        ensures
            *r == self@[i as int],
    {
        &self.vertexes[i]
    }
}

/// One packed quad corner: bit-packed position and orientation in `xyz`,
/// and a texture-layer placeholder in `uvz`.
#[derive(Debug, Clone, Copy, PartialEq, Eq, Structural)]
pub struct PackedVertex {
    pub xyz: i32,
    pub uvz: i32,
}

/// One element-draw record in the layout the indirect-draw queue expects.
#[derive(Debug, Clone, Copy, PartialEq, Eq, Structural)]
pub struct DrawElementsIndirectCommand {
    pub index_count: u32,
    pub instance_count: u32,
    pub first_index_offset: u32,
    pub first_vertex_offset: u32,
    pub base_instance: u32,
}

impl DrawElementsIndirectCommand {
    pub fn new(
        index_count: u32,
        instance_count: u32,
        first_index_offset: u32,
        first_vertex_offset: u32,
        base_instance: u32,
    ) -> (r: DrawElementsIndirectCommand)
        ensures
            r.index_count == index_count,
            r.instance_count == instance_count,
            r.first_index_offset == first_index_offset,
            r.first_vertex_offset == first_vertex_offset,
            r.base_instance == base_instance,
    {
        DrawElementsIndirectCommand {
            index_count,
            instance_count,
            first_index_offset,
            first_vertex_offset,
            base_instance,
        }
    }
}

} // verus!
