//! The immutable index structure of a triangle mesh.

use vstd::prelude::*;

verus! {

/// Mathematical content of a [`Mesh`].
///
/// Corner `3 * f + k` is the `k`-th corner of face `f`. `indices[c]` is the vertex at
/// corner `c` and `normal_indices[c]` the normal attached to that vertex at that corner.
pub struct MeshView {
    pub vertex_count: nat,
    pub normal_count: nat,
    pub indices: Seq<u32>,
    pub normal_indices: Seq<u32>,
}

impl MeshView {
    /// Every corner carries a vertex and a normal, corners come in threes, and every
    /// index refers to an existing vertex or normal.
    pub open spec fn well_formed(self) -> bool {
        &&& self.indices.len() == self.normal_indices.len()
        &&& self.indices.len() % 3 == 0
        &&& forall|c: int|
            0 <= c < self.indices.len() ==> (#[trigger] self.indices[c]) < self.vertex_count
        &&& forall|c: int|
            0 <= c < self.normal_indices.len() ==> (#[trigger] self.normal_indices[c])
                < self.normal_count
    }

    /// Number of triangles.
    pub open spec fn face_count(self) -> nat {
        self.indices.len() / 3
    }
}

/// A triangle mesh reduced to what the per-vertex passes read: how many vertices and
/// normals there are, and which of them meet at each triangle corner.
///
/// A value of this type is always well formed; see [`MeshView::well_formed`].
pub struct Mesh {
    vertex_count: usize,
    normal_count: usize,
    indices: Vec<u32>,
    normal_indices: Vec<u32>,
}

impl View for Mesh {
    type V = MeshView;

    closed spec fn view(&self) -> MeshView {
        MeshView {
            vertex_count: self.vertex_count as nat,
            normal_count: self.normal_count as nat,
            indices: self.indices@,
            normal_indices: self.normal_indices@,
        }
    }
}

/// The mesh content described by the four arguments of [`Mesh::new`].
pub open spec fn described_mesh(
    vertex_count: usize,
    normal_count: usize,
    indices: Seq<u32>,
    normal_indices: Seq<u32>,
) -> MeshView {
    MeshView {
        vertex_count: vertex_count as nat,
        normal_count: normal_count as nat,
        indices,
        normal_indices,
    }
}

/// Whether every entry of `indices` is below `limit`.
fn all_below(indices: &Vec<u32>, limit: usize) -> (r: bool)
    ensures
        r <==> forall|c: int| 0 <= c < indices.len() ==> (#[trigger] indices[c]) < limit,
{
    let mut c: usize = 0;
    while c < indices.len()
        invariant
            c <= indices.len(),
            forall|k: int| 0 <= k < c ==> (#[trigger] indices[k]) < limit,
        decreases indices.len() - c,
    {
        if indices[c] as usize >= limit {
            return false;
        }
        c = c + 1;
    }
    true
}

impl Mesh {
    /// Holds of every mesh: its content is well formed.
    #[verifier::type_invariant]
    pub open spec fn well_formed(&self) -> bool {
        self@.well_formed()
    }

    /// Builds a mesh from its corner lists, or returns `None` if they do not describe a
    /// well-formed mesh.
    pub fn new(
        vertex_count: usize,
        normal_count: usize,
        indices: Vec<u32>,
        normal_indices: Vec<u32>,
    ) -> (r: Option<Mesh>)
        ensures
            r is Some <==> described_mesh(
                vertex_count,
                normal_count,
                indices@,
                normal_indices@,
            ).well_formed(),
            r matches Some(mesh) ==> mesh@ == described_mesh(
                vertex_count,
                normal_count,
                indices@,
                normal_indices@,
            ),
    {
        if indices.len() != normal_indices.len() {
            return None;
        }
        if indices.len() % 3 != 0 {
            return None;
        }
        if !all_below(&indices, vertex_count) {
            return None;
        }
        if !all_below(&normal_indices, normal_count) {
            return None;
        }
        Some(Mesh { vertex_count, normal_count, indices, normal_indices })
    }

    /// Number of vertices.
    pub fn vertex_count(&self) -> (n: usize)
        ensures
            n == self@.vertex_count,
    {
        self.vertex_count
    }

    /// Number of normals.
    pub fn normal_count(&self) -> (n: usize)
        ensures
            n == self@.normal_count,
    {
        self.normal_count
    }

    /// Number of triangles.
    pub fn face_count(&self) -> (n: usize)
        ensures
            n == self@.face_count(),
    {
        self.indices.len() / 3
    }

    /// The vertex at each corner.
    pub fn indices(&self) -> (r: &Vec<u32>)
        ensures
            r@ == self@.indices,
    {
        &self.indices
    }

    /// The normal at each corner.
    pub fn normal_indices(&self) -> (r: &Vec<u32>)
        ensures
            r@ == self@.normal_indices,
    {
        &self.normal_indices
    }
}

} // verus!
