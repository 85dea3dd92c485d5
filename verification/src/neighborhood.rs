//! Vertex adjacency: which vertices share a triangle.

use crate::mesh::{Mesh, MeshView};
use std::collections::BTreeSet;
use vstd::prelude::*;

verus! {

/// Whether a triangle with corners `p`, `q`, `r` makes `b` a neighbor of vertex `a`:
/// `a` sits at one corner of the triangle and `b` at another.
pub open spec fn triangle_joins(p: u32, q: u32, r: u32, a: int, b: u32) -> bool {
    ||| a == p && (b == q || b == r)
    ||| a == q && (b == p || b == r)
    ||| a == r && (b == p || b == q)
}

/// Whether triangle `f` of the corner list `indices` makes `b` a neighbor of vertex `a`.
pub open spec fn face_joins(indices: Seq<u32>, f: int, a: int, b: u32) -> bool {
    triangle_joins(indices[3 * f], indices[3 * f + 1], indices[3 * f + 2], a, b)
}

/// Whether one of the first `faces` triangles makes `b` a neighbor of vertex `a`.
pub open spec fn adjacent_within(indices: Seq<u32>, faces: int, a: int, b: u32) -> bool {
    exists|f: int| 0 <= f < faces && #[trigger] face_joins(indices, f, a, b)
}

/// Whether some triangle of the corner list makes `b` a neighbor of vertex `a`.
pub open spec fn adjacent(indices: Seq<u32>, a: int, b: u32) -> bool {
    adjacent_within(indices, indices.len() as int / 3, a, b)
}

/// The neighborhood of vertex `a`: every vertex that shares a triangle with it.
pub open spec fn neighbors(indices: Seq<u32>, a: int) -> Set<u32> {
    Set::new(|b: u32| adjacent(indices, a, b))
}

/// The neighborhood of vertex `a` as far as the first `faces` triangles determine it.
pub open spec fn neighbors_within(indices: Seq<u32>, faces: int, a: int) -> Set<u32> {
    Set::new(|b: u32| adjacent_within(indices, faces, a, b))
}

/// Whether vertex `v` is a corner of some triangle.
pub open spec fn referenced(indices: Seq<u32>, v: int) -> bool {
    exists|c: int| 0 <= c < 3 * (indices.len() as int / 3) && #[trigger] indices[c] == v
}

/// Adjacency is symmetric: `b` is a neighbor of `a` exactly when `a` is a neighbor of `b`.
pub proof fn lemma_neighbors_symmetric(indices: Seq<u32>, a: u32, b: u32)
    ensures
        neighbors(indices, a as int).contains(b) <==> neighbors(indices, b as int).contains(a),
{
    let faces = indices.len() as int / 3;
    if adjacent(indices, a as int, b) {
        let f = choose|f: int| 0 <= f < faces && #[trigger] face_joins(indices, f, a as int, b);
        assert(face_joins(indices, f, b as int, a));
    }
    if adjacent(indices, b as int, a) {
        let f = choose|f: int| 0 <= f < faces && #[trigger] face_joins(indices, f, b as int, a);
        assert(face_joins(indices, f, a as int, b));
    }
}

/// In a well-formed mesh, adjacency only ever relates existing vertices.
pub proof fn lemma_neighbors_in_range(mesh: MeshView, a: int, b: u32)
    requires
        mesh.well_formed(),
        neighbors(mesh.indices, a).contains(b),
    ensures
        0 <= a < mesh.vertex_count,
        b < mesh.vertex_count,
{
    let f = choose|f: int|
        0 <= f < mesh.indices.len() as int / 3 && #[trigger] face_joins(mesh.indices, f, a, b);
    assert(mesh.indices[3 * f] < mesh.vertex_count);
    assert(mesh.indices[3 * f + 1] < mesh.vertex_count);
    assert(mesh.indices[3 * f + 2] < mesh.vertex_count);
}

/// A neighborhood is finite: it has at most as many members as the mesh has corners.
pub proof fn lemma_neighbors_finite(indices: Seq<u32>, a: int)
    ensures
        neighbors(indices, a).finite(),
        neighbors(indices, a).len() <= indices.len(),
{
    let all = indices.to_set();
    assert forall|b: u32| neighbors(indices, a).contains(b) implies all.contains(b) by {
        let f = choose|f: int|
            0 <= f < indices.len() as int / 3 && #[trigger] face_joins(indices, f, a, b);
        assert(indices.contains(indices[3 * f]));
        assert(indices.contains(indices[3 * f + 1]));
        assert(indices.contains(indices[3 * f + 2]));
    }
    vstd::seq_lib::seq_to_set_is_finite(indices);
    assert(neighbors(indices, a).subset_of(all));
    vstd::set_lib::lemma_set_subset_finite(all, neighbors(indices, a));
    vstd::set_lib::lemma_len_subset(neighbors(indices, a), all);
    indices.lemma_cardinality_of_set();
}

/// A vertex has a neighbor exactly when it is a corner of some triangle. In particular a
/// vertex that no triangle mentions has the empty neighborhood.
pub proof fn lemma_isolated_iff_unreferenced(indices: Seq<u32>, v: int)
    ensures
        neighbors(indices, v) == Set::<u32>::empty() <==> !referenced(indices, v),
{
    let faces = indices.len() as int / 3;
    if referenced(indices, v) {
        let c = choose|c: int| 0 <= c < 3 * faces && #[trigger] indices[c] == v;
        let f = c / 3;
        let other = if c == 3 * f {
            indices[3 * f + 1]
        } else {
            indices[3 * f]
        };
        assert(face_joins(indices, f, v, other));
        assert(neighbors(indices, v).contains(other));
    } else {
        assert forall|b: u32| !neighbors(indices, v).contains(b) by {
            if adjacent(indices, v, b) {
                let f = choose|f: int| 0 <= f < faces && #[trigger] face_joins(indices, f, v, b);
                assert(indices[3 * f] == v || indices[3 * f + 1] == v || indices[3 * f + 2] == v);
            }
        }
        assert(neighbors(indices, v) =~= Set::<u32>::empty());
    }
}

/// Whether triangle `f` of `indices` occurs, with the same corners, in `others`.
pub open spec fn triangle_occurs_in(indices: Seq<u32>, f: int, others: Seq<u32>) -> bool {
    exists|g: int|
        0 <= g < others.len() as int / 3 && #[trigger] same_triangle(indices, f, others, g)
}

/// Whether every triangle of `indices` occurs in `others`.
pub open spec fn triangles_within(indices: Seq<u32>, others: Seq<u32>) -> bool {
    forall|f: int|
        0 <= f < indices.len() as int / 3 ==> #[trigger] triangle_occurs_in(indices, f, others)
}

/// Whether triangle `f` of `indices` and triangle `g` of `others` have the same corners.
pub open spec fn same_triangle(indices: Seq<u32>, f: int, others: Seq<u32>, g: int) -> bool {
    &&& indices[3 * f] == others[3 * g]
    &&& indices[3 * f + 1] == others[3 * g + 1]
    &&& indices[3 * f + 2] == others[3 * g + 2]
}

/// Neighborhoods depend on which triangles a mesh has, not on the order in which they are
/// listed nor on how often one is repeated.
pub proof fn lemma_neighbors_ignore_face_order(indices: Seq<u32>, others: Seq<u32>, v: int)
    requires
        triangles_within(indices, others),
        triangles_within(others, indices),
    ensures
        neighbors(indices, v) == neighbors(others, v),
{
    assert forall|b: u32| neighbors(indices, v).contains(b) <==> neighbors(others, v).contains(
        b,
    ) by {
        if adjacent(indices, v, b) {
            let f = choose|f: int|
                0 <= f < indices.len() as int / 3 && #[trigger] face_joins(indices, f, v, b);
            assert(triangle_occurs_in(indices, f, others));
            let g = choose|g: int|
                0 <= g < others.len() as int / 3 && #[trigger] same_triangle(indices, f, others, g);
            assert(face_joins(others, g, v, b));
        }
        if adjacent(others, v, b) {
            let f = choose|f: int|
                0 <= f < others.len() as int / 3 && #[trigger] face_joins(others, f, v, b);
            assert(triangle_occurs_in(others, f, indices));
            let g = choose|g: int|
                0 <= g < indices.len() as int / 3 && #[trigger] same_triangle(others, f, indices, g);
            assert(face_joins(indices, g, v, b));
        }
    }
    assert(neighbors(indices, v) =~= neighbors(others, v));
}

/// Makes `b` a member of the set kept for vertex `a` and leaves every other set alone.
fn link(sets: &mut Vec<BTreeSet<u32>>, a: u32, b: u32)
    requires
        a < old(sets).len(),
    ensures
        final(sets).len() == old(sets).len(),
        forall|v: int|
            0 <= v < old(sets).len() ==> (#[trigger] final(sets)[v])@ == if v == a {
                old(sets)[v]@.insert(b)
            } else {
                old(sets)[v]@
            },
{
    sets[a as usize].insert(b);
}

/// Records the adjacencies of one triangle with corners `p`, `q`, `r`.
fn link_triangle(sets: &mut Vec<BTreeSet<u32>>, p: u32, q: u32, r: u32)
    requires
        p < old(sets).len(),
        q < old(sets).len(),
        r < old(sets).len(),
    ensures
        final(sets).len() == old(sets).len(),
        forall|v: int, b: u32|
            0 <= v < old(sets).len() ==> ((#[trigger] final(sets)[v]@.contains(b)) <==> old(
                sets,
            )[v]@.contains(b) || triangle_joins(p, q, r, v, b)),
{
    link(sets, p, q);
    link(sets, p, r);
    let ghost after_p = sets@;
    link(sets, q, p);
    link(sets, q, r);
    let ghost after_q = sets@;
    link(sets, r, p);
    link(sets, r, q);
    assert forall|v: int, b: u32| 0 <= v < old(sets).len() implies ((#[trigger] sets[v]@.contains(
        b,
    )) <==> old(sets)[v]@.contains(b) || triangle_joins(p, q, r, v, b)) by {
        assert(after_p[v]@.contains(b) <==> old(sets)[v]@.contains(b) || (v == p && (b == q || b
            == r)));
        assert(after_q[v]@.contains(b) <==> after_p[v]@.contains(b) || (v == q && (b == p || b
            == r)));
    }
}

/// Computes the neighborhood of every vertex.
///
/// Entry `v` of the result is the set of vertices that share a triangle with vertex `v`;
/// a vertex that no triangle mentions gets the empty set. Walking a set visits its members
/// by increasing vertex index.
pub fn compute_neighborhoods(mesh: &Mesh) -> (nbhds: Vec<BTreeSet<u32>>)
    ensures
        nbhds.len() == mesh@.vertex_count,
        forall|v: int|
            0 <= v < nbhds.len() ==> (#[trigger] nbhds[v])@ == neighbors(mesh@.indices, v),
        forall|v: int| 0 <= v < nbhds.len() ==> (#[trigger] nbhds[v])@.finite(),
        forall|a: u32, b: u32|
            a < nbhds.len() && (#[trigger] nbhds[a as int]@.contains(b)) ==> b < nbhds.len()
                && nbhds[b as int]@.contains(a),
{
    proof {
        use_type_invariant(mesh);
    }
    let indices = mesh.indices();
    let n = mesh.vertex_count();
    let faces = mesh.face_count();
    let mut nbhds: Vec<BTreeSet<u32>> = Vec::new();
    let mut v: usize = 0;
    while v < n
        invariant
            v <= n,
            nbhds.len() == v,
            forall|k: int| 0 <= k < v ==> (#[trigger] nbhds[k])@ == Set::<u32>::empty(),
        decreases n - v,
    {
        nbhds.push(BTreeSet::new());
        v = v + 1;
    }
    assert forall|k: int| 0 <= k < n implies (#[trigger] nbhds[k])@ == neighbors_within(
        indices@,
        0,
        k,
    ) by {
        assert(neighbors_within(indices@, 0, k) =~= Set::<u32>::empty());
    }
    let mut f: usize = 0;
    while f < faces
        invariant
            f <= faces,
            3 * faces <= indices.len(),
            faces == indices@.len() / 3,
            indices@ == mesh@.indices,
            n == mesh@.vertex_count,
            mesh@.well_formed(),
            nbhds.len() == n,
            forall|k: int|
                0 <= k < n ==> (#[trigger] nbhds[k])@ == neighbors_within(indices@, f as int, k),
        decreases faces - f,
    {
        let p = indices[3 * f];
        let q = indices[3 * f + 1];
        let r = indices[3 * f + 2];
        let ghost before = nbhds@;
        link_triangle(&mut nbhds, p, q, r);
        assert forall|k: int| 0 <= k < n implies (#[trigger] nbhds[k])@ == neighbors_within(
            indices@,
            f + 1,
            k,
        ) by {
            assert forall|b: u32|
                adjacent_within(indices@, f + 1, k, b) <==> adjacent_within(indices@, f as int, k, b)
                    || face_joins(indices@, f as int, k, b) by {
                if adjacent_within(indices@, f + 1, k, b) {
                    let g = choose|g: int| 0 <= g < f + 1 && #[trigger] face_joins(indices@, g, k, b);
                    if g < f {
                        assert(adjacent_within(indices@, f as int, k, b));
                    }
                }
                if adjacent_within(indices@, f as int, k, b) {
                    let g = choose|g: int| 0 <= g < f && #[trigger] face_joins(indices@, g, k, b);
                    assert(0 <= g < f + 1);
                }
            }
            assert forall|b: u32|
                nbhds[k]@.contains(b) <==> neighbors_within(indices@, f + 1, k).contains(b) by {
                assert(before[k]@.contains(b) <==> adjacent_within(indices@, f as int, k, b));
            }
            assert(nbhds[k]@ =~= neighbors_within(indices@, f + 1, k));
        }
        f = f + 1;
    }
    proof {
        assert forall|k: int| 0 <= k < nbhds.len() implies (#[trigger] nbhds[k])@ == neighbors(
            mesh@.indices,
            k,
        ) by {
            assert(neighbors_within(indices@, faces as int, k) =~= neighbors(mesh@.indices, k));
        }
        assert forall|k: int| 0 <= k < nbhds.len() implies (#[trigger] nbhds[k])@.finite() by {
            lemma_neighbors_finite(mesh@.indices, k);
        }
        assert forall|a: u32, b: u32|
            a < nbhds.len() && (#[trigger] nbhds[a as int]@.contains(b)) implies b < nbhds.len()
            && nbhds[b as int]@.contains(a) by {
            lemma_neighbors_in_range(mesh@, a as int, b);
            lemma_neighbors_symmetric(mesh@.indices, a, b);
        }
    }
    nbhds
}

} // verus!
