//! Which normals meet at each vertex.
//!
//! A vertex may carry a different normal in every triangle that touches it. Its
//! representative normal is the normalized mean of all of them, each corner counting once;
//! this module gathers, per vertex, the normals to be averaged and their number.

use crate::mesh::{Mesh, MeshView};
use crate::neighborhood::{lemma_isolated_iff_unreferenced, neighbors, referenced};
use vstd::prelude::*;

verus! {

/// The normals attached to vertex `v` at the first `corners` corners, in corner order.
pub open spec fn normals_within(
    indices: Seq<u32>,
    normal_indices: Seq<u32>,
    corners: nat,
    v: int,
) -> Seq<u32>
    decreases corners,
{
    if corners == 0 {
        Seq::empty()
    } else {
        let c = corners - 1;
        let earlier = normals_within(indices, normal_indices, c as nat, v);
        if indices[c] == v {
            earlier.push(normal_indices[c])
        } else {
            earlier
        }
    }
}

/// The normals that meet at vertex `v`: one entry for every corner that names `v`, in
/// corner order. Its length is the sample count of the vertex.
pub open spec fn normals_at(mesh: MeshView, v: int) -> Seq<u32> {
    normals_within(mesh.indices, mesh.normal_indices, mesh.indices.len(), v)
}

/// Every normal gathered from the first `corners` corners is the normal of one of them
/// that names `v`, and there is one exactly when such a corner exists.
proof fn lemma_normals_within_members(
    indices: Seq<u32>,
    normal_indices: Seq<u32>,
    corners: nat,
    v: int,
)
    ensures
        forall|k: int|
            0 <= k < normals_within(indices, normal_indices, corners, v).len() ==> exists|c: int|
                0 <= c < corners && indices[c] == v && #[trigger] normal_indices[c]
                    == #[trigger] normals_within(indices, normal_indices, corners, v)[k],
        normals_within(indices, normal_indices, corners, v).len() > 0 <==> exists|c: int|
            0 <= c < corners && #[trigger] indices[c] == v,
    decreases corners,
{
    if corners > 0 {
        let c = corners - 1;
        let earlier = normals_within(indices, normal_indices, c as nat, v);
        let all = normals_within(indices, normal_indices, corners, v);
        lemma_normals_within_members(indices, normal_indices, c as nat, v);
        assert forall|k: int| 0 <= k < all.len() implies exists|d: int|
            0 <= d < corners && indices[d] == v && #[trigger] normal_indices[d] == #[trigger] all[k] by {
            if k < earlier.len() {
                let d = choose|d: int|
                    0 <= d < c && indices[d] == v && #[trigger] normal_indices[d] == earlier[k];
                assert(0 <= d < corners && indices[d] == v && normal_indices[d] == all[k]);
            } else {
                assert(0 <= c < corners && indices[c] == v && normal_indices[c] == all[k]);
            }
        }
        if all.len() > 0 {
            if earlier.len() > 0 {
                let d = choose|d: int| 0 <= d < c && #[trigger] indices[d] == v;
                assert(0 <= d < corners && indices[d] == v);
            } else {
                assert(0 <= c < corners && indices[c] == v);
            }
        }
        if exists|d: int| 0 <= d < corners && #[trigger] indices[d] == v {
            let d = choose|d: int| 0 <= d < corners && #[trigger] indices[d] == v;
            if d < c {
                assert(earlier.len() > 0);
            }
        }
    }
}

/// In a well-formed mesh every normal gathered at a vertex exists.
pub proof fn lemma_normals_in_range(mesh: MeshView, v: int, k: int)
    requires
        mesh.well_formed(),
        0 <= k < normals_at(mesh, v).len(),
    ensures
        normals_at(mesh, v)[k] < mesh.normal_count,
{
    lemma_normals_within_members(mesh.indices, mesh.normal_indices, mesh.indices.len(), v);
    let c = choose|c: int|
        0 <= c < mesh.indices.len() && mesh.indices[c] == v && #[trigger] mesh.normal_indices[c]
            == normals_at(mesh, v)[k];
    assert(mesh.normal_indices[c] < mesh.normal_count);
}

/// In a well-formed mesh a vertex has no normal to average exactly when it has no
/// neighbor: the vertices without a representative normal are those without a tangent
/// frame.
pub proof fn lemma_no_normal_iff_no_neighbor(mesh: MeshView, v: int)
    requires
        mesh.well_formed(),
    ensures
        normals_at(mesh, v).len() == 0 <==> neighbors(mesh.indices, v) == Set::<u32>::empty(),
{
    lemma_normals_within_members(mesh.indices, mesh.normal_indices, mesh.indices.len(), v);
    lemma_isolated_iff_unreferenced(mesh.indices, v);
    let corners = mesh.indices.len() as int;
    assert(3 * (corners / 3) == corners);
    if referenced(mesh.indices, v) {
        let c = choose|c: int| 0 <= c < 3 * (corners / 3) && #[trigger] mesh.indices[c] == v;
        assert(0 <= c < mesh.indices.len() && mesh.indices[c] == v);
    }
    if normals_at(mesh, v).len() > 0 {
        let c = choose|c: int| 0 <= c < mesh.indices.len() && #[trigger] mesh.indices[c] == v;
        assert(0 <= c < 3 * (corners / 3) && mesh.indices[c] == v);
    }
}

/// The number of samples that the first `corners` corners contribute to the first
/// `vertices` vertices together.
pub open spec fn samples_within(
    indices: Seq<u32>,
    normal_indices: Seq<u32>,
    corners: nat,
    vertices: nat,
) -> nat
    decreases vertices,
{
    if vertices == 0 {
        0
    } else {
        let v = vertices - 1;
        samples_within(indices, normal_indices, corners, v as nat) + normals_within(
            indices,
            normal_indices,
            corners,
            v,
        ).len()
    }
}

/// The number of samples of all vertices of the mesh together.
pub open spec fn sample_total(mesh: MeshView) -> nat {
    samples_within(mesh.indices, mesh.normal_indices, mesh.indices.len(), mesh.vertex_count)
}

/// One more corner adds one sample to the vertex it names and none to any other.
proof fn lemma_corner_adds_one_sample(
    indices: Seq<u32>,
    normal_indices: Seq<u32>,
    corners: nat,
    vertices: nat,
)
    ensures
        samples_within(indices, normal_indices, corners + 1, vertices) == samples_within(
            indices,
            normal_indices,
            corners,
            vertices,
        ) + if indices[corners as int] < vertices {
            1nat
        } else {
            0nat
        },
    decreases vertices,
{
    if vertices > 0 {
        lemma_corner_adds_one_sample(indices, normal_indices, corners, (vertices - 1) as nat);
    }
}

/// Without corners there are no samples.
proof fn lemma_no_corner_no_sample(indices: Seq<u32>, normal_indices: Seq<u32>, vertices: nat)
    ensures
        samples_within(indices, normal_indices, 0, vertices) == 0,
    decreases vertices,
{
    if vertices > 0 {
        lemma_no_corner_no_sample(indices, normal_indices, (vertices - 1) as nat);
    }
}

/// The first `corners` corners contribute exactly `corners` samples.
proof fn lemma_samples_within(mesh: MeshView, corners: nat)
    requires
        mesh.well_formed(),
        corners <= mesh.indices.len(),
    ensures
        samples_within(mesh.indices, mesh.normal_indices, corners, mesh.vertex_count) == corners,
    decreases corners,
{
    if corners == 0 {
        lemma_no_corner_no_sample(mesh.indices, mesh.normal_indices, mesh.vertex_count);
    } else {
        let c = (corners - 1) as nat;
        lemma_samples_within(mesh, c);
        lemma_corner_adds_one_sample(mesh.indices, mesh.normal_indices, c, mesh.vertex_count);
        assert(mesh.indices[c as int] < mesh.vertex_count);
    }
}

/// In a well-formed mesh every corner is sampled exactly once: the sample counts of all
/// vertices add up to the number of corners.
pub proof fn lemma_every_corner_is_sampled_once(mesh: MeshView)
    requires
        mesh.well_formed(),
    ensures
        sample_total(mesh) == mesh.indices.len(),
{
    lemma_samples_within(mesh, mesh.indices.len());
}

/// Gathers, for every vertex, the normals that meet at it.
///
/// Entry `v` of the result lists the normal of every corner that names vertex `v`, in
/// corner order, so its length is the number of samples to average. An empty entry marks a
/// vertex without a representative normal.
pub fn gather_incident_normals(mesh: &Mesh) -> (incident: Vec<Vec<u32>>)
    ensures
        incident.len() == mesh@.vertex_count,
        forall|v: int| 0 <= v < incident.len() ==> (#[trigger] incident[v])@ == normals_at(mesh@, v),
        forall|v: int, k: int|
            0 <= v < incident.len() && 0 <= k < incident[v].len() ==> (#[trigger] incident[v][k])
                < mesh@.normal_count,
{
    proof {
        use_type_invariant(mesh);
    }
    let indices = mesh.indices();
    let normal_indices = mesh.normal_indices();
    let n = mesh.vertex_count();
    let mut incident: Vec<Vec<u32>> = Vec::new();
    let mut v: usize = 0;
    while v < n
        invariant
            v <= n,
            incident.len() == v,
            forall|k: int| 0 <= k < v ==> (#[trigger] incident[k])@ == Seq::<u32>::empty(),
        decreases n - v,
    {
        incident.push(Vec::new());
        v = v + 1;
    }
    let mut c: usize = 0;
    while c < indices.len()
        invariant
            c <= indices.len(),
            indices@ == mesh@.indices,
            normal_indices@ == mesh@.normal_indices,
            n == mesh@.vertex_count,
            mesh@.well_formed(),
            incident.len() == n,
            forall|k: int|
                0 <= k < n ==> (#[trigger] incident[k])@ == normals_within(
                    indices@,
                    normal_indices@,
                    c as nat,
                    k,
                ),
        decreases indices.len() - c,
    {
        let at = indices[c];
        let normal = normal_indices[c];
        incident[at as usize].push(normal);
        c = c + 1;
    }
    proof {
        assert forall|v: int, k: int|
            0 <= v < incident.len() && 0 <= k < incident[v].len() implies (#[trigger] incident[v][k])
            < mesh@.normal_count by {
            lemma_normals_in_range(mesh@, v, k);
        }
    }
    incident
}

} // verus!
