use mesh_curvature::mesh::Mesh;
use mesh_curvature::neighborhood::compute_neighborhoods;
use std::collections::BTreeSet;

fn set(members: &[u32]) -> BTreeSet<u32> {
    members.iter().copied().collect()
}

fn mesh_of(vertex_count: usize, indices: Vec<u32>) -> Mesh {
    let normals = vec![0; indices.len()];
    Mesh::new(vertex_count, 1, indices, normals).expect("well formed")
}

#[test]
fn single_triangle_links_every_pair() {
    let nbhds = compute_neighborhoods(&mesh_of(3, vec![0, 1, 2]));
    assert_eq!(nbhds, vec![set(&[1, 2]), set(&[0, 2]), set(&[0, 1])]);
}

#[test]
fn two_triangles_sharing_an_edge() {
    let nbhds = compute_neighborhoods(&mesh_of(4, vec![0, 1, 2, 2, 1, 3]));
    assert_eq!(
        nbhds,
        vec![set(&[1, 2]), set(&[0, 2, 3]), set(&[0, 1, 3]), set(&[1, 2])]
    );
}

#[test]
fn unreferenced_vertices_get_the_empty_set() {
    let nbhds = compute_neighborhoods(&mesh_of(6, vec![1, 3, 4]));
    assert_eq!(nbhds.len(), 6);
    assert!(nbhds[0].is_empty());
    assert!(nbhds[2].is_empty());
    assert!(nbhds[5].is_empty());
    assert_eq!(nbhds[1], set(&[3, 4]));
    assert_eq!(nbhds[3], set(&[1, 4]));
    assert_eq!(nbhds[4], set(&[1, 3]));
}

#[test]
fn mesh_without_faces_has_only_empty_sets() {
    let nbhds = compute_neighborhoods(&mesh_of(3, vec![]));
    assert_eq!(nbhds, vec![set(&[]), set(&[]), set(&[])]);
}

#[test]
fn mesh_without_vertices_has_no_sets() {
    let nbhds = compute_neighborhoods(&mesh_of(0, vec![]));
    assert!(nbhds.is_empty());
}

#[test]
fn repeated_faces_do_not_duplicate_neighbors() {
    let nbhds = compute_neighborhoods(&mesh_of(3, vec![0, 1, 2, 2, 0, 1, 0, 1, 2]));
    assert_eq!(nbhds, vec![set(&[1, 2]), set(&[0, 2]), set(&[0, 1])]);
}

#[test]
fn a_vertex_repeated_in_a_triangle_neighbors_itself() {
    let nbhds = compute_neighborhoods(&mesh_of(2, vec![0, 0, 1]));
    assert_eq!(nbhds, vec![set(&[0, 1]), set(&[0])]);
}

#[test]
fn adjacency_is_symmetric_on_a_fan() {
    // Six triangles around vertex 0, plus a stray triangle.
    let indices = vec![
        0, 1, 2, 0, 2, 3, 0, 3, 4, 0, 4, 5, 0, 5, 6, 0, 6, 1, 7, 8, 9,
    ];
    let nbhds = compute_neighborhoods(&mesh_of(11, indices));
    for (a, nbhd) in nbhds.iter().enumerate() {
        for &b in nbhd {
            assert!((b as usize) < nbhds.len());
            assert!(nbhds[b as usize].contains(&(a as u32)), "{a} -> {b}");
        }
    }
    assert_eq!(nbhds[0], set(&[1, 2, 3, 4, 5, 6]));
    assert_eq!(nbhds[1], set(&[0, 2, 6]));
    assert!(nbhds[10].is_empty());
}

#[test]
fn neighborhoods_do_not_depend_on_face_order() {
    let one = compute_neighborhoods(&mesh_of(5, vec![0, 1, 2, 2, 3, 4, 1, 4, 0]));
    let other = compute_neighborhoods(&mesh_of(5, vec![4, 0, 1, 1, 2, 0, 3, 4, 2]));
    assert_eq!(one, other);
}
