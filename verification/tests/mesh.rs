use mesh_curvature::mesh::Mesh;

#[test]
fn accepts_a_single_triangle() {
    let mesh = Mesh::new(3, 1, vec![0, 1, 2], vec![0, 0, 0]).expect("well formed");
    assert_eq!(mesh.vertex_count(), 3);
    assert_eq!(mesh.normal_count(), 1);
    assert_eq!(mesh.face_count(), 1);
    assert_eq!(mesh.indices(), &vec![0, 1, 2]);
    assert_eq!(mesh.normal_indices(), &vec![0, 0, 0]);
}

#[test]
fn accepts_the_empty_mesh() {
    let mesh = Mesh::new(0, 0, vec![], vec![]).expect("well formed");
    assert_eq!(mesh.vertex_count(), 0);
    assert_eq!(mesh.face_count(), 0);
}

#[test]
fn accepts_vertices_that_no_face_mentions() {
    let mesh = Mesh::new(10, 4, vec![7, 8, 9], vec![3, 3, 3]).expect("well formed");
    assert_eq!(mesh.vertex_count(), 10);
    assert_eq!(mesh.face_count(), 1);
}

#[test]
fn rejects_corner_lists_of_different_length() {
    assert!(Mesh::new(3, 1, vec![0, 1, 2], vec![0, 0]).is_none());
    assert!(Mesh::new(3, 1, vec![0, 1, 2], vec![]).is_none());
}

#[test]
fn rejects_an_incomplete_face() {
    assert!(Mesh::new(3, 1, vec![0, 1], vec![0, 0]).is_none());
    assert!(Mesh::new(3, 1, vec![0, 1, 2, 0], vec![0, 0, 0, 0]).is_none());
}

#[test]
fn rejects_a_vertex_index_out_of_range() {
    assert!(Mesh::new(3, 1, vec![0, 1, 3], vec![0, 0, 0]).is_none());
    assert!(Mesh::new(0, 1, vec![0, 0, 0], vec![0, 0, 0]).is_none());
}

#[test]
fn rejects_a_normal_index_out_of_range() {
    assert!(Mesh::new(3, 1, vec![0, 1, 2], vec![0, 1, 0]).is_none());
    assert!(Mesh::new(3, 0, vec![0, 1, 2], vec![0, 0, 0]).is_none());
}

#[test]
fn index_just_below_the_count_is_in_range() {
    assert!(Mesh::new(3, 2, vec![2, 2, 2], vec![1, 1, 1]).is_some());
}
