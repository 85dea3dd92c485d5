use mesh_curvature::mesh::Mesh;
use mesh_curvature::neighborhood::compute_neighborhoods;
use mesh_curvature::normals::gather_incident_normals;

#[test]
fn one_normal_per_corner_in_corner_order() {
    let mesh = Mesh::new(4, 6, vec![0, 1, 2, 2, 1, 3], vec![5, 4, 3, 2, 1, 0]).unwrap();
    let incident = gather_incident_normals(&mesh);
    assert_eq!(incident, vec![vec![5], vec![4, 1], vec![3, 2], vec![0]]);
}

#[test]
fn the_same_normal_may_be_counted_more_than_once() {
    let mesh = Mesh::new(3, 1, vec![0, 1, 2, 0, 2, 1], vec![0, 0, 0, 0, 0, 0]).unwrap();
    let incident = gather_incident_normals(&mesh);
    assert_eq!(incident, vec![vec![0, 0], vec![0, 0], vec![0, 0]]);
}

#[test]
fn a_vertex_repeated_in_a_triangle_collects_both_corners() {
    let mesh = Mesh::new(2, 3, vec![0, 0, 1], vec![2, 1, 0]).unwrap();
    let incident = gather_incident_normals(&mesh);
    assert_eq!(incident, vec![vec![2, 1], vec![0]]);
}

#[test]
fn unreferenced_vertices_have_no_normal() {
    let mesh = Mesh::new(5, 2, vec![1, 2, 4], vec![0, 1, 0]).unwrap();
    let incident = gather_incident_normals(&mesh);
    assert_eq!(incident, vec![vec![], vec![0], vec![1], vec![], vec![0]]);
}

#[test]
fn sample_counts_add_up_to_the_corner_count() {
    let indices = vec![0, 1, 2, 0, 2, 3, 0, 3, 4, 0, 4, 1];
    let normals = vec![0, 1, 2, 3, 4, 5, 6, 7, 8, 9, 10, 11];
    let mesh = Mesh::new(6, 12, indices, normals).unwrap();
    let incident = gather_incident_normals(&mesh);
    assert_eq!(incident.len(), 6);
    assert_eq!(incident.iter().map(|n| n.len()).sum::<usize>(), 12);
    assert_eq!(incident[0], vec![0, 3, 6, 9]);
    for normals in &incident {
        for &n in normals {
            assert!((n as usize) < mesh.normal_count());
        }
    }
}

#[test]
fn no_normal_exactly_where_no_neighbor() {
    let mesh = Mesh::new(7, 1, vec![0, 1, 2, 4, 4, 4], vec![0; 6]).unwrap();
    let incident = gather_incident_normals(&mesh);
    let nbhds = compute_neighborhoods(&mesh);
    for v in 0..mesh.vertex_count() {
        assert_eq!(incident[v].is_empty(), nbhds[v].is_empty(), "vertex {v}");
    }
    assert!(incident[3].is_empty());
    assert_eq!(incident[4], vec![0, 0, 0]);
}
