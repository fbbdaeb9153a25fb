use openmodel::mesh::Mesh;
use openmodel::point::Point3;

fn pt(x: f64, y: f64, z: f64) -> Point3 {
    Point3::new(x.to_bits(), y.to_bits(), z.to_bits())
}

#[test]
fn test_extract_edges_as_lines_triangle() {
    let mut mesh = Mesh::new();
    let v0 = mesh.add_vertex(pt(0.0, 0.0, 0.0), None);
    let v1 = mesh.add_vertex(pt(1.0, 0.0, 0.0), None);
    let v2 = mesh.add_vertex(pt(0.0, 1.0, 0.0), None);
    mesh.add_face(vec![v0, v1, v2], None);

    let edges = mesh.extract_edges_as_lines();

    // Triangle should have exactly 3 unique edges
    assert_eq!(edges.len(), 3);

    // Verify that each edge connects two different vertices
    for (start, end) in &edges {
        assert_ne!(start, end);
    }
}

#[test]
fn test_extract_edges_as_lines_square() {
    let mut mesh = Mesh::new();
    let v0 = mesh.add_vertex(pt(0.0, 0.0, 0.0), None);
    let v1 = mesh.add_vertex(pt(1.0, 0.0, 0.0), None);
    let v2 = mesh.add_vertex(pt(1.0, 1.0, 0.0), None);
    let v3 = mesh.add_vertex(pt(0.0, 1.0, 0.0), None);

    mesh.add_face(vec![v0, v1, v2], None);
    mesh.add_face(vec![v0, v2, v3], None);

    let edges = mesh.extract_edges_as_lines();

    // Square should have exactly 5 unique edges (4 outer + 1 diagonal)
    assert_eq!(edges.len(), 5);
}

#[test]
fn test_extract_edges_empty_mesh() {
    let mesh = Mesh::new();
    let edges = mesh.extract_edges_as_lines();
    assert_eq!(edges.len(), 0);
}

#[test]
fn test_extract_edges_no_duplicates() {
    let mut mesh = Mesh::new();
    let v0 = mesh.add_vertex(pt(0.0, 0.0, 0.0), None);
    let v1 = mesh.add_vertex(pt(1.0, 0.0, 0.0), None);
    let v2 = mesh.add_vertex(pt(0.5, 1.0, 0.0), None);
    let v3 = mesh.add_vertex(pt(0.5, -1.0, 0.0), None);

    // Two triangles sharing the first edge
    mesh.add_face(vec![v0, v1, v2], None);
    mesh.add_face(vec![v0, v1, v3], None);

    let edges = mesh.extract_edges_as_lines();

    // 5 unique edges in total: the shared edge counts once
    assert_eq!(edges.len(), 5);
}
