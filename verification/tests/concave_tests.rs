use openmodel::mesh::Mesh;
use openmodel::point::Point3;
use openmodel::point::SoupPoint;

const PRECISION: f64 = 1e-10;

fn q(c: f64) -> i64 {
    (c / PRECISION).round() as i64
}

fn sp(x: f64, y: f64, z: f64) -> SoupPoint {
    SoupPoint::new(Point3::new(x.to_bits(), y.to_bits(), z.to_bits()), q(x), q(y), q(z))
}

fn poly(coords: &[(f64, f64, f64)]) -> Vec<SoupPoint> {
    coords.iter().map(|&(x, y, z)| sp(x, y, z)).collect()
}

#[test]
fn test_concave_polygon_earclip() {
    let concave_polygon = poly(&[
        (0.0, 0.0, 0.0),
        (0.2, 0.0, 0.0),
        (0.3, 0.1, 0.0),
        (0.2, 0.2, 0.0),
        (0.1, 0.15, 0.0),
        (0.0, 0.25, 0.0),
        (0.1, 0.4, 0.0),
        (0.3, 0.5, 0.0),
        (0.4, 0.6, 0.0),
        (0.3, 0.7, 0.0),
        (0.2, 0.65, 0.0),
        (0.1, 0.75, 0.0),
        (0.3, 0.8, 0.0),
        (0.6, 0.85, 0.0),
        (0.8, 0.9, 0.0),
        (1.0, 0.8, 0.0),
        (1.0, 0.6, 0.0),
        (0.9, 0.5, 0.0),
        (0.8, 0.6, 0.0),
        (0.7, 0.55, 0.0),
        (0.6, 0.4, 0.0),
        (0.8, 0.3, 0.0),
        (0.9, 0.2, 0.0),
        (1.0, 0.1, 0.0),
        (0.8, 0.0, 0.0),
        (0.6, 0.0, 0.0),
        (0.4, 0.0, 0.0),
    ]);

    let mesh = Mesh::from_polygon_earclip(concave_polygon);

    assert!(!mesh.is_empty());
    assert_eq!(mesh.number_of_vertices(), 27);
    assert_eq!(mesh.number_of_faces(), 25);
    assert_eq!(mesh.number_of_edges(), 51);
    assert_eq!(mesh.euler(), 1); // V - E + F = 27 - 51 + 25 = 1

    for vertex_key in mesh.vertex.keys_vec() {
        assert!(mesh.is_vertex_on_boundary(vertex_key));
    }

    for (_, vertices) in mesh.get_face_data() {
        assert_eq!(vertices.len(), 3);
    }
}

#[test]
fn test_simple_triangle_earclip() {
    let triangle = poly(&[(0.0, 0.0, 0.0), (1.0, 0.0, 0.0), (0.0, 1.0, 0.0)]);
    let mesh = Mesh::from_polygon_earclip(triangle);

    assert!(!mesh.is_empty());
    assert_eq!(mesh.number_of_vertices(), 3);
    assert_eq!(mesh.number_of_faces(), 1);
    assert_eq!(mesh.number_of_edges(), 3);
    assert_eq!(mesh.euler(), 1);
}

#[test]
fn test_square_earclip() {
    let square = poly(&[(0.0, 0.0, 0.0), (1.0, 0.0, 0.0), (1.0, 1.0, 0.0), (0.0, 1.0, 0.0)]);
    let mesh = Mesh::from_polygon_earclip(square);

    assert!(!mesh.is_empty());
    assert_eq!(mesh.number_of_vertices(), 4);
    assert_eq!(mesh.number_of_faces(), 2);
    assert_eq!(mesh.number_of_edges(), 5);
    assert_eq!(mesh.euler(), 1);
}

#[test]
fn test_pentagon_earclip() {
    let pentagon = poly(&[
        (0.5, 0.0, 0.0),
        (1.0, 0.4, 0.0),
        (0.8, 1.0, 0.0),
        (0.2, 1.0, 0.0),
        (0.0, 0.4, 0.0),
    ]);
    let mesh = Mesh::from_polygon_earclip(pentagon);

    assert!(!mesh.is_empty());
    assert_eq!(mesh.number_of_vertices(), 5);
    assert_eq!(mesh.number_of_faces(), 3);
    assert_eq!(mesh.number_of_edges(), 7);
    assert_eq!(mesh.euler(), 1);
}

#[test]
fn test_concave_polygon_with_holes() {
    let complex_polygon = poly(&[
        (0.0, 0.0, 0.0),
        (0.3, 0.0, 0.0),
        (0.4, 0.2, 0.0),
        (0.2, 0.3, 0.0),
        (0.1, 0.2, 0.0),
        (0.0, 0.4, 0.0),
        (0.2, 0.6, 0.0),
        (0.5, 0.7, 0.0),
        (0.8, 0.8, 0.0),
        (1.0, 0.6, 0.0),
        (1.0, 0.3, 0.0),
        (0.8, 0.2, 0.0),
        (0.7, 0.0, 0.0),
        (0.5, 0.0, 0.0),
    ]);

    let mesh = Mesh::from_polygon_earclip(complex_polygon);

    assert!(!mesh.is_empty());
    assert_eq!(mesh.number_of_vertices(), 14);
    assert_eq!(mesh.number_of_faces(), 12);
    assert_eq!(mesh.number_of_edges(), 25);
    assert_eq!(mesh.euler(), 1);

    for (_, vertices) in mesh.get_face_data() {
        assert_eq!(vertices.len(), 3);
    }
}

#[test]
fn test_cross_concave_polygon_earclip() {
    let cross_polygon = poly(&[
        (0.3, 0.0, 0.0),
        (0.7, 0.0, 0.0),
        (0.7, 0.3, 0.0),
        (0.8, 0.3, 0.0),
        (0.8, 0.7, 0.0),
        (0.7, 0.7, 0.0),
        (0.7, 1.0, 0.0),
        (0.3, 1.0, 0.0),
        (0.3, 0.7, 0.0),
        (0.2, 0.7, 0.0),
        (0.2, 0.3, 0.0),
        (0.3, 0.3, 0.0),
    ]);

    let mesh = Mesh::from_polygon_earclip(cross_polygon);

    assert!(!mesh.is_empty());
    assert_eq!(mesh.number_of_vertices(), 12);
    assert_eq!(mesh.number_of_faces(), 10);
    assert_eq!(mesh.number_of_edges(), 21);
    assert_eq!(mesh.euler(), 1);

    for vertex_key in mesh.vertex.keys_vec() {
        assert!(mesh.is_vertex_on_boundary(vertex_key));
    }

    for (_, vertices) in mesh.get_face_data() {
        assert_eq!(vertices.len(), 3);
    }
}

#[test]
fn test_edge_extraction() {
    let concave_polygon = poly(&[
        (0.0, 0.0, 0.0),
        (1.0, 0.0, 0.0),
        (0.5, 0.5, 0.0),
        (0.0, 1.0, 0.0),
    ]);

    let mesh = Mesh::from_polygon_earclip(concave_polygon);

    // Extract edges as endpoint pairs: 4 boundary edges + 1 diagonal.
    let edges = mesh.extract_edges_as_lines();
    assert_eq!(edges.len(), 5);
}
