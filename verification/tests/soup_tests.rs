use openmodel::mesh::Mesh;
use openmodel::point::Point3;
use openmodel::point::SoupPoint;

fn qp(c: f64, precision: f64) -> i64 {
    (c / precision).round() as i64
}

fn sp(x: f64, y: f64, z: f64, precision: f64) -> SoupPoint {
    SoupPoint::new(
        Point3::new(x.to_bits(), y.to_bits(), z.to_bits()),
        qp(x, precision),
        qp(y, precision),
        qp(z, precision),
    )
}

fn poly(coords: &[(f64, f64, f64)], precision: f64) -> Vec<SoupPoint> {
    coords.iter().map(|&(x, y, z)| sp(x, y, z, precision)).collect()
}

const DEFAULT: f64 = 1e-10;

#[test]
fn test_from_polygons_simple() {
    let triangle = poly(&[(0.0, 0.0, 0.0), (1.0, 0.0, 0.0), (0.0, 1.0, 0.0)], DEFAULT);
    let mesh = Mesh::from_polygons(vec![triangle]);
    assert_eq!(mesh.number_of_vertices(), 3);
    assert_eq!(mesh.number_of_faces(), 1);
    assert_eq!(mesh.number_of_edges(), 3);
}

#[test]
fn test_from_polygons_vertex_merging() {
    let triangle1 = poly(&[(0.0, 0.0, 0.0), (1.0, 0.0, 0.0), (0.0, 1.0, 0.0)], DEFAULT);
    let triangle2 = poly(
        &[
            (1.0, 0.0, 0.0), // Shared vertex
            (0.0, 1.0, 0.0), // Shared vertex
            (1.0, 1.0, 0.0),
        ],
        DEFAULT,
    );

    let mesh = Mesh::from_polygons(vec![triangle1, triangle2]);
    assert_eq!(mesh.number_of_vertices(), 4); // Should merge shared vertices
    assert_eq!(mesh.number_of_faces(), 2);
}

#[test]
fn test_from_polygons_precision() {
    let precision = 1e-6;
    let triangle1 = poly(&[(0.0, 0.0, 0.0), (1.0, 0.0, 0.0), (0.0, 1.0, 0.0)], precision);
    let triangle2 = poly(
        &[
            (1.0000001, 0.0, 0.0), // Very close to (1,0,0)
            (0.0, 1.0000001, 0.0), // Very close to (0,1,0)
            (1.0, 1.0, 0.0),
        ],
        precision,
    );

    let mesh = Mesh::from_polygons(vec![triangle1, triangle2]);
    assert_eq!(mesh.number_of_vertices(), 4); // Should merge vertices within precision
    assert_eq!(mesh.number_of_faces(), 2);
}

#[test]
fn test_from_polygons_invalid_polygons() {
    let invalid_polygon = poly(&[(0.0, 0.0, 0.0), (1.0, 0.0, 0.0)], DEFAULT);
    let valid_triangle = poly(&[(0.0, 0.0, 0.0), (1.0, 0.0, 0.0), (0.0, 1.0, 0.0)], DEFAULT);

    let mesh = Mesh::from_polygons(vec![invalid_polygon, valid_triangle]);
    assert_eq!(mesh.number_of_vertices(), 3); // Only valid triangle should be added
    assert_eq!(mesh.number_of_faces(), 1);
}

#[test]
fn test_from_polygons_cube() {
    // Create a cube using 6 quad faces
    let faces = vec![
        // Bottom face (z=0)
        poly(&[(0.0, 0.0, 0.0), (1.0, 0.0, 0.0), (1.0, 1.0, 0.0), (0.0, 1.0, 0.0)], DEFAULT),
        // Top face (z=1)
        poly(&[(0.0, 0.0, 1.0), (0.0, 1.0, 1.0), (1.0, 1.0, 1.0), (1.0, 0.0, 1.0)], DEFAULT),
        // Front face (y=0)
        poly(&[(0.0, 0.0, 0.0), (0.0, 0.0, 1.0), (1.0, 0.0, 1.0), (1.0, 0.0, 0.0)], DEFAULT),
        // Back face (y=1)
        poly(&[(0.0, 1.0, 0.0), (1.0, 1.0, 0.0), (1.0, 1.0, 1.0), (0.0, 1.0, 1.0)], DEFAULT),
        // Left face (x=0)
        poly(&[(0.0, 0.0, 0.0), (0.0, 1.0, 0.0), (0.0, 1.0, 1.0), (0.0, 0.0, 1.0)], DEFAULT),
        // Right face (x=1)
        poly(&[(1.0, 0.0, 0.0), (1.0, 0.0, 1.0), (1.0, 1.0, 1.0), (1.0, 1.0, 0.0)], DEFAULT),
    ];

    let mesh = Mesh::from_polygons(faces);
    assert_eq!(mesh.number_of_vertices(), 8); // A cube has 8 vertices
    assert_eq!(mesh.number_of_faces(), 6); // A cube has 6 faces
    assert_eq!(mesh.number_of_edges(), 12); // A cube has 12 edges
    assert_eq!(mesh.euler(), 2); // Euler characteristic for a cube: V-E+F = 8-12+6 = 2
}

#[test]
fn test_mesh_from_polygons_cube() {
    // The same cube built through the merging, triangulating builder.
    let cube_polygons = vec![
        poly(&[(0.0, 0.0, 0.0), (1.0, 0.0, 0.0), (1.0, 1.0, 0.0), (0.0, 1.0, 0.0)], DEFAULT),
        poly(&[(1.0, 0.0, 1.0), (0.0, 0.0, 1.0), (0.0, 1.0, 1.0), (1.0, 1.0, 1.0)], DEFAULT),
        poly(&[(0.0, 0.0, 1.0), (0.0, 0.0, 0.0), (0.0, 1.0, 0.0), (0.0, 1.0, 1.0)], DEFAULT),
        poly(&[(1.0, 0.0, 0.0), (1.0, 0.0, 1.0), (1.0, 1.0, 1.0), (1.0, 1.0, 0.0)], DEFAULT),
        poly(&[(0.0, 0.0, 1.0), (1.0, 0.0, 1.0), (1.0, 0.0, 0.0), (0.0, 0.0, 0.0)], DEFAULT),
        poly(&[(0.0, 1.0, 0.0), (1.0, 1.0, 0.0), (1.0, 1.0, 1.0), (0.0, 1.0, 1.0)], DEFAULT),
    ];

    let mesh = Mesh::from_polygons_with_merge(cube_polygons);

    // Cube should have exactly 8 unique vertices (corners)
    assert_eq!(mesh.number_of_vertices(), 8);

    // Cube should have 12 triangular faces (2 triangles per quad face * 6 faces)
    assert_eq!(mesh.number_of_faces(), 12);
}

#[test]
fn test_mesh_from_polygons_duplicate_removal() {
    // Two triangles sharing an edge, given as 6 independent points,
    // collapse to 4 unique vertices and 2 faces.
    let polygons = vec![
        poly(&[(0.0, 0.0, 0.0), (1.0, 0.0, 0.0), (0.0, 1.0, 0.0)], DEFAULT),
        poly(&[(1.0, 0.0, 0.0), (1.0, 1.0, 0.0), (0.0, 1.0, 0.0)], DEFAULT),
    ];

    let mesh = Mesh::from_polygons_with_merge(polygons);

    assert_eq!(mesh.number_of_vertices(), 4);
    assert_eq!(mesh.number_of_faces(), 2);
}

#[test]
fn test_mesh_from_polygons_precision() {
    let coords1 = [(0.0, 0.0, 0.0), (1.0, 0.0, 0.0), (0.0, 1.0, 0.0)];
    let coords2 = [
        (1.000000001, 0.0, 0.0), // Close to (1,0,0) - difference 1e-9
        (1.0, 1.0, 0.0),
        (0.0, 1.000000001, 0.0), // Close to (0,1,0) - difference 1e-9
    ];

    // Use looser precision (1e-8) - should merge the close points
    let mesh = Mesh::from_polygons_with_merge(vec![
        poly(&coords1, 1e-8),
        poly(&coords2, 1e-8),
    ]);
    assert_eq!(mesh.number_of_vertices(), 4);

    // Use stricter precision - should not merge
    let mesh2 = Mesh::from_polygons_with_merge(vec![
        poly(&coords1, 1e-12),
        poly(&coords2, 1e-12),
    ]);
    assert_eq!(mesh2.number_of_vertices(), 6); // No merging with stricter precision
}
