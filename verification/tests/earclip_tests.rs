use openmodel::earclip::earclip_triangulate;
use openmodel::mesh::Mesh;
use openmodel::point::Point2;
use openmodel::point::Point3;
use openmodel::point::SoupPoint;

const PRECISION: f64 = 1e-10;

fn q(c: f64) -> i64 {
    (c / PRECISION).round() as i64
}

fn sp(x: f64, y: f64, z: f64) -> SoupPoint {
    SoupPoint::new(Point3::new(x.to_bits(), y.to_bits(), z.to_bits()), q(x), q(y), q(z))
}

fn poly(coords: &[(f64, f64, f64)]) -> Vec<SoupPoint> {
    coords.iter().map(|&(x, y, z)| sp(x, y, z)).collect()
}

#[test]
fn test_earclip_polygon_triangle() {
    let points = poly(&[(0.0, 0.0, 0.0), (1.0, 0.0, 0.0), (1.0, 1.0, 0.0)]);
    let mesh = Mesh::from_polygon_earclip(points);
    assert_eq!(mesh.number_of_vertices(), 3);
    assert_eq!(mesh.number_of_faces(), 1);
}

#[test]
fn test_earclip_polygon_square() {
    let points = poly(&[(0.0, 0.0, 0.0), (1.0, 0.0, 0.0), (1.0, 1.0, 0.0), (0.0, 1.0, 0.0)]);
    let mesh = Mesh::from_polygon_earclip(points);
    assert_eq!(mesh.number_of_vertices(), 4);
    assert_eq!(mesh.number_of_faces(), 2);
}

#[test]
fn test_earclip_polygon_when_reversed() {
    let points = poly(&[
        (0.0, 0.0, 0.0),
        (5.0, 0.0, 0.0),
        (5.0, 5.0, 0.0),
        (10.0, 5.0, 0.0),
        (10.0, 15.0, 0.0),
        (0.0, 10.0, 0.0),
    ]);
    let mesh = Mesh::from_polygon_earclip(points);
    assert_eq!(mesh.number_of_vertices(), 6);
    assert_eq!(mesh.number_of_faces(), 4); // n-2 triangles for n vertices
}

#[test]
fn test_earclip_polygon_concave() {
    // L-shaped polygon - concave case
    let points = poly(&[
        (0.0, 0.0, 0.0),
        (2.0, 0.0, 0.0),
        (2.0, 1.0, 0.0),
        (1.0, 1.0, 0.0),
        (1.0, 2.0, 0.0),
        (0.0, 2.0, 0.0),
    ]);
    let mesh = Mesh::from_polygon_earclip(points);
    assert_eq!(mesh.number_of_vertices(), 6);
    assert_eq!(mesh.number_of_faces(), 4);
}

#[test]
fn test_earclip_polygon_pentagon() {
    let points = poly(&[
        (1.0, 0.0, 0.0),
        (0.309, 0.951, 0.0),
        (-0.809, 0.588, 0.0),
        (-0.809, -0.588, 0.0),
        (0.309, -0.951, 0.0),
    ]);
    let mesh = Mesh::from_polygon_earclip(points);
    assert_eq!(mesh.number_of_vertices(), 5);
    assert_eq!(mesh.number_of_faces(), 3);
}

#[test]
fn test_earclip_polygon_empty() {
    let empty: Vec<SoupPoint> = vec![];
    let mesh = Mesh::from_polygon_earclip(empty);
    assert_eq!(mesh.number_of_vertices(), 0);
    assert_eq!(mesh.number_of_faces(), 0);
}

#[test]
fn test_earclip_polygon_degenerate() {
    let single = poly(&[(0.0, 0.0, 0.0)]);
    let mesh = Mesh::from_polygon_earclip(single);
    assert_eq!(mesh.number_of_vertices(), 0);
    assert_eq!(mesh.number_of_faces(), 0);

    let two = poly(&[(0.0, 0.0, 0.0), (1.0, 0.0, 0.0)]);
    let mesh = Mesh::from_polygon_earclip(two);
    assert_eq!(mesh.number_of_vertices(), 0);
    assert_eq!(mesh.number_of_faces(), 0);
}

#[test]
fn test_triangulator_convex_counts() {
    // A convex n-gon yields exactly n - 2 triangles over 3 distinct
    // original indices, for n = 3, 4 and 5.
    let gons: Vec<Vec<(i64, i64)>> = vec![
        vec![(0, 0), (10, 0), (0, 10)],
        vec![(0, 0), (10, 0), (10, 10), (0, 10)],
        vec![(10, 0), (3, 9), (-8, 6), (-8, -6), (3, -9)],
    ];
    for gon in gons {
        let n = gon.len();
        let points: Vec<Point2> = gon.iter().map(|&(x, y)| Point2::new(x, y)).collect();
        let tris = earclip_triangulate(&points).unwrap();
        assert_eq!(tris.len(), n - 2);
        for t in &tris {
            assert!(t[0] < n && t[1] < n && t[2] < n);
            assert!(t[0] != t[1] && t[1] != t[2] && t[0] != t[2]);
        }
    }
}

#[test]
fn test_triangulator_rejects_tiny_input() {
    let none: Vec<Point2> = vec![];
    assert!(earclip_triangulate(&none).is_err());
    let two = vec![Point2::new(0, 0), Point2::new(5, 5)];
    assert!(earclip_triangulate(&two).is_err());
}

#[test]
fn test_earclip_winding_reversal_same_counts() {
    // Reversing the winding order must give the same vertex and face
    // counts and a non-empty mesh.
    let coords = [
        (0.0, 0.0, 0.0),
        (5.0, 0.0, 0.0),
        (5.0, 5.0, 0.0),
        (10.0, 5.0, 0.0),
        (10.0, 15.0, 0.0),
        (0.0, 10.0, 0.0),
    ];
    let forward = poly(&coords);
    let mut reversed = poly(&coords);
    reversed.reverse();

    let mesh_fwd = Mesh::from_polygon_earclip(forward);
    let mesh_rev = Mesh::from_polygon_earclip(reversed);
    assert!(!mesh_fwd.is_empty());
    assert!(!mesh_rev.is_empty());
    assert_eq!(mesh_fwd.number_of_vertices(), mesh_rev.number_of_vertices());
    assert_eq!(mesh_fwd.number_of_faces(), mesh_rev.number_of_faces());
}

#[test]
fn test_triangulator_exact_triangles() {
    // A three-point polygon short-circuits to its single triangle.
    let tri = vec![Point2::new(0, 0), Point2::new(10, 0), Point2::new(10, 10)];
    let tris = earclip_triangulate(&tri).unwrap();
    assert_eq!(tris, vec![[0, 1, 2]]);

    // A counter-clockwise unit square clips its first convex ear
    // first, then the remaining triangle.
    let square = vec![
        Point2::new(0, 0),
        Point2::new(10, 0),
        Point2::new(10, 10),
        Point2::new(0, 10),
    ];
    let tris = earclip_triangulate(&square).unwrap();
    assert_eq!(tris, vec![[3, 0, 1], [1, 2, 3]]);
}
