use openmodel::mesh::Mesh;
use openmodel::mesh::VertexData;
use openmodel::mesh::DEFAULT_COLOR_PAYLOAD;
use openmodel::point::Point3;

fn pt(x: f64, y: f64, z: f64) -> Point3 {
    Point3::new(x.to_bits(), y.to_bits(), z.to_bits())
}

#[test]
fn test_halfedge_mesh_new() {
    let mesh = Mesh::new();
    assert_eq!(mesh.number_of_vertices(), 0);
    assert_eq!(mesh.number_of_faces(), 0);
    assert!(mesh.is_empty());
    assert_eq!(mesh.euler(), 0);
}

#[test]
fn test_add_vertex() {
    let mut mesh = Mesh::new();
    let vertex_key = mesh.add_vertex(pt(1.0, 2.0, 3.0), None);
    assert_eq!(mesh.number_of_vertices(), 1);
    assert!(!mesh.is_empty());

    let pos = mesh.vertex_position(vertex_key).unwrap();
    assert_eq!(pos.x, 1.0f64.to_bits());
    assert_eq!(pos.y, 2.0f64.to_bits());
    assert_eq!(pos.z, 3.0f64.to_bits());
}

#[test]
fn test_add_vertex_with_specific_key() {
    let mut mesh = Mesh::new();
    let vertex_key = mesh.add_vertex(pt(0.0, 0.0, 0.0), Some(42));
    assert_eq!(vertex_key, 42);
    assert_eq!(mesh.number_of_vertices(), 1);
}

#[test]
fn test_add_face() {
    let mut mesh = Mesh::new();
    let v0 = mesh.add_vertex(pt(0.0, 0.0, 0.0), None);
    let v1 = mesh.add_vertex(pt(1.0, 0.0, 0.0), None);
    let v2 = mesh.add_vertex(pt(0.0, 1.0, 0.0), None);

    let _face_key = mesh.add_face(vec![v0, v1, v2], None).unwrap();
    assert_eq!(mesh.number_of_faces(), 1);
    assert_eq!(mesh.number_of_edges(), 3);
    assert_eq!(mesh.euler(), 1); // V=3, E=3, F=1 -> 3-3+1=1
}

#[test]
fn test_add_face_invalid() {
    let mut mesh = Mesh::new();
    let v0 = mesh.add_vertex(pt(0.0, 0.0, 0.0), None);
    let v1 = mesh.add_vertex(pt(1.0, 0.0, 0.0), None);

    // Too few vertices
    assert!(mesh.add_face(vec![v0, v1], None).is_none());

    // Non-existent vertex
    assert!(mesh.add_face(vec![v0, v1, 999], None).is_none());

    // Duplicate vertices
    assert!(mesh.add_face(vec![v0, v1, v0], None).is_none());
}

#[test]
fn test_add_face_invalid_leaves_mesh_unchanged() {
    let mut mesh = Mesh::new();
    let v0 = mesh.add_vertex(pt(0.0, 0.0, 0.0), None);
    let v1 = mesh.add_vertex(pt(1.0, 0.0, 0.0), None);
    let v2 = mesh.add_vertex(pt(0.0, 1.0, 0.0), None);
    mesh.add_face(vec![v0, v1, v2], None).unwrap();

    let vertices_before = mesh.number_of_vertices();
    let faces_before = mesh.number_of_faces();
    let edges_before = mesh.number_of_edges();

    assert!(mesh.add_face(vec![v0, v1], None).is_none());
    assert!(mesh.add_face(vec![v0, v1, 999], None).is_none());
    assert!(mesh.add_face(vec![v0, v1, v0], None).is_none());

    assert_eq!(mesh.number_of_vertices(), vertices_before);
    assert_eq!(mesh.number_of_faces(), faces_before);
    assert_eq!(mesh.number_of_edges(), edges_before);
}

#[test]
fn test_face_vertices() {
    let mut mesh = Mesh::new();
    let v0 = mesh.add_vertex(pt(0.0, 0.0, 0.0), None);
    let v1 = mesh.add_vertex(pt(1.0, 0.0, 0.0), None);
    let v2 = mesh.add_vertex(pt(0.0, 1.0, 0.0), None);

    let f = mesh.add_face(vec![v0, v1, v2], None).unwrap();
    let vertices = mesh.face_vertices(f).unwrap();
    assert_eq!(vertices, &vec![v0, v1, v2]);
}

#[test]
fn test_vertex_neighbors() {
    let mut mesh = Mesh::new();
    let v0 = mesh.add_vertex(pt(0.0, 0.0, 0.0), None);
    let v1 = mesh.add_vertex(pt(1.0, 0.0, 0.0), None);
    let v2 = mesh.add_vertex(pt(0.0, 1.0, 0.0), None);

    mesh.add_face(vec![v0, v1, v2], None);

    let neighbors = mesh.vertex_neighbors(v0);
    assert_eq!(neighbors.len(), 2);
    assert!(neighbors.contains(&v1));
    assert!(neighbors.contains(&v2));
}

#[test]
fn test_vertex_faces() {
    let mut mesh = Mesh::new();
    let v0 = mesh.add_vertex(pt(0.0, 0.0, 0.0), None);
    let v1 = mesh.add_vertex(pt(1.0, 0.0, 0.0), None);
    let v2 = mesh.add_vertex(pt(0.0, 1.0, 0.0), None);
    let v3 = mesh.add_vertex(pt(1.0, 1.0, 0.0), None);

    let f1 = mesh.add_face(vec![v0, v1, v2], None).unwrap();
    let f2 = mesh.add_face(vec![v1, v3, v2], None).unwrap();

    let faces = mesh.vertex_faces(v1);
    assert_eq!(faces.len(), 2);
    assert!(faces.contains(&f1));
    assert!(faces.contains(&f2));
}

#[test]
fn test_is_vertex_on_boundary() {
    let mut mesh = Mesh::new();
    let v0 = mesh.add_vertex(pt(0.0, 0.0, 0.0), None);
    let v1 = mesh.add_vertex(pt(1.0, 0.0, 0.0), None);
    let v2 = mesh.add_vertex(pt(0.0, 1.0, 0.0), None);

    mesh.add_face(vec![v0, v1, v2], None);

    // All vertices of a single triangle are on boundary
    assert!(mesh.is_vertex_on_boundary(v0));
    assert!(mesh.is_vertex_on_boundary(v1));
    assert!(mesh.is_vertex_on_boundary(v2));
}

#[test]
fn test_clear() {
    let mut mesh = Mesh::new();
    let v0 = mesh.add_vertex(pt(0.0, 0.0, 0.0), None);
    let v1 = mesh.add_vertex(pt(1.0, 0.0, 0.0), None);
    let v2 = mesh.add_vertex(pt(0.0, 1.0, 0.0), None);
    mesh.add_face(vec![v0, v1, v2], None);

    assert!(!mesh.is_empty());
    mesh.clear();
    assert!(mesh.is_empty());
    assert_eq!(mesh.number_of_vertices(), 0);
    assert_eq!(mesh.number_of_faces(), 0);
}

#[test]
fn test_vertex_attributes() {
    let mut mesh = Mesh::new();
    let v0 = mesh.add_vertex(pt(0.0, 0.0, 0.0), None);
    assert!(mesh.set_vertex_attribute(v0, "weight", 2.5f64.to_bits()));
    assert!(!mesh.set_vertex_attribute(999, "weight", 1.0f64.to_bits()));
    let vd = mesh.vertex.get(v0).unwrap();
    assert_eq!(vd.get_attribute("weight"), Some(2.5f64.to_bits()));
    assert_eq!(vd.get_attribute("absent"), None);
}

#[test]
fn test_vertex_color_defaults_and_set() {
    let mut vd = VertexData::new(pt(0.0, 0.0, 0.0));
    // Unset channels read as the conventional mid-range payload.
    let (r, g, b) = vd.color();
    assert_eq!(r, DEFAULT_COLOR_PAYLOAD);
    assert_eq!(r, 0.5f64.to_bits());
    assert_eq!(g, DEFAULT_COLOR_PAYLOAD);
    assert_eq!(b, DEFAULT_COLOR_PAYLOAD);

    vd.set_color(1.0f64.to_bits(), 0.25f64.to_bits(), 0.0f64.to_bits());
    let (r, g, b) = vd.color();
    assert_eq!(f64::from_bits(r), 1.0);
    assert_eq!(f64::from_bits(g), 0.25);
    assert_eq!(f64::from_bits(b), 0.0);

    assert_eq!(vd.normal(), None);
    vd.set_normal(0.0f64.to_bits(), 0.0f64.to_bits(), 1.0f64.to_bits());
    let (nx, ny, nz) = vd.normal().unwrap();
    assert_eq!(f64::from_bits(nx), 0.0);
    assert_eq!(f64::from_bits(ny), 0.0);
    assert_eq!(f64::from_bits(nz), 1.0);

    assert_eq!(vd.tex_coords(), None);
    vd.set_tex_coords(0.5f64.to_bits(), 0.75f64.to_bits());
    let (u, v) = vd.tex_coords().unwrap();
    assert_eq!(f64::from_bits(u), 0.5);
    assert_eq!(f64::from_bits(v), 0.75);
}
