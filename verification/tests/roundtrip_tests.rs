use openmodel::keymap::KeyMap;
use openmodel::mesh::Mesh;
use openmodel::point::Point3;

fn pt(x: f64, y: f64, z: f64) -> Point3 {
    Point3::new(x.to_bits(), y.to_bits(), z.to_bits())
}

#[test]
fn test_export_import_round_trip() {
    let mut mesh = Mesh::new();
    let v0 = mesh.add_vertex(pt(0.0, 0.0, 0.0), None);
    let v1 = mesh.add_vertex(pt(1.0, 0.0, 0.0), None);
    let v2 = mesh.add_vertex(pt(0.0, 1.0, 0.0), None);
    let v3 = mesh.add_vertex(pt(1.0, 1.0, 0.0), None);
    mesh.add_face(vec![v0, v1, v2], None).unwrap();
    mesh.add_face(vec![v1, v3, v2], None).unwrap();
    assert!(mesh.set_vertex_attribute(v0, "r", 0.25f64.to_bits()));
    assert!(mesh.set_vertex_attribute(v0, "g", 0.5f64.to_bits()));
    assert!(mesh.set_vertex_attribute(v1, "weight", 7.5f64.to_bits()));

    let vertices = mesh.number_of_vertices();
    let faces = mesh.number_of_faces();
    let edges = mesh.number_of_edges();

    let data = mesh.to_data();
    let restored = Mesh::from_data(data).expect("exported state must import");

    assert_eq!(restored.number_of_vertices(), vertices);
    assert_eq!(restored.number_of_faces(), faces);
    assert_eq!(restored.number_of_edges(), edges);

    let vd0 = restored.vertex.get(v0).unwrap();
    assert_eq!(vd0.get_attribute("r"), Some(0.25f64.to_bits()));
    assert_eq!(vd0.get_attribute("g"), Some(0.5f64.to_bits()));
    assert_eq!(vd0.get_attribute("b"), None);
    let vd1 = restored.vertex.get(v1).unwrap();
    assert_eq!(vd1.get_attribute("weight"), Some(7.5f64.to_bits()));
}

#[test]
fn test_import_rejects_broken_face() {
    let mut mesh = Mesh::new();
    let v0 = mesh.add_vertex(pt(0.0, 0.0, 0.0), None);
    let v1 = mesh.add_vertex(pt(1.0, 0.0, 0.0), None);
    let v2 = mesh.add_vertex(pt(0.0, 1.0, 0.0), None);
    mesh.add_face(vec![v0, v1, v2], None).unwrap();

    let mut data = mesh.to_data();
    // A face that names a vertex the data does not hold.
    data.face = KeyMap { pairs: vec![(1, vec![v0, v1, 999])] };
    assert!(Mesh::from_data(data).is_none());
}

#[test]
fn test_import_rejects_duplicate_vertex_keys() {
    let mut mesh = Mesh::new();
    let v0 = mesh.add_vertex(pt(0.0, 0.0, 0.0), None);
    let mut data = mesh.to_data();
    let entry = data.vertex.pairs.remove(0);
    let copy = (entry.0, openmodel::mesh::VertexData::new(entry.1.position));
    data.vertex = KeyMap { pairs: vec![(v0, entry.1), copy] };
    assert!(Mesh::from_data(data).is_none());
}

#[test]
fn test_import_rejects_duplicate_attribute_name() {
    let mut mesh = Mesh::new();
    let v0 = mesh.add_vertex(pt(0.0, 0.0, 0.0), None);
    assert!(mesh.set_vertex_attribute(v0, "weight", 1.0f64.to_bits()));
    let mut data = mesh.to_data();
    // A vertex whose attribute list repeats a name is not well formed.
    let entry = &mut data.vertex.pairs[0];
    entry
        .1
        .attributes
        .entries
        .push(("weight".to_string(), 2.0f64.to_bits()));
    assert!(Mesh::from_data(data).is_none());
}
