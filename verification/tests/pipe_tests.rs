use openmodel::mesh::Mesh;
use openmodel::point::Point3;

// The twelve-sided unit cylinder template: both cap centers and
// twelve rim points per cap, at z = -1/2 and z = +1/2.
fn unit_cylinder() -> Vec<(f64, f64, f64)> {
    let mut pts = Vec::new();
    for half in 0..2 {
        let z = if half == 0 { -0.5 } else { 0.5 };
        pts.push((0.0, 0.0, z));
        for k in 0..12 {
            let angle = std::f64::consts::PI * (k as f64) / 6.0;
            pts.push((angle.cos(), angle.sin(), z));
        }
    }
    pts
}

fn transformed_ring(start: (f64, f64, f64), end: (f64, f64, f64), radius: f64) -> Vec<Point3> {
    // The segment here is axis-aligned with z, so the transform is a
    // scale followed by a translation to the midpoint.
    let length = ((end.0 - start.0).powi(2) + (end.1 - start.1).powi(2)
        + (end.2 - start.2).powi(2))
        .sqrt();
    let mid = (
        (start.0 + end.0) / 2.0,
        (start.1 + end.1) / 2.0,
        (start.2 + end.2) / 2.0,
    );
    unit_cylinder()
        .iter()
        .map(|&(x, y, z)| {
            let tx = x * radius + mid.0;
            let ty = y * radius + mid.1;
            let tz = z * length + mid.2;
            Point3::new(tx.to_bits(), ty.to_bits(), tz.to_bits())
        })
        .collect()
}

#[test]
fn test_create_pipe_counts() {
    let ring = transformed_ring((0.0, 0.0, 0.0), (0.0, 0.0, 1.0), 0.2);
    assert_eq!(ring.len(), 26);
    let pipe = Mesh::create_pipe(ring);
    assert_eq!(pipe.number_of_vertices(), 26);
    assert_eq!(pipe.number_of_faces(), 48);
    for (_, vertices) in pipe.get_face_data() {
        assert_eq!(vertices.len(), 3);
    }
}

#[test]
fn test_create_pipe_counts_other_segment() {
    // A different segment and radius give the same fixed topology.
    let ring = transformed_ring((0.0, 0.0, -2.0), (0.0, 0.0, 5.0), 0.01);
    let pipe = Mesh::create_pipe(ring);
    assert_eq!(pipe.number_of_vertices(), 26);
    assert_eq!(pipe.number_of_faces(), 48);
    // A closed cylinder: V - E + F = 26 - 72 + 48 = 2.
    assert_eq!(pipe.number_of_edges(), 72);
    assert_eq!(pipe.euler(), 2);
}
