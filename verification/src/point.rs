//! Coordinate carriers.
//!
//! The kernel stores a vertex position as three opaque 64-bit scalar
//! payloads that it never interprets (callers usually put an
//! IEEE-754 bit pattern in each).  Geometric decisions — vertex
//! merging, winding tests, triangulation — are made on separate
//! exact integer coordinates that the caller derives from its scalars
//! by quantization: a coordinate `c` taken at precision `p` is
//! carried as the integer `round(c / p)`.

use vstd::prelude::*;

verus! {

/// A vertex position: three opaque 64-bit scalar payloads.
#[derive(Debug, Clone, Copy, PartialEq, Eq, Structural)]
pub struct Point3 {
    /// Payload of the first coordinate.
    pub x: u64,
    /// Payload of the second coordinate.
    pub y: u64,
    /// Payload of the third coordinate.
    pub z: u64,
}

impl Point3 {
    /// A position from its three coordinate payloads.
    pub fn new(x: u64, y: u64, z: u64) -> (p: Self)
        ensures
            p == (Point3 { x, y, z }),
    {
        Point3 { x, y, z }
    }
}

/// A point of a polygon soup: its position together with its three
/// quantized integer coordinates, used as the vertex-merging key.
/// Two soup points merge exactly when all three quantized
/// coordinates agree.
#[derive(Debug, Clone, Copy, PartialEq, Eq, Structural)]
pub struct SoupPoint {
    /// The position carried into the mesh.
    pub position: Point3,
    /// Quantized first coordinate.
    pub qx: i64,
    /// Quantized second coordinate.
    pub qy: i64,
    /// Quantized third coordinate.
    pub qz: i64,
}

impl SoupPoint {
    /// A soup point from its position and quantized coordinates.
    pub fn new(position: Point3, qx: i64, qy: i64, qz: i64) -> (p: Self)
        ensures
            p == (SoupPoint { position, qx, qy, qz }),
    {
        SoupPoint { position, qx, qy, qz }
    }

    /// The merge key: the three quantized coordinates.
    pub open spec fn qkey(self) -> (i64, i64, i64) {
        (self.qx, self.qy, self.qz)
    }
}

/// A planar point with exact integer coordinates, as handed to the
/// ear-clipping triangulator.
#[derive(Debug, Clone, Copy, PartialEq, Eq, Structural)]
pub struct Point2 {
    /// First coordinate.
    pub x: i64,
    /// Second coordinate.
    pub y: i64,
}

impl Point2 {
    /// A planar point from its two coordinates.
    pub fn new(x: i64, y: i64) -> (p: Self)
        ensures
            p == (Point2 { x, y }),
    {
        Point2 { x, y }
    }
}

} // verus!
