//! A small halfedge-mesh geometry kernel.
//!
//! The kernel stores mesh connectivity (vertices, faces and directed
//! halfedges) and builds meshes from polygon soups, ear-clipping
//! triangulation and a fixed cylinder template.  All geometric decisions
//! made here work on exact integer coordinates; vertex positions are
//! carried through as opaque 64-bit payloads that the kernel never
//! interprets, so callers may store any fixed-width scalar encoding in
//! them.

pub mod attrs;
pub mod builder;
pub mod color;
pub mod data;
pub mod earclip;
pub mod edgemap;
pub mod keymap;
pub mod mesh;
pub mod pipe;
pub mod point;
