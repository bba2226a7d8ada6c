//! Mesh processing for procedurally generated track parts: the indexed
//! mesh model with joining and welding, ordering of vertex rings, bridging
//! between rings, and the binary triangle export.
//!
//! Vertex positions are opaque here: a mesh is generic over its vertex
//! payload, and where an operation depends on distances it takes the outcome
//! of each distance test as a table of booleans.
pub mod mesh;
pub mod ring;
pub mod tools;
pub mod stl;
pub mod handle;
pub mod surfaces;
