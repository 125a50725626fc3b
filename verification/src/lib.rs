//! In-memory engine for the generic product model: a versioned, rooted
//! classification graph with code lookup, adjacency queries, relationship
//! inference and bounded depth-first traversal.

pub mod context;
pub mod decode;
pub mod dto;
pub mod error;
pub mod gmod;
pub mod graph;
pub mod json;
pub mod laws;
pub mod node;
pub mod outside;
pub mod resources;
pub mod text;
pub mod traversal;
pub mod vec_set;
pub mod version;
pub mod vis;
pub mod walk;
