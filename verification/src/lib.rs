//! Core of a real-time 3D renderer: asset ingestion into dense, GPU-ready
//! arenas, classification of block-compressed textures into a fixed set of
//! texture arrays, flattening of hierarchical models, the extract step that
//! projects the scene world onto the render world, and the batching and
//! indirect-draw bookkeeping for GPU frustum culling.
//!
//! Everything here is plain data and arithmetic; reading files, the window,
//! the GPU device and the ECS container live outside, feed these functions
//! plain values and consume plain values back.

pub mod batch;
pub mod bytes;
pub mod container;
pub mod error;
pub mod flatten;
pub mod frame;
pub mod geometry;
pub mod loader;
pub mod material;
pub mod mesh_map;
pub mod model;
pub mod model_input;
pub mod names;
pub mod resident;
pub mod subdivide;
pub mod texture;
pub mod texture_arrays;
pub mod texture_map;
pub mod world;
