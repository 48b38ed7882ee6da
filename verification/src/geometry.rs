//! Vertex, mesh and bounding-box records as they are laid out for the GPU.
//!
//! Vertex attributes and bounding-box corners are 32-bit IEEE-754 values.
//! This layer never does arithmetic on them, so it carries each one as its
//! raw bit pattern (`u32`); the GPU upload layer reinterprets the bits.

use vstd::prelude::*;

verus! {

/// Three packed 32-bit scalars, carried as bit patterns.
#[derive(Copy, Clone, PartialEq, Eq, Structural, Debug)]
pub struct Vec3Bits {
    pub x: u32,
    pub y: u32,
    pub z: u32,
}

/// Two packed 32-bit scalars, carried as bit patterns.
#[derive(Copy, Clone, PartialEq, Eq, Structural, Debug)]
pub struct Vec2Bits {
    pub x: u32,
    pub y: u32,
}

/// One packed vertex: position, texture coordinates, normal, tangent and
/// bitangent, 56 bytes in GPU layout. The bitangent is baked at load time
/// so the GPU never reconstructs it.
#[derive(Copy, Clone, PartialEq, Eq, Structural, Debug)]
pub struct Vertex {
    pub position: Vec3Bits,
    pub tex_coords: Vec2Bits,
    pub normal: Vec3Bits,
    pub tangent: Vec3Bits,
    pub bitangent: Vec3Bits,
}

impl Vertex {
    pub fn new(
        position: Vec3Bits,
        tex_coords: Vec2Bits,
        normal: Vec3Bits,
        tangent: Vec3Bits,
        bitangent: Vec3Bits,
    ) -> (r: Vertex)
        ensures
            r == (Vertex { position, tex_coords, normal, tangent, bitangent }),
    {
        Vertex { position, tex_coords, normal, tangent, bitangent }
    }
}

/// A mesh is four cursors into the two global arenas: all vertices of all
/// meshes and all indices of all meshes.
#[derive(Copy, Clone, PartialEq, Eq, Structural, Debug)]
pub struct Mesh {
    pub vertex_offset: u32,
    pub vertex_count: u32,
    pub index_offset: u32,
    pub index_count: u32,
}

impl Mesh {
    pub fn new(vertex_offset: u32, vertex_count: u32, index_offset: u32, index_count: u32) -> (r:
        Mesh)
        ensures
            r == (Mesh { vertex_offset, vertex_count, index_offset, index_count }),
    {
        Mesh { vertex_offset, vertex_count, index_offset, index_count }
    }
}

/// An axis-aligned bounding box: two corners, each three packed scalars.
/// The GPU-side copy pads each corner to 16 bytes.
#[derive(Copy, Clone, PartialEq, Eq, Structural, Debug)]
pub struct BoundingBox {
    pub min: Vec3Bits,
    pub max: Vec3Bits,
}

impl BoundingBox {
    pub fn new(min: Vec3Bits, max: Vec3Bits) -> (r: BoundingBox)
        ensures
            r == (BoundingBox { min, max }),
    {
        BoundingBox { min, max }
    }
}

} // verus!
