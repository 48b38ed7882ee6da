//! The decoded form of a hierarchical scene file, as the model loader
//! consumes it: a node graph with per-primitive vertex attributes,
//! indices and texture channels, plus the bytes of every texture file
//! the primitives reference. The file-format parser produces these
//! plain values outside the library.

use vstd::prelude::*;
use crate::geometry::{BoundingBox, Vec2Bits, Vec3Bits, Vertex};

verus! {

/// One texture file: its canonical name and its raw bytes.
pub struct TextureFile {
    pub name: String,
    pub data: Vec<u8>,
}

/// One primitive of a node's mesh: its unique name (callers prefix the
/// model's canonical path), its vertex attribute streams, its index
/// list, its bounding box, and the names of its three texture channels.
/// A channel left empty fails the load.
pub struct InputPrimitive {
    pub name: String,
    pub positions: Vec<Vec3Bits>,
    pub tex_coords: Vec<Vec2Bits>,
    pub normals: Vec<Vec3Bits>,
    pub tangents: Vec<Vec3Bits>,
    pub bitangents: Vec<Vec3Bits>,
    pub indices: Vec<u32>,
    pub bounding_box: BoundingBox,
    pub base_color_texture: Option<String>,
    pub normal_texture: Option<String>,
    pub metallic_roughness_texture: Option<String>,
}

/// One node of the scene graph, with children given as indices into the
/// input's node list.
pub struct InputNode {
    pub name: Option<String>,
    pub mesh: Option<Vec<InputPrimitive>>,
    pub children: Vec<usize>,
}

/// A decoded scene file.
pub struct ModelInput {
    pub root_nodes: Vec<usize>,
    pub nodes: Vec<InputNode>,
    pub textures: Vec<TextureFile>,
}

/// The number of vertices a primitive yields: its attribute streams are
/// zipped, so the shortest stream decides.
pub open spec fn spec_primitive_vertex_count(p: InputPrimitive) -> int {
    vstd::math::min(
        vstd::math::min(p.positions@.len() as int, p.tex_coords@.len() as int),
        vstd::math::min(
            p.normals@.len() as int,
            vstd::math::min(p.tangents@.len() as int, p.bitangents@.len() as int),
        ),
    )
}

/// Zips a primitive's five attribute streams into packed vertices,
/// truncating to the shortest stream.
pub fn assemble_vertices(p: &InputPrimitive) -> (r: Vec<Vertex>)
    ensures
        r@.len() == spec_primitive_vertex_count(*p),
        forall|i: int|
            0 <= i < r@.len() ==> r@[i] == (Vertex {
                position: p.positions@[i],
                tex_coords: p.tex_coords@[i],
                normal: p.normals@[i],
                tangent: p.tangents@[i],
                bitangent: p.bitangents@[i],
            }),
{
    let mut count = p.positions.len();
    if p.tex_coords.len() < count {
        count = p.tex_coords.len();
    }
    if p.normals.len() < count {
        count = p.normals.len();
    }
    if p.tangents.len() < count {
        count = p.tangents.len();
    }
    if p.bitangents.len() < count {
        count = p.bitangents.len();
    }
    let mut vertices: Vec<Vertex> = Vec::new();
    let mut i: usize = 0;
    while i < count
        invariant
            count == spec_primitive_vertex_count(*p),
            i <= count,
            vertices@.len() == i,
            forall|j: int|
                0 <= j < i ==> vertices@[j] == (Vertex {
                    position: p.positions@[j],
                    tex_coords: p.tex_coords@[j],
                    normal: p.normals@[j],
                    tangent: p.tangents@[j],
                    bitangent: p.bitangents@[j],
                }),
        decreases count - i,
    {
        vertices.push(
            Vertex {
                position: p.positions[i],
                tex_coords: p.tex_coords[i],
                normal: p.normals[i],
                tangent: p.tangents[i],
                bitangent: p.bitangents[i],
            },
        );
        i = i + 1;
    }
    vertices
}

/// Whether every index is below `bound`, so each one addresses a vertex
/// of its own mesh.
pub fn indices_below(indices: &Vec<u32>, bound: u32) -> (r: bool)
    ensures
        r == (forall|k: int| 0 <= k < indices@.len() ==> indices@[k] < bound),
{
    let mut i: usize = 0;
    while i < indices.len()
        invariant
            i <= indices@.len(),
            forall|k: int| 0 <= k < i ==> indices@[k] < bound,
        decreases indices@.len() - i,
    {
        if indices[i] >= bound {
            return false;
        }
        i = i + 1;
    }
    true
}

/// Finds the first texture file carrying `name`.
pub fn find_texture_file<'a>(textures: &'a Vec<TextureFile>, name: &String) -> (r: Option<
    &'a TextureFile,
>)
    ensures
        match r {
            Some(file) => exists|i: int|
                #![trigger textures@[i]]
                {
                    &&& 0 <= i < textures@.len()
                    &&& *file == textures@[i]
                    &&& textures@[i].name@ == name@
                    &&& forall|j: int| 0 <= j < i ==> textures@[j].name@ != name@
                },
            None => forall|j: int| 0 <= j < textures@.len() ==> textures@[j].name@ != name@,
        },
{
    let mut i: usize = 0;
    while i < textures.len()
        invariant
            i <= textures@.len(),
            forall|j: int| 0 <= j < i ==> textures@[j].name@ != name@,
        decreases textures@.len() - i,
    {
        if textures[i].name == *name {
            return Some(&textures[i]);
        }
        i = i + 1;
    }
    None
}

} // verus!
