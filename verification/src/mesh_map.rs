//! The mesh arena: two monotonically growing global arrays (all vertices
//! of all meshes, all indices of all meshes), one mesh record and one
//! bounding box per mesh, deduplicated by name.

use vstd::prelude::*;
use crate::geometry::{BoundingBox, Mesh, Vertex};
use crate::names::{find_name, spec_contains_name, spec_name_index, spec_names_distinct};

verus! {

/// The mesh arena. A mesh's identifier is its position in `meshes`.
pub struct MeshMap {
    /// All vertices of all meshes, back to back.
    pub vertices: Vec<Vertex>,
    /// All indices of all meshes, back to back; each index is local to
    /// its own mesh (the renderer supplies the base vertex).
    pub indices: Vec<u32>,
    /// One record per mesh, pointing into the two arenas.
    pub meshes: Vec<Mesh>,
    /// One bounding box per mesh, in mesh order.
    pub bounding_boxes: Vec<BoundingBox>,
    /// Mesh names, in insertion order; a mesh's index is its id.
    pub names: Vec<String>,
}

impl MeshMap {
    /// Every mesh's vertex and index ranges lie inside the global
    /// arenas, and every index value is local to its mesh: strictly
    /// below that mesh's vertex count.
    pub open spec fn wf(self) -> bool {
        &&& self.names@.len() == self.meshes@.len()
        &&& self.bounding_boxes@.len() == self.meshes@.len()
        &&& spec_names_distinct(self.names@)
        &&& forall|i: int|
            0 <= i < self.meshes@.len() ==> (#[trigger] self.meshes@[i]).vertex_offset
                + self.meshes@[i].vertex_count <= self.vertices@.len()
        &&& forall|i: int|
            0 <= i < self.meshes@.len() ==> (#[trigger] self.meshes@[i]).index_offset
                + self.meshes@[i].index_count <= self.indices@.len()
        &&& forall|i: int, k: int|
            0 <= i < self.meshes@.len() && (#[trigger] self.meshes@[i]).index_offset <= k
                < self.meshes@[i].index_offset + self.meshes@[i].index_count
                ==> #[trigger] self.indices@[k] < self.meshes@[i].vertex_count
    }

    /// An empty arena.
    pub fn new() -> (r: MeshMap)
        ensures
            r.wf(),
            r.meshes@.len() == 0,
            r.vertices@.len() == 0,
            r.indices@.len() == 0,
    {
        MeshMap {
            vertices: Vec::new(),
            indices: Vec::new(),
            meshes: Vec::new(),
            bounding_boxes: Vec::new(),
            names: Vec::new(),
        }
    }

    /// Appends one mesh under `name`, or returns the mesh already stored
    /// under that name, leaving the arena unchanged.
    #[verifier::loop_isolation(false)]
    pub fn push(
        &mut self,
        name: String,
        vertices: Vec<Vertex>,
        indices: Vec<u32>,
        bounding_box: BoundingBox,
    ) -> (r: u32)
        requires
            old(self).wf(),
            old(self).meshes@.len() < 0xffff_ffff,
            old(self).vertices@.len() + vertices@.len() <= 0xffff_ffff,
            old(self).indices@.len() + indices@.len() <= 0xffff_ffff,
            forall|k: int| 0 <= k < indices@.len() ==> indices@[k] < vertices@.len(),
        ensures
            final(self).wf(),
            spec_contains_name(old(self).names@, name@) ==> r == spec_name_index(
                old(self).names@,
                name@,
            ) && *final(self) == *old(self),
            !spec_contains_name(old(self).names@, name@) ==> {
                &&& r == old(self).meshes@.len()
                &&& final(self).meshes@ == old(self).meshes@.push(
                    Mesh {
                        vertex_offset: old(self).vertices@.len() as u32,
                        vertex_count: vertices@.len() as u32,
                        index_offset: old(self).indices@.len() as u32,
                        index_count: indices@.len() as u32,
                    },
                )
                &&& final(self).vertices@ == old(self).vertices@ + vertices@
                &&& final(self).indices@ == old(self).indices@ + indices@
                &&& final(self).bounding_boxes@ == old(self).bounding_boxes@.push(bounding_box)
                &&& final(self).names@ == old(self).names@.push(name)
            },
    {
        if let Some(existing) = find_name(&self.names, &name) {
            proof {
                crate::names::lemma_name_index_unique(self.names@, name@, existing as int);
            }
            return existing as u32;
        }
        let vertex_offset = self.vertices.len() as u32;
        let vertex_count = vertices.len() as u32;
        let index_offset = self.indices.len() as u32;
        let index_count = indices.len() as u32;
        let mesh_index = self.meshes.len() as u32;
        let mut vertices = vertices;
        let mut indices = indices;
        self.meshes.push(Mesh::new(vertex_offset, vertex_count, index_offset, index_count));
        self.bounding_boxes.push(bounding_box);
        self.vertices.append(&mut vertices);
        self.indices.append(&mut indices);
        self.names.push(name);
        mesh_index
    }
}

} // verus!
