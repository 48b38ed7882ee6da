//! Materials and their deduplicating arena.
//!
//! A material is a fixed-size record of three texture references (base
//! color, normal, metallic-roughness); equality is structural and the
//! arena stores each unique combination once.

use vstd::prelude::*;

verus! {

/// A reference to one layer of one texture array: the array's binding
/// slot and the layer index inside it.
#[derive(Copy, Clone, PartialEq, Eq, Structural, Hash, Debug)]
pub struct TextureReference {
    pub texture_array_id: u32,
    pub texture_id: u32,
}

/// One material: the three texture channels every primitive must supply.
#[derive(Copy, Clone, PartialEq, Eq, Structural, Hash, Debug)]
pub struct Material {
    pub base_color_texture: TextureReference,
    pub normal_texture: TextureReference,
    pub metallic_roughness_texture: TextureReference,
}

impl Material {
    pub fn new(
        base_color_texture_array_id: u32,
        base_color_texture_id: u32,
        normal_texture_array_id: u32,
        normal_texture_id: u32,
        metallic_roughness_texture_array_id: u32,
        metallic_roughness_texture_id: u32,
    ) -> (r: Material)
        ensures
            r.base_color_texture == (TextureReference {
                texture_array_id: base_color_texture_array_id,
                texture_id: base_color_texture_id,
            }),
            r.normal_texture == (TextureReference {
                texture_array_id: normal_texture_array_id,
                texture_id: normal_texture_id,
            }),
            r.metallic_roughness_texture == (TextureReference {
                texture_array_id: metallic_roughness_texture_array_id,
                texture_id: metallic_roughness_texture_id,
            }),
    {
        Material {
            base_color_texture: TextureReference {
                texture_array_id: base_color_texture_array_id,
                texture_id: base_color_texture_id,
            },
            normal_texture: TextureReference {
                texture_array_id: normal_texture_array_id,
                texture_id: normal_texture_id,
            },
            metallic_roughness_texture: TextureReference {
                texture_array_id: metallic_roughness_texture_array_id,
                texture_id: metallic_roughness_texture_id,
            },
        }
    }
}

/// Whether `material` occurs among `materials`.
pub open spec fn spec_contains_material(materials: Seq<Material>, material: Material) -> bool {
    exists|j: int| 0 <= j < materials.len() && materials[j] == material
}

/// The position of `material` among `materials`; meaningful only when
/// the materials are pairwise distinct and `material` occurs.
pub open spec fn spec_material_index(materials: Seq<Material>, material: Material) -> int {
    choose|j: int| 0 <= j < materials.len() && materials[j] == material
}

/// Whether the materials are pairwise distinct.
pub open spec fn spec_materials_distinct(materials: Seq<Material>) -> bool {
    forall|i: int, j: int| 0 <= i < j < materials.len() ==> materials[i] != materials[j]
}

/// The deduplicating material arena: each unique material is stored once
/// and its identifier is its position.
#[derive(Debug)]
pub struct MaterialMap {
    pub materials: Vec<Material>,
}

impl MaterialMap {
    /// The arena never stores the same material twice.
    pub open spec fn wf(self) -> bool {
        spec_materials_distinct(self.materials@)
    }

    /// An empty arena.
    pub fn new() -> (r: MaterialMap)
        ensures
            r.wf(),
            r.materials@.len() == 0,
    {
        MaterialMap { materials: Vec::new() }
    }

    /// Inserts a material, or returns the identifier it already has: the
    /// arena's size equals the number of distinct materials ever offered.
    #[verifier::loop_isolation(false)]
    pub fn add(&mut self, material: Material) -> (r: u32)
        requires
            old(self).wf(),
            old(self).materials@.len() < 0xffff_ffff,
        ensures
            final(self).wf(),
            spec_contains_material(old(self).materials@, material) ==> r == spec_material_index(
                old(self).materials@,
                material,
            ) && *final(self) == *old(self),
            !spec_contains_material(old(self).materials@, material) ==> r == old(
                self,
            ).materials@.len() && final(self).materials@ == old(self).materials@.push(material),
    {
        let mut i: usize = 0;
        while i < self.materials.len()
            invariant
                i <= self.materials@.len(),
                forall|j: int| 0 <= j < i ==> self.materials@[j] != material,
            decreases self.materials@.len() - i,
        {
            if self.materials[i] == material {
                proof {
                    let j = spec_material_index(self.materials@, material);
                    assert(0 <= j < self.materials@.len() && self.materials@[j] == material);
                    assert(j == i);
                }
                return i as u32;
            }
            i = i + 1;
        }
        let index = self.materials.len() as u32;
        self.materials.push(material);
        index
    }
}

} // verus!
