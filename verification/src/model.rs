//! Flattened models: a forest of nodes over dense arrays, and the
//! deduplicating model arena keyed by canonical source path.

use vstd::prelude::*;
use crate::names::{find_name, spec_contains_name, spec_name_index, spec_names_distinct};

verus! {

/// One drawable: a mesh and the material it is drawn with.
#[derive(Copy, Clone, PartialEq, Eq, Structural, Debug)]
pub struct Object {
    pub mesh_id: u32,
    pub material_id: u32,
}

/// The drawables a node carries.
#[derive(Debug)]
pub struct ObjectGroup {
    pub objects: Vec<Object>,
}

/// One node of a flattened model: an optional name, optional drawables,
/// and the indices of its children in the model's node array.
#[derive(Debug)]
pub struct Node {
    pub name: Option<String>,
    pub object_group: Option<ObjectGroup>,
    pub children: Vec<usize>,
}

/// A model: a flat node array and the indices of its roots.
#[derive(Debug)]
pub struct Model {
    pub root_nodes: Vec<usize>,
    pub nodes: Vec<Node>,
}

impl Model {
    /// Every root index and every child index points into the node array.
    pub open spec fn wf(self) -> bool {
        &&& forall|r: int|
            0 <= r < self.root_nodes@.len() ==> (#[trigger] self.root_nodes@[r])
                < self.nodes@.len()
        &&& forall|n: int, c: int|
            0 <= n < self.nodes@.len() && 0 <= c < (#[trigger] self.nodes@[n]).children@.len()
                ==> #[trigger] self.nodes@[n].children@[c] < self.nodes@.len()
    }
}

/// The deduplicating model arena, keyed by canonical source path.
pub struct ModelMap {
    pub models: Vec<Model>,
    pub names: Vec<String>,
}

impl ModelMap {
    /// One name per model, no name twice, every model well-formed.
    pub open spec fn wf(self) -> bool {
        &&& self.names@.len() == self.models@.len()
        &&& spec_names_distinct(self.names@)
        &&& forall|i: int| 0 <= i < self.models@.len() ==> (#[trigger] self.models@[i]).wf()
    }

    /// An empty arena.
    pub fn new() -> (r: ModelMap)
        ensures
            r.wf(),
            r.models@.len() == 0,
    {
        ModelMap { models: Vec::new(), names: Vec::new() }
    }

    /// Inserts a model under `name`, or returns the identifier already
    /// stored under that name, leaving the arena unchanged. Loading the
    /// same canonical path twice therefore yields the same identifier
    /// and leaves the arena's size untouched.
    pub fn add(&mut self, name: String, model: Model) -> (r: usize)
        requires
            old(self).wf(),
            model.wf(),
        ensures
            final(self).wf(),
            spec_contains_name(old(self).names@, name@) ==> r == spec_name_index(
                old(self).names@,
                name@,
            ) && *final(self) == *old(self),
            !spec_contains_name(old(self).names@, name@) ==> {
                &&& r == old(self).models@.len()
                &&& final(self).models@ == old(self).models@.push(model)
                &&& final(self).names@ == old(self).names@.push(name)
            },
    {
        if let Some(existing) = find_name(&self.names, &name) {
            proof {
                crate::names::lemma_name_index_unique(self.names@, name@, existing as int);
            }
            return existing;
        }
        let index = self.models.len();
        self.models.push(model);
        self.names.push(name);
        index
    }

    /// The model with identifier `i`, if any.
    pub fn index(&self, i: usize) -> (r: Option<&Model>)
        ensures
            i < self.models@.len() ==> (r matches Some(m) && *m == self.models@[i as int]),
            i >= self.models@.len() ==> r is None,
    {
        if i < self.models.len() {
            Some(&self.models[i])
        } else {
            None
        }
    }

    /// The model stored under `name`, if any.
    pub fn get(&self, name: &String) -> (r: Option<&Model>)
        requires
            self.wf(),
        ensures
            spec_contains_name(self.names@, name@) ==> (r matches Some(m) && *m
                == self.models@[spec_name_index(self.names@, name@)]),
            !spec_contains_name(self.names@, name@) ==> r is None,
    {
        match find_name(&self.names, name) {
            Some(i) => {
                proof {
                    crate::names::lemma_name_index_unique(self.names@, name@, i as int);
                }
                Some(&self.models[i])
            },
            None => None,
        }
    }
}

/// Loading the same canonical path twice yields the same model id and
/// leaves the arena unchanged: once a model is stored under a name,
/// that name resolves to its position, so a repeated add returns the
/// stored id without touching the arena.
pub proof fn lemma_model_reload_dedup(m: ModelMap, name: Seq<char>, id: int)
    requires
        m.wf(),
        0 <= id < m.names@.len(),
        m.names@[id]@ == name,
    ensures
        spec_contains_name(m.names@, name),
        spec_name_index(m.names@, name) == id,
{
    crate::names::lemma_name_index_unique(m.names@, name, id);
}

} // verus!
