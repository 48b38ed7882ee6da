//! The asset store: deduplicated, indexed arenas of meshes, materials,
//! textures and models, populated from plain values that the I/O layer
//! reads off disk.

use vstd::prelude::*;
use crate::bytes::spec_le32_at;
use crate::container::{
    container_wf_check, read_container, spec_container_wf, spec_level_entry_count,
    spec_level_length, HEADER_FORMAT_OFFSET, HEADER_HEIGHT_OFFSET, HEADER_LEVEL_COUNT_OFFSET,
    HEADER_WIDTH_OFFSET,
};
use crate::error::AssetError;
use crate::material::{Material, MaterialMap};
use crate::mesh_map::MeshMap;
use crate::model::{Model, ModelMap, Node, Object, ObjectGroup};
use crate::model_input::{
    assemble_vertices, find_texture_file, indices_below, InputNode, InputPrimitive, ModelInput,
    TextureFile,
};
use crate::names::{find_name, spec_contains_name, spec_name_index};
use crate::texture::{
    spec_classify, spec_kind_dimension, spec_kind_mip_level_count, spec_mip_byte_length,
    TextureArray,
};
use crate::texture_arrays::TextureArrays;
use crate::texture_map::{spec_map_add_id, spec_map_add_result};

verus! {

/// Six layers of one texture array, one per cube face. All six faces
/// resolve to the same kind.
#[derive(Debug)]
pub struct Cubemap {
    pub texture_array: TextureArray,
    pub positive_x: u32,
    pub negative_x: u32,
    pub positive_y: u32,
    pub negative_y: u32,
    pub positive_z: u32,
    pub negative_z: u32,
}

/// Whether `name` occurs among the dictionary's keys.
pub open spec fn spec_dict_contains(
    dict: Seq<(String, TextureArray, u32)>,
    name: Seq<char>,
) -> bool {
    exists|j: int| 0 <= j < dict.len() && dict[j].0@ == name
}

/// The `(kind, id)` pair the dictionary holds for `name`; meaningful
/// when the keys are distinct and `name` occurs.
pub open spec fn spec_dict_lookup(
    dict: Seq<(String, TextureArray, u32)>,
    name: Seq<char>,
) -> Option<(TextureArray, u32)> {
    if spec_dict_contains(dict, name) {
        let j = choose|j: int| 0 <= j < dict.len() && dict[j].0@ == name;
        Some((dict[j].1, dict[j].2))
    } else {
        None
    }
}

/// Whether the dictionary's keys are pairwise distinct.
pub open spec fn spec_dict_distinct(dict: Seq<(String, TextureArray, u32)>) -> bool {
    forall|i: int, j: int| 0 <= i < j < dict.len() ==> dict[i].0@ != dict[j].0@
}

/// Looking up the key of a freshly appended entry finds that entry,
/// provided the key was absent before.
pub proof fn lemma_dict_push_same(
    dict: Seq<(String, TextureArray, u32)>,
    entry: (String, TextureArray, u32),
)
    requires
        !spec_dict_contains(dict, entry.0@),
        spec_dict_distinct(dict),
    ensures
        spec_dict_distinct(dict.push(entry)),
        spec_dict_lookup(dict.push(entry), entry.0@) == Some((entry.1, entry.2)),
{
    let pushed = dict.push(entry);
    assert(pushed[dict.len() as int].0@ == entry.0@);
    let j = choose|j: int| 0 <= j < pushed.len() && pushed[j].0@ == entry.0@;
    if j < dict.len() {
        assert(dict[j].0@ == entry.0@);
    }
}

/// A dictionary entry keeps answering lookups after the dictionary
/// either stayed as it was or grew by one entry under a different key.
pub proof fn lemma_lookup_preserved(
    pre: Seq<(String, TextureArray, u32)>,
    post: Seq<(String, TextureArray, u32)>,
    loaded: Seq<char>,
    other: Seq<char>,
)
    requires
        spec_dict_distinct(post),
        spec_dict_contains(pre, other),
        post == pre || (post.len() == pre.len() + 1 && (forall|j: int|
            0 <= j < pre.len() ==> post[j] == pre[j]) && post[pre.len() as int].0@ == loaded
            && !spec_dict_contains(pre, loaded)),
    ensures
        spec_dict_contains(post, other),
        spec_dict_lookup(post, other) == spec_dict_lookup(pre, other),
{
    if post != pre {
        assert(spec_dict_distinct(pre));
        let j1 = choose|j: int| 0 <= j < pre.len() && pre[j].0@ == other;
        assert(post[j1].0@ == other);
        assert(loaded != other);
        let j2 = choose|j: int| 0 <= j < post.len() && post[j].0@ == other;
        assert(j2 != pre.len());
        assert(pre[j2].0@ == other);
        assert(j1 == j2);
    }
}

/// A key absent from the dictionary stays absent after the dictionary
/// either stayed as it was or grew by one entry under a different key.
pub proof fn lemma_absent_preserved(
    pre: Seq<(String, TextureArray, u32)>,
    post: Seq<(String, TextureArray, u32)>,
    loaded: Seq<char>,
    other: Seq<char>,
)
    requires
        !spec_dict_contains(pre, other),
        loaded != other,
        post == pre || (post.len() == pre.len() + 1 && (forall|j: int|
            0 <= j < pre.len() ==> post[j] == pre[j]) && post[pre.len() as int].0@ == loaded),
    ensures
        !spec_dict_contains(post, other),
{
    if post != pre {
        if spec_dict_contains(post, other) {
            let j = choose|j: int| 0 <= j < post.len() && post[j].0@ == other;
            assert(j != pre.len());
            assert(pre[j].0@ == other);
        }
    }
}

/// Names pairwise distinct and none of them yet in the dictionary.
pub open spec fn spec_names_fresh(
    dict: Seq<(String, TextureArray, u32)>,
    names: Seq<Seq<char>>,
) -> bool {
    &&& forall|i: int, j: int| 0 <= i < j < names.len() ==> names[i] != names[j]
    &&& forall|i: int| 0 <= i < names.len() ==> !spec_dict_contains(dict, names[i])
}

/// Copies an index list so the arena can own it.
fn copy_indices(src: &Vec<u32>) -> (r: Vec<u32>)
    ensures
        r@ == src@,
{
    let mut r: Vec<u32> = Vec::new();
    let mut i: usize = 0;
    while i < src.len()
        invariant
            i <= src@.len(),
            r@ == src@.subrange(0, i as int),
        decreases src@.len() - i,
    {
        r.push(src[i]);
        proof {
            assert(src@.subrange(0, i as int).push(src@[i as int]) =~= src@.subrange(
                0,
                i + 1 as int,
            ));
        }
        i = i + 1;
    }
    proof {
        assert(src@.subrange(0, src@.len() as int) =~= src@);
    }
    r
}

/// Finds the entry stored under `name`, if any.
fn find_dict(dict: &Vec<(String, TextureArray, u32)>, name: &String) -> (r: Option<
    (TextureArray, u32),
>)
    requires
        spec_dict_distinct(dict@),
    ensures
        r == spec_dict_lookup(dict@, name@),
{
    let mut i: usize = 0;
    while i < dict.len()
        invariant
            i <= dict@.len(),
            spec_dict_distinct(dict@),
            forall|j: int| 0 <= j < i ==> dict@[j].0@ != name@,
        decreases dict@.len() - i,
    {
        let entry = &dict[i];
        if entry.0 == *name {
            proof {
                let j = choose|j: int| 0 <= j < dict@.len() && dict@[j].0@ == name@;
                assert(dict@[i as int].0@ == name@);
                assert(j == i);
            }
            return Some((entry.1, entry.2));
        }
        i = i + 1;
    }
    None
}

/// The container header fields the classifier reads, as functions of
/// the container's bytes.
pub open spec fn spec_header_format(data: Seq<u8>) -> u32 {
    spec_le32_at(data, HEADER_FORMAT_OFFSET as int) as u32
}

pub open spec fn spec_header_width(data: Seq<u8>) -> u32 {
    spec_le32_at(data, HEADER_WIDTH_OFFSET as int) as u32
}

pub open spec fn spec_header_height(data: Seq<u8>) -> u32 {
    spec_le32_at(data, HEADER_HEIGHT_OFFSET as int) as u32
}

pub open spec fn spec_header_level_count(data: Seq<u8>) -> u32 {
    spec_le32_at(data, HEADER_LEVEL_COUNT_OFFSET as int) as u32
}

/// The kind a container's header classifies to, if any.
pub open spec fn spec_header_classify(data: Seq<u8>) -> Option<TextureArray> {
    spec_classify(
        spec_header_format(data),
        spec_header_width(data),
        spec_header_height(data),
        spec_header_level_count(data),
    )
}

/// The level payloads of a container, as byte sequences in level order.
pub open spec fn spec_container_level_views(data: Seq<u8>) -> Seq<Seq<u8>> {
    Seq::new(
        spec_level_entry_count(data) as nat,
        |i: int|
            data.subrange(
                crate::container::spec_level_offset(data, i),
                crate::container::spec_level_offset(data, i) + spec_level_length(data, i),
            ),
    )
}

/// Whether a container's level payloads have exactly the lengths its
/// classified kind dictates.
pub open spec fn spec_container_levels_match(data: Seq<u8>, kind: TextureArray) -> bool {
    &&& spec_level_entry_count(data) == spec_kind_mip_level_count(kind)
    &&& forall|m: int|
        0 <= m < spec_level_entry_count(data) ==> spec_level_length(data, m)
            == spec_mip_byte_length(spec_kind_dimension(kind), m as u32)
}

/// Whether a container is a well-formed cubemap face: it parses, routes
/// to the one kind cubemaps allow, and its level payloads fit.
pub open spec fn spec_cubemap_face_ok(data: Seq<u8>) -> bool {
    &&& spec_container_wf(data)
    &&& spec_header_classify(data) == Some(TextureArray::NoMipRgbBc6hSFloat1024)
    &&& spec_container_levels_match(data, TextureArray::NoMipRgbBc6hSFloat1024)
}

/// What loading a texture under `name` from `data` returns, as a
/// function of the store and the bytes: the dictionary entry if the
/// name was already loaded; otherwise the classified kind and the
/// layer the matching store assigns, or the exact error.
pub open spec fn spec_load_texture_result(
    s: AssetLoader,
    name: String,
    data: Seq<u8>,
) -> Result<(TextureArray, u32), AssetError> {
    match spec_dict_lookup(s.texture_dictionary@, name@) {
        Some(pair) => Ok(pair),
        None => {
            if !spec_container_wf(data) {
                Err(AssetError::InvalidTexture { name })
            } else {
                match spec_header_classify(data) {
                    None => Err(
                        AssetError::UnsupportedTextureFormat {
                            name,
                            format: spec_header_format(data),
                            width: spec_header_width(data),
                            height: spec_header_height(data),
                            mip_level_count: spec_header_level_count(data),
                        },
                    ),
                    Some(kind) => {
                        if spec_container_levels_match(data, kind) {
                            Ok(
                                (
                                    kind,
                                    spec_map_add_id(
                                        s.texture_arrays.spec_map_of(kind),
                                        name@,
                                    ) as u32,
                                ),
                            )
                        } else {
                            Err(AssetError::InvalidTexture { name })
                        }
                    },
                }
            }
        },
    }
}

/// The outcome of loading a face whose name is not yet in the store: the
/// classified kind, or the exact error, as a function of the name and
/// the bytes alone.
pub open spec fn spec_fresh_face_result(name: String, data: Seq<u8>) -> Result<
    TextureArray,
    AssetError,
> {
    if !spec_container_wf(data) {
        Err(AssetError::InvalidTexture { name })
    } else {
        match spec_header_classify(data) {
            None => Err(
                AssetError::UnsupportedTextureFormat {
                    name,
                    format: spec_header_format(data),
                    width: spec_header_width(data),
                    height: spec_header_height(data),
                    mip_level_count: spec_header_level_count(data),
                },
            ),
            Some(kind) => {
                if spec_container_levels_match(data, kind) {
                    Ok(kind)
                } else {
                    Err(AssetError::InvalidTexture { name })
                }
            },
        }
    }
}

/// Once a name is in the dictionary, loading it again returns the same
/// `(kind, id)` pair, whatever bytes are supplied: the store never
/// decodes a name twice.
pub proof fn lemma_texture_reload_dedup(
    s: AssetLoader,
    name: String,
    data: Seq<u8>,
    kind: TextureArray,
    id: u32,
)
    requires
        spec_dict_lookup(s.texture_dictionary@, name@) == Some((kind, id)),
    ensures
        spec_load_texture_result(s, name, data) == Ok::<(TextureArray, u32), AssetError>(
            (kind, id),
        ),
{
}


/// A container any texture load accepts: it parses, its header tuple
/// classifies, and its level payloads carry the dictated lengths.
pub open spec fn spec_texture_bytes_ok(data: Seq<u8>) -> bool {
    &&& spec_container_wf(data)
    &&& spec_header_classify(data) is Some
    &&& spec_container_levels_match(data, spec_header_classify(data)->0)
}

/// One dictionary extends another: nothing already stored is removed
/// or changed.
pub open spec fn spec_dict_extends(
    pre: Seq<(String, TextureArray, u32)>,
    post: Seq<(String, TextureArray, u32)>,
) -> bool {
    &&& post.len() >= pre.len()
    &&& forall|k: int| 0 <= k < pre.len() ==> post[k] == pre[k]
}

/// An entry stays visible through a dictionary extension.
pub proof fn lemma_contains_extends(
    pre: Seq<(String, TextureArray, u32)>,
    post: Seq<(String, TextureArray, u32)>,
    name: Seq<char>,
)
    requires
        spec_dict_contains(pre, name),
        spec_dict_extends(pre, post),
    ensures
        spec_dict_contains(post, name),
{
    let j = choose|j: int| 0 <= j < pre.len() && pre[j].0@ == name;
    assert(post[j].0@ == name);
}

/// A texture channel a primitive load accepts: the channel is named,
/// the table holds a file under that name, and the first such file is
/// either already stored under its name or carries acceptable bytes.
pub open spec fn spec_channel_ok(
    dict: Seq<(String, TextureArray, u32)>,
    textures: Seq<TextureFile>,
    channel: Option<String>,
) -> bool {
    match channel {
        None => false,
        Some(name) => exists|i: int|
            #![trigger textures[i]]
            {
                &&& 0 <= i < textures.len()
                &&& textures[i].name@ == name@
                &&& forall|j: int| 0 <= j < i ==> textures[j].name@ != name@
                &&& spec_dict_contains(dict, name@) || spec_texture_bytes_ok(textures[i].data@)
            },
    }
}

/// A primitive a load accepts: all three channels acceptable and every
/// index local to the primitive's own vertices.
pub open spec fn spec_primitive_ok(
    dict: Seq<(String, TextureArray, u32)>,
    textures: Seq<TextureFile>,
    p: InputPrimitive,
) -> bool {
    &&& spec_channel_ok(dict, textures, p.base_color_texture)
    &&& spec_channel_ok(dict, textures, p.normal_texture)
    &&& spec_channel_ok(dict, textures, p.metallic_roughness_texture)
    &&& forall|k: int|
        0 <= k < p.indices@.len() ==> (#[trigger] p.indices@[k])
            < crate::model_input::spec_primitive_vertex_count(p)
}

/// Every primitive of every node acceptable.
pub open spec fn spec_primitives_ok(
    dict: Seq<(String, TextureArray, u32)>,
    textures: Seq<TextureFile>,
    nodes: Seq<InputNode>,
) -> bool {
    forall|j: int, pi: int|
        0 <= j < nodes.len() && nodes[j].mesh is Some && 0 <= pi < nodes[j].mesh->0@.len()
            ==> spec_primitive_ok(dict, textures, #[trigger] nodes[j].mesh->0@[pi])
}

/// A channel stays acceptable as the dictionary grows.
pub proof fn lemma_channel_ok_extends(
    pre: Seq<(String, TextureArray, u32)>,
    post: Seq<(String, TextureArray, u32)>,
    textures: Seq<TextureFile>,
    channel: Option<String>,
)
    requires
        spec_channel_ok(pre, textures, channel),
        spec_dict_extends(pre, post),
    ensures
        spec_channel_ok(post, textures, channel),
{
    match channel {
        None => {},
        Some(name) => {
            let i = choose|i: int|
                #![trigger textures[i]]
                {
                    &&& 0 <= i < textures.len()
                    &&& textures[i].name@ == name@
                    &&& forall|j: int| 0 <= j < i ==> textures[j].name@ != name@
                    &&& spec_dict_contains(pre, name@) || spec_texture_bytes_ok(
                        textures[i].data@,
                    )
                };
            if spec_dict_contains(pre, name@) {
                lemma_contains_extends(pre, post, name@);
            }
            assert(textures[i].name@ == name@ && (forall|j: int|
                0 <= j < i ==> textures[j].name@ != name@) && (spec_dict_contains(post, name@)
                || spec_texture_bytes_ok(textures[i].data@)));
        },
    }
}

/// A primitive stays acceptable as the dictionary grows.
pub proof fn lemma_primitive_ok_extends(
    pre: Seq<(String, TextureArray, u32)>,
    post: Seq<(String, TextureArray, u32)>,
    textures: Seq<TextureFile>,
    p: InputPrimitive,
)
    requires
        spec_primitive_ok(pre, textures, p),
        spec_dict_extends(pre, post),
    ensures
        spec_primitive_ok(post, textures, p),
{
    lemma_channel_ok_extends(pre, post, textures, p.base_color_texture);
    lemma_channel_ok_extends(pre, post, textures, p.normal_texture);
    lemma_channel_ok_extends(pre, post, textures, p.metallic_roughness_texture);
}

/// How one stored node mirrors its input node under a flattening
/// order: the same children (through the order), and one drawable per
/// input primitive with identifiers inside the arenas.
pub open spec fn spec_node_flattened(
    input: ModelInput,
    out_nodes: Seq<Node>,
    order: Seq<usize>,
    k: int,
    mesh_len: int,
    material_len: int,
) -> bool {
    let inp = input.nodes@[order[k] as int];
    &&& out_nodes[k].children@.len() == inp.children@.len()
    &&& forall|c: int|
        0 <= c < inp.children@.len() ==> (#[trigger] out_nodes[k].children@[c]) < order.len()
            && order[out_nodes[k].children@[c] as int] == inp.children@[c]
    &&& match inp.mesh {
        None => out_nodes[k].object_group is None,
        Some(prims) => out_nodes[k].object_group matches Some(g) && g.objects@.len()
            == prims@.len() && forall|o: int|
            0 <= o < g.objects@.len() ==> (#[trigger] g.objects@[o]).mesh_id < mesh_len
                && g.objects@[o].material_id < material_len,
    }
}

/// How a freshly stored model mirrors its input: the order lists the
/// input node discovered at each flat index — injectively, roots
/// first — and every stored node mirrors its input node.
pub open spec fn spec_flatten_witness(
    input: ModelInput,
    m: Model,
    order: Seq<usize>,
    mesh_len: int,
    material_len: int,
) -> bool {
    &&& order.len() == m.nodes@.len()
    &&& input.root_nodes@.len() <= order.len()
    &&& forall|k: int| 0 <= k < order.len() ==> (#[trigger] order[k]) < input.nodes@.len()
    &&& forall|k1: int, k2: int| 0 <= k1 < k2 < order.len() ==> order[k1] != order[k2]
    &&& forall|r: int|
        0 <= r < input.root_nodes@.len() ==> #[trigger] order[r] == input.root_nodes@[r]
    &&& forall|k: int|
        0 <= k < order.len() ==> spec_node_flattened(
            input,
            m.nodes@,
            order,
            k,
            mesh_len,
            material_len,
        )
}


/// An acceptable channel's first table file either already answers
/// from a dictionary extending the one it was judged against, or its
/// bytes are acceptable; a load of it therefore cannot fail.
proof fn refute_channel_on_error(
    dict0: Seq<(String, TextureArray, u32)>,
    dict_at_call: Seq<(String, TextureArray, u32)>,
    textures: Seq<TextureFile>,
    channel: Option<String>,
    file: TextureFile,
)
    requires
        spec_dict_extends(dict0, dict_at_call),
        channel matches Some(name) ==> exists|i: int|
            #![trigger textures[i]]
            {
                &&& 0 <= i < textures.len()
                &&& file == textures[i]
                &&& textures[i].name@ == name@
                &&& forall|j: int| 0 <= j < i ==> textures[j].name@ != name@
            },
    ensures
        spec_channel_ok(dict0, textures, channel) ==> (channel matches Some(name)
            && (spec_dict_contains(dict_at_call, name@) || spec_texture_bytes_ok(file.data@))),
{
    if spec_channel_ok(dict0, textures, channel) {
        match channel {
            None => {},
            Some(name) => {
                let i_ok = choose|i: int|
                    #![trigger textures[i]]
                    {
                        &&& 0 <= i < textures.len()
                        &&& textures[i].name@ == name@
                        &&& forall|j: int| 0 <= j < i ==> textures[j].name@ != name@
                        &&& spec_dict_contains(dict0, name@) || spec_texture_bytes_ok(
                            textures[i].data@,
                        )
                    };
                let i_found = choose|i: int|
                    #![trigger textures[i]]
                    {
                        &&& 0 <= i < textures.len()
                        &&& file == textures[i]
                        &&& textures[i].name@ == name@
                        &&& forall|j: int| 0 <= j < i ==> textures[j].name@ != name@
                    };
                assert(i_ok == i_found);
                if spec_dict_contains(dict0, name@) {
                    lemma_contains_extends(dict0, dict_at_call, name@);
                }
            },
        }
    }
}


/// Node correspondence survives arena growth: identifier bounds only
/// loosen as the arenas fill.
proof fn lemma_node_flattened_grows(
    input: ModelInput,
    out_nodes: Seq<Node>,
    order: Seq<usize>,
    k: int,
    mesh_len_before: int,
    material_len_before: int,
    mesh_len_after: int,
    material_len_after: int,
)
    requires
        spec_node_flattened(input, out_nodes, order, k, mesh_len_before, material_len_before),
        mesh_len_before <= mesh_len_after,
        material_len_before <= material_len_after,
    ensures
        spec_node_flattened(input, out_nodes, order, k, mesh_len_after, material_len_after),
{
}


/// Node correspondence depends only on the one stored node: any node
/// list agreeing at that position satisfies it alike.
proof fn lemma_node_flattened_same_entry(
    input: ModelInput,
    out_before: Seq<Node>,
    out_after: Seq<Node>,
    order: Seq<usize>,
    k: int,
    mesh_len: int,
    material_len: int,
)
    requires
        spec_node_flattened(input, out_before, order, k, mesh_len, material_len),
        0 <= k < out_before.len(),
        k < out_after.len(),
        out_after[k] == out_before[k],
    ensures
        spec_node_flattened(input, out_after, order, k, mesh_len, material_len),
{
}

/// The deduplicated asset store. Entries are append-only during scene
/// load; a failed load leaves a consistent, partially populated store
/// that callers discard.
pub struct AssetLoader {
    pub mesh_map: MeshMap,
    pub texture_arrays: TextureArrays,
    pub texture_dictionary: Vec<(String, TextureArray, u32)>,
    pub material_map: MaterialMap,
    pub model_map: ModelMap,
}

impl AssetLoader {
    /// Every arena is well-formed and the dictionary's keys are unique.
    pub open spec fn wf(self) -> bool {
        &&& self.mesh_map.wf()
        &&& self.texture_arrays.wf()
        &&& self.material_map.wf()
        &&& self.model_map.wf()
        &&& spec_dict_distinct(self.texture_dictionary@)
    }

    /// An empty store.
    pub fn new() -> (r: AssetLoader)
        ensures
            r.wf(),
            r.mesh_map.meshes@.len() == 0,
            r.material_map.materials@.len() == 0,
            r.model_map.models@.len() == 0,
            r.texture_dictionary@.len() == 0,
            forall|kind: TextureArray|
                (#[trigger] r.texture_arrays.spec_map_of(kind)).names@.len() == 0,
    {
        AssetLoader {
            mesh_map: MeshMap::new(),
            texture_arrays: TextureArrays::new(),
            texture_dictionary: Vec::new(),
            material_map: MaterialMap::new(),
            model_map: ModelMap::new(),
        }
    }

    /// Loads a block-compressed texture from `data` under the canonical
    /// `name`, classifying it into one of the thirteen arrays. A name
    /// already in the dictionary is answered from it without touching
    /// the store.
    pub fn load_texture(&mut self, name: String, data: &Vec<u8>) -> (res: Result<
        (TextureArray, u32),
        AssetError,
    >)
        requires
            old(self).wf(),
            spec_dict_contains(old(self).texture_dictionary@, name@) || old(
                self,
            ).texture_arrays.spec_has_capacity(1),
        ensures
            final(self).wf(),
            final(self).mesh_map == old(self).mesh_map,
            final(self).material_map == old(self).material_map,
            final(self).model_map == old(self).model_map,
            final(self).texture_dictionary@.len() >= old(self).texture_dictionary@.len(),
            forall|k: int|
                0 <= k < old(self).texture_dictionary@.len() ==> final(self).texture_dictionary@[k]
                    == old(self).texture_dictionary@[k],
            forall|kind: TextureArray|
                (#[trigger] final(self).texture_arrays.spec_map_of(kind)).names@.len() >= old(
                    self,
                ).texture_arrays.spec_map_of(kind).names@.len(),
            res == spec_load_texture_result(*old(self), name, data@),
            res is Err ==> *final(self) == *old(self),
            spec_dict_contains(old(self).texture_dictionary@, name@) ==> *final(self) == *old(
                self,
            ),
            res matches Ok(pair) ==> spec_dict_lookup(final(self).texture_dictionary@, name@)
                == Some(pair),
            res is Ok && !spec_dict_contains(old(self).texture_dictionary@, name@) ==> {
                &&& final(self).texture_dictionary@.len() == old(
                    self,
                ).texture_dictionary@.len() + 1
                &&& forall|j: int|
                    0 <= j < old(self).texture_dictionary@.len() ==> final(
                        self
                    ).texture_dictionary@[j] == old(self).texture_dictionary@[j]
                &&& final(self).texture_dictionary@[old(self).texture_dictionary@.len() as int].0@
                    == name@
                &&& spec_map_add_result(
                    old(self).texture_arrays.spec_map_of(res->Ok_0.0),
                    final(self).texture_arrays.spec_map_of(res->Ok_0.0),
                    name@,
                    spec_container_level_views(data@),
                    res->Ok_0.1,
                )
                &&& forall|other: TextureArray|
                    other != res->Ok_0.0 ==> final(self).texture_arrays.spec_map_of(other) == old(
                        self,
                    ).texture_arrays.spec_map_of(other)
            },
    {
        if let Some(pair) = find_dict(&self.texture_dictionary, &name) {
            return Ok(pair);
        }
        if !container_wf_check(data) {
            return Err(AssetError::InvalidTexture { name });
        }
        let dictionary_name = name.clone();
        let texture = read_container(data);
        let ghost level_views = texture.levels@.map_values(|level: Vec<u8>| level@);
        proof {
            assert(texture.levels@.len() == spec_level_entry_count(data@));
            assert forall|m: int| 0 <= m < texture.levels@.len() implies (
            #[trigger] texture.levels@[m])@.len() == spec_level_length(data@, m) by {
                assert(texture.levels@[m]@ == data@.subrange(
                    crate::container::spec_level_offset(data@, m),
                    crate::container::spec_level_offset(data@, m) + spec_level_length(data@, m),
                ));
            }
            assert(level_views =~~= spec_container_level_views(data@));
        }
        match self.texture_arrays.add(name, texture) {
            Ok((kind, id)) => {
                proof {
                    lemma_dict_push_same(
                        self.texture_dictionary@,
                        (dictionary_name, kind, id),
                    );
                    assert forall|k2: TextureArray|
                        (#[trigger] self.texture_arrays.spec_map_of(k2)).names@.len() >= old(
                            self,
                        ).texture_arrays.spec_map_of(k2).names@.len() by {
                        if k2 != kind {
                            assert(self.texture_arrays.spec_map_of(k2) == old(
                                self,
                            ).texture_arrays.spec_map_of(k2));
                        }
                    }
                }
                self.texture_dictionary.push((dictionary_name, kind, id));
                Ok((kind, id))
            },
            Err(e) => Err(e),
        }
    }


    /// One cubemap face: loads the texture and restates the outcome in
    /// the form the cubemap proof consumes.
    fn load_face(&mut self, name: String, data: &Vec<u8>) -> (res: Result<
        (TextureArray, u32),
        AssetError,
    >)
        requires
            old(self).wf(),
            spec_dict_contains(old(self).texture_dictionary@, name@) || old(
                self,
            ).texture_arrays.spec_has_capacity(1),
        ensures
            final(self).wf(),
            final(self).mesh_map == old(self).mesh_map,
            final(self).material_map == old(self).material_map,
            final(self).model_map == old(self).model_map,
            final(self).texture_dictionary@.len() >= old(self).texture_dictionary@.len(),
            forall|k: int|
                0 <= k < old(self).texture_dictionary@.len() ==> final(self).texture_dictionary@[k]
                    == old(self).texture_dictionary@[k],
            final(self).texture_dictionary@ == old(self).texture_dictionary@ || (final(
                self
            ).texture_dictionary@.len() == old(self).texture_dictionary@.len() + 1 && (forall|j: int|
                0 <= j < old(self).texture_dictionary@.len() ==> final(self).texture_dictionary@[j]
                    == old(self).texture_dictionary@[j]) && final(self).texture_dictionary@[old(
                self,
            ).texture_dictionary@.len() as int].0@ == name@ && !spec_dict_contains(
                old(self).texture_dictionary@,
                name@,
            )),
            forall|kind: TextureArray|
                (#[trigger] final(self).texture_arrays.spec_map_of(kind)).names@.len() <= old(
                    self,
                ).texture_arrays.spec_map_of(kind).names@.len() + 1,
            forall|kind: TextureArray|
                (#[trigger] final(self).texture_arrays.spec_map_of(kind)).names@.len() >= old(
                    self,
                ).texture_arrays.spec_map_of(kind).names@.len(),
            res is Err ==> *final(self) == *old(self),
            res is Ok ==> spec_dict_lookup(final(self).texture_dictionary@, name@) == Some(
                res->Ok_0,
            ),
            !spec_dict_contains(old(self).texture_dictionary@, name@) ==> match spec_fresh_face_result(
                name,
                data@,
            ) {
                Ok(k) => res is Ok && res->Ok_0.0 == k,
                Err(e) => res == Err::<(TextureArray, u32), AssetError>(e),
            },
    {
        self.load_texture(name, data)
    }

    /// Loads six textures as the faces of a cubemap. All six must
    /// resolve to the one kind cubemaps allow; a face that resolves
    /// elsewhere fails the load, and every face successfully stored
    /// before the failure remains stored.
    #[verifier::rlimit(100)]
    #[verifier::spinoff_prover]
    pub fn load_cubemap(
        &mut self,
        positive_x_name: String,
        positive_x_data: &Vec<u8>,
        negative_x_name: String,
        negative_x_data: &Vec<u8>,
        positive_y_name: String,
        positive_y_data: &Vec<u8>,
        negative_y_name: String,
        negative_y_data: &Vec<u8>,
        positive_z_name: String,
        positive_z_data: &Vec<u8>,
        negative_z_name: String,
        negative_z_data: &Vec<u8>,
    ) -> (res: Result<Cubemap, AssetError>)
        requires
            old(self).wf(),
            old(self).texture_arrays.spec_has_capacity(6),
        ensures
            final(self).wf(),
            final(self).mesh_map == old(self).mesh_map,
            final(self).material_map == old(self).material_map,
            final(self).model_map == old(self).model_map,
            final(self).texture_dictionary@.len() >= old(self).texture_dictionary@.len(),
            forall|k: int|
                0 <= k < old(self).texture_dictionary@.len() ==> final(self).texture_dictionary@[k]
                    == old(self).texture_dictionary@[k],
            forall|kind: TextureArray|
                (#[trigger] final(self).texture_arrays.spec_map_of(kind)).names@.len() >= old(
                    self,
                ).texture_arrays.spec_map_of(kind).names@.len(),
            res matches Ok(c) ==> {
                &&& c.texture_array == TextureArray::NoMipRgbBc6hSFloat1024
                &&& spec_dict_lookup(final(self).texture_dictionary@, positive_x_name@) == Some(
                    (c.texture_array, c.positive_x),
                )
                &&& spec_dict_lookup(final(self).texture_dictionary@, negative_x_name@) == Some(
                    (c.texture_array, c.negative_x),
                )
                &&& spec_dict_lookup(final(self).texture_dictionary@, positive_y_name@) == Some(
                    (c.texture_array, c.positive_y),
                )
                &&& spec_dict_lookup(final(self).texture_dictionary@, negative_y_name@) == Some(
                    (c.texture_array, c.negative_y),
                )
                &&& spec_dict_lookup(final(self).texture_dictionary@, positive_z_name@) == Some(
                    (c.texture_array, c.positive_z),
                )
                &&& spec_dict_lookup(final(self).texture_dictionary@, negative_z_name@) == Some(
                    (c.texture_array, c.negative_z),
                )
            },
            spec_names_fresh(
                old(self).texture_dictionary@,
                seq![
                    positive_x_name@,
                    negative_x_name@,
                    positive_y_name@,
                    negative_y_name@,
                    positive_z_name@,
                    negative_z_name@,
                ],
            ) ==> ({
                let f1 = spec_fresh_face_result(positive_x_name, positive_x_data@);
                let f2 = spec_fresh_face_result(negative_x_name, negative_x_data@);
                let f3 = spec_fresh_face_result(positive_y_name, positive_y_data@);
                let f4 = spec_fresh_face_result(negative_y_name, negative_y_data@);
                let f5 = spec_fresh_face_result(positive_z_name, positive_z_data@);
                let f6 = spec_fresh_face_result(negative_z_name, negative_z_data@);
                let ok1 = spec_cubemap_face_ok(positive_x_data@);
                let ok2 = spec_cubemap_face_ok(negative_x_data@);
                let ok3 = spec_cubemap_face_ok(positive_y_data@);
                let ok4 = spec_cubemap_face_ok(negative_y_data@);
                let ok5 = spec_cubemap_face_ok(positive_z_data@);
                let ok6 = spec_cubemap_face_ok(negative_z_data@);
                &&& f1 is Err ==> res == Err::<Cubemap, AssetError>(f1->Err_0)
                &&& f1 is Ok && f1->Ok_0 != TextureArray::NoMipRgbBc6hSFloat1024 ==> (res matches
                    Err(AssetError::InvalidCubemapTexture { name }) && name@ == positive_x_name@)
                &&& ok1 && f2 is Err ==> res == Err::<Cubemap, AssetError>(f2->Err_0)
                &&& ok1 && f2 is Ok && f2->Ok_0 != TextureArray::NoMipRgbBc6hSFloat1024 ==> (
                res matches Err(AssetError::NonMatchingCubemapTexture { name }) && name@
                    == negative_x_name@)
                &&& ok1 && ok2 && f3 is Err ==> res == Err::<Cubemap, AssetError>(f3->Err_0)
                &&& ok1 && ok2 && f3 is Ok && f3->Ok_0
                    != TextureArray::NoMipRgbBc6hSFloat1024 ==> (res matches Err(
                AssetError::NonMatchingCubemapTexture { name }) && name@ == positive_y_name@)
                &&& ok1 && ok2 && ok3 && f4 is Err ==> res == Err::<Cubemap, AssetError>(
                    f4->Err_0,
                )
                &&& ok1 && ok2 && ok3 && f4 is Ok && f4->Ok_0
                    != TextureArray::NoMipRgbBc6hSFloat1024 ==> (res matches Err(
                AssetError::NonMatchingCubemapTexture { name }) && name@ == negative_y_name@)
                &&& ok1 && ok2 && ok3 && ok4 && f5 is Err ==> res == Err::<Cubemap, AssetError>(
                    f5->Err_0,
                )
                &&& ok1 && ok2 && ok3 && ok4 && f5 is Ok && f5->Ok_0
                    != TextureArray::NoMipRgbBc6hSFloat1024 ==> (res matches Err(
                AssetError::NonMatchingCubemapTexture { name }) && name@ == positive_z_name@)
                &&& ok1 && ok2 && ok3 && ok4 && ok5 && f6 is Err ==> res == Err::<
                    Cubemap,
                    AssetError,
                >(f6->Err_0)
                &&& ok1 && ok2 && ok3 && ok4 && ok5 && f6 is Ok && f6->Ok_0
                    != TextureArray::NoMipRgbBc6hSFloat1024 ==> (res matches Err(
                AssetError::NonMatchingCubemapTexture { name }) && name@ == negative_z_name@)
                &&& ok1 && ok2 && ok3 && ok4 && ok5 && ok6 ==> res is Ok
                &&& ok1 ==> (spec_dict_lookup(
                    final(self).texture_dictionary@,
                    positive_x_name@,
                ) matches Some(pair) && pair.0 == TextureArray::NoMipRgbBc6hSFloat1024)
                &&& ok1 && ok2 ==> (spec_dict_lookup(
                    final(self).texture_dictionary@,
                    negative_x_name@,
                ) matches Some(pair) && pair.0 == TextureArray::NoMipRgbBc6hSFloat1024)
                &&& ok1 && ok2 && ok3 ==> (spec_dict_lookup(
                    final(self).texture_dictionary@,
                    positive_y_name@,
                ) matches Some(pair) && pair.0 == TextureArray::NoMipRgbBc6hSFloat1024)
                &&& ok1 && ok2 && ok3 && ok4 ==> (spec_dict_lookup(
                    final(self).texture_dictionary@,
                    negative_y_name@,
                ) matches Some(pair) && pair.0 == TextureArray::NoMipRgbBc6hSFloat1024)
                &&& ok1 && ok2 && ok3 && ok4 && ok5 ==> (spec_dict_lookup(
                    final(self).texture_dictionary@,
                    positive_z_name@,
                ) matches Some(pair) && pair.0 == TextureArray::NoMipRgbBc6hSFloat1024)
            }),
    {
        let ghost n1 = positive_x_name@;
        let ghost n2 = negative_x_name@;
        let ghost n3 = positive_y_name@;
        let ghost n4 = negative_y_name@;
        let ghost n5 = positive_z_name@;
        let ghost n6 = negative_z_name@;
        let ghost names6: Seq<Seq<char>> = seq![n1, n2, n3, n4, n5, n6];
        let ghost fresh = spec_names_fresh(old(self).texture_dictionary@, names6);
        proof {
            if fresh {
                assert(!spec_dict_contains(old(self).texture_dictionary@, n1));
                assert(!spec_dict_contains(old(self).texture_dictionary@, n2));
                assert(!spec_dict_contains(old(self).texture_dictionary@, n3));
                assert(!spec_dict_contains(old(self).texture_dictionary@, n4));
                assert(!spec_dict_contains(old(self).texture_dictionary@, n5));
                assert(!spec_dict_contains(old(self).texture_dictionary@, n6));
            }
        }
        let invalid_name = positive_x_name.clone();
        let ghost dict_before = self.texture_dictionary@;
        let (texture_array, positive_x) = match self.load_face(
            positive_x_name,
            positive_x_data,
        ) {
            Ok(pair) => pair,
            Err(e) => {
                return Err(e);
            },
        };
        proof {
            let dnow = self.texture_dictionary@;
            assert(dnow == dict_before || (dnow.len() == dict_before.len() + 1 && (forall|j: int|
                0 <= j < dict_before.len() ==> dnow[j] == dict_before[j])
                && dnow[dict_before.len() as int].0@ == n1 && !spec_dict_contains(
                dict_before,
                n1,
            )));
            if fresh {
                lemma_absent_preserved(dict_before, dnow, n1, n2);
                lemma_absent_preserved(dict_before, dnow, n1, n3);
                lemma_absent_preserved(dict_before, dnow, n1, n4);
                lemma_absent_preserved(dict_before, dnow, n1, n5);
                lemma_absent_preserved(dict_before, dnow, n1, n6);
            }
        }
        if texture_array != TextureArray::NoMipRgbBc6hSFloat1024 {
            return Err(AssetError::InvalidCubemapTexture { name: invalid_name });
        }
        let mismatch_name = negative_x_name.clone();
        let ghost dict_before = self.texture_dictionary@;
        let (kind, negative_x) = match self.load_face(negative_x_name, negative_x_data) {
            Ok(pair) => pair,
            Err(e) => {
                return Err(e);
            },
        };
        proof {
            let dnow = self.texture_dictionary@;
            assert(dnow == dict_before || (dnow.len() == dict_before.len() + 1 && (forall|j: int|
                0 <= j < dict_before.len() ==> dnow[j] == dict_before[j])
                && dnow[dict_before.len() as int].0@ == n2 && !spec_dict_contains(
                dict_before,
                n2,
            )));
            lemma_lookup_preserved(dict_before, dnow, n2, n1);
            if fresh {
                lemma_absent_preserved(dict_before, dnow, n2, n3);
                lemma_absent_preserved(dict_before, dnow, n2, n4);
                lemma_absent_preserved(dict_before, dnow, n2, n5);
                lemma_absent_preserved(dict_before, dnow, n2, n6);
            }
        }
        if kind != texture_array {
            return Err(AssetError::NonMatchingCubemapTexture { name: mismatch_name });
        }
        let mismatch_name = positive_y_name.clone();
        let ghost dict_before = self.texture_dictionary@;
        let (kind, positive_y) = match self.load_face(positive_y_name, positive_y_data) {
            Ok(pair) => pair,
            Err(e) => {
                return Err(e);
            },
        };
        proof {
            let dnow = self.texture_dictionary@;
            assert(dnow == dict_before || (dnow.len() == dict_before.len() + 1 && (forall|j: int|
                0 <= j < dict_before.len() ==> dnow[j] == dict_before[j])
                && dnow[dict_before.len() as int].0@ == n3 && !spec_dict_contains(
                dict_before,
                n3,
            )));
            lemma_lookup_preserved(dict_before, dnow, n3, n1);
            lemma_lookup_preserved(dict_before, dnow, n3, n2);
            if fresh {
                lemma_absent_preserved(dict_before, dnow, n3, n4);
                lemma_absent_preserved(dict_before, dnow, n3, n5);
                lemma_absent_preserved(dict_before, dnow, n3, n6);
            }
        }
        if kind != texture_array {
            return Err(AssetError::NonMatchingCubemapTexture { name: mismatch_name });
        }
        let mismatch_name = negative_y_name.clone();
        let ghost dict_before = self.texture_dictionary@;
        let (kind, negative_y) = match self.load_face(negative_y_name, negative_y_data) {
            Ok(pair) => pair,
            Err(e) => {
                return Err(e);
            },
        };
        proof {
            let dnow = self.texture_dictionary@;
            assert(dnow == dict_before || (dnow.len() == dict_before.len() + 1 && (forall|j: int|
                0 <= j < dict_before.len() ==> dnow[j] == dict_before[j])
                && dnow[dict_before.len() as int].0@ == n4 && !spec_dict_contains(
                dict_before,
                n4,
            )));
            lemma_lookup_preserved(dict_before, dnow, n4, n1);
            lemma_lookup_preserved(dict_before, dnow, n4, n2);
            lemma_lookup_preserved(dict_before, dnow, n4, n3);
            if fresh {
                lemma_absent_preserved(dict_before, dnow, n4, n5);
                lemma_absent_preserved(dict_before, dnow, n4, n6);
            }
        }
        if kind != texture_array {
            return Err(AssetError::NonMatchingCubemapTexture { name: mismatch_name });
        }
        let mismatch_name = positive_z_name.clone();
        let ghost dict_before = self.texture_dictionary@;
        let (kind, positive_z) = match self.load_face(positive_z_name, positive_z_data) {
            Ok(pair) => pair,
            Err(e) => {
                return Err(e);
            },
        };
        proof {
            let dnow = self.texture_dictionary@;
            assert(dnow == dict_before || (dnow.len() == dict_before.len() + 1 && (forall|j: int|
                0 <= j < dict_before.len() ==> dnow[j] == dict_before[j])
                && dnow[dict_before.len() as int].0@ == n5 && !spec_dict_contains(
                dict_before,
                n5,
            )));
            lemma_lookup_preserved(dict_before, dnow, n5, n1);
            lemma_lookup_preserved(dict_before, dnow, n5, n2);
            lemma_lookup_preserved(dict_before, dnow, n5, n3);
            lemma_lookup_preserved(dict_before, dnow, n5, n4);
            if fresh {
                lemma_absent_preserved(dict_before, dnow, n5, n6);
            }
        }
        if kind != texture_array {
            return Err(AssetError::NonMatchingCubemapTexture { name: mismatch_name });
        }
        let mismatch_name = negative_z_name.clone();
        let ghost dict_before = self.texture_dictionary@;
        let (kind, negative_z) = match self.load_face(negative_z_name, negative_z_data) {
            Ok(pair) => pair,
            Err(e) => {
                return Err(e);
            },
        };
        proof {
            let dnow = self.texture_dictionary@;
            assert(dnow == dict_before || (dnow.len() == dict_before.len() + 1 && (forall|j: int|
                0 <= j < dict_before.len() ==> dnow[j] == dict_before[j])
                && dnow[dict_before.len() as int].0@ == n6 && !spec_dict_contains(
                dict_before,
                n6,
            )));
            lemma_lookup_preserved(dict_before, dnow, n6, n1);
            lemma_lookup_preserved(dict_before, dnow, n6, n2);
            lemma_lookup_preserved(dict_before, dnow, n6, n3);
            lemma_lookup_preserved(dict_before, dnow, n6, n4);
            lemma_lookup_preserved(dict_before, dnow, n6, n5);
        }
        if kind != texture_array {
            return Err(AssetError::NonMatchingCubemapTexture { name: mismatch_name });
        }
        Ok(
            Cubemap {
                texture_array,
                positive_x,
                negative_x,
                positive_y,
                negative_y,
                positive_z,
                negative_z,
            },
        )
    }

    /// Loads one primitive: its three required texture channels, the
    /// deduplicated material they form, and the deduplicated mesh built
    /// from its attribute streams. Emits one mesh id and one material
    /// id. An acceptable primitive fails only for want of arena space.
    fn load_primitive(&mut self, primitive: &InputPrimitive, textures: &Vec<TextureFile>) -> (res:
        Result<Object, AssetError>)
        requires
            old(self).wf(),
        ensures
            final(self).wf(),
            final(self).model_map == old(self).model_map,
            spec_dict_extends(old(self).texture_dictionary@, final(self).texture_dictionary@),
            final(self).mesh_map.meshes@.len() >= old(self).mesh_map.meshes@.len(),
            final(self).material_map.materials@.len() >= old(
                self,
            ).material_map.materials@.len(),
            (primitive.base_color_texture is None || primitive.normal_texture is None
                || primitive.metallic_roughness_texture is None) <==> (res matches Err(
            AssetError::MissingMaterialChannel { name }) && name@ == primitive.name@),
            res matches Ok(o) ==> o.mesh_id < final(self).mesh_map.meshes@.len()
                && o.material_id < final(self).material_map.materials@.len(),
            spec_primitive_ok(old(self).texture_dictionary@, textures@, *primitive) ==> (res is Ok
                || res == Err::<Object, AssetError>(AssetError::StoreFull)),
            res == Err::<Object, AssetError>(AssetError::StoreFull) ==> {
                ||| !final(self).texture_arrays.spec_has_capacity(1)
                ||| final(self).material_map.materials@.len() >= 0xffff_ffff
                ||| final(self).mesh_map.meshes@.len() >= 0xffff_ffff
                ||| final(self).mesh_map.vertices@.len()
                    + crate::model_input::spec_primitive_vertex_count(*primitive) > 0xffff_ffff
                ||| final(self).mesh_map.indices@.len() + primitive.indices@.len() > 0xffff_ffff
            },
    {
        let ghost dict0 = self.texture_dictionary@;
        let base_color_name = match &primitive.base_color_texture {
            Some(s) => s,
            None => {
                return Err(AssetError::MissingMaterialChannel { name: primitive.name.clone() });
            },
        };
        let normal_name = match &primitive.normal_texture {
            Some(s) => s,
            None => {
                return Err(AssetError::MissingMaterialChannel { name: primitive.name.clone() });
            },
        };
        let metallic_roughness_name = match &primitive.metallic_roughness_texture {
            Some(s) => s,
            None => {
                return Err(AssetError::MissingMaterialChannel { name: primitive.name.clone() });
            },
        };
        if !self.texture_arrays.has_room() {
            return Err(AssetError::StoreFull);
        }
        let file = match find_texture_file(textures, base_color_name) {
            Some(f) => f,
            None => {
                return Err(AssetError::InvalidTexture { name: base_color_name.clone() });
            },
        };
        let (base_color_array, base_color_id) = match self.load_texture(
            base_color_name.clone(),
            &file.data,
        ) {
            Ok(pair) => pair,
            Err(e) => {
                proof {
                    refute_channel_on_error(
                        dict0,
                        dict0,
                        textures@,
                        primitive.base_color_texture,
                        *file,
                    );
                }
                return Err(e);
            },
        };
        if !self.texture_arrays.has_room() {
            return Err(AssetError::StoreFull);
        }
        let file = match find_texture_file(textures, normal_name) {
            Some(f) => f,
            None => {
                return Err(AssetError::InvalidTexture { name: normal_name.clone() });
            },
        };
        let ghost dict_before_normal = self.texture_dictionary@;
        let (normal_array, normal_id) = match self.load_texture(normal_name.clone(), &file.data) {
            Ok(pair) => pair,
            Err(e) => {
                proof {
                    refute_channel_on_error(
                        dict0,
                        dict_before_normal,
                        textures@,
                        primitive.normal_texture,
                        *file,
                    );
                }
                return Err(e);
            },
        };
        if !self.texture_arrays.has_room() {
            return Err(AssetError::StoreFull);
        }
        let file = match find_texture_file(textures, metallic_roughness_name) {
            Some(f) => f,
            None => {
                return Err(AssetError::InvalidTexture { name: metallic_roughness_name.clone() });
            },
        };
        let ghost dict_before_mr = self.texture_dictionary@;
        let (metallic_roughness_array, metallic_roughness_id) = match self.load_texture(
            metallic_roughness_name.clone(),
            &file.data,
        ) {
            Ok(pair) => pair,
            Err(e) => {
                proof {
                    refute_channel_on_error(
                        dict0,
                        dict_before_mr,
                        textures@,
                        primitive.metallic_roughness_texture,
                        *file,
                    );
                }
                return Err(e);
            },
        };
        if self.material_map.materials.len() >= 0xffff_ffff {
            return Err(AssetError::StoreFull);
        }
        let material = Material::new(
            base_color_array.id(),
            base_color_id,
            normal_array.id(),
            normal_id,
            metallic_roughness_array.id(),
            metallic_roughness_id,
        );
        let material_id = self.material_map.add(material);
        let vertices = assemble_vertices(primitive);
        if self.mesh_map.meshes.len() >= 0xffff_ffff {
            return Err(AssetError::StoreFull);
        }
        if vertices.len() as u64 > 0xffff_ffff || self.mesh_map.vertices.len() as u64
            > 0xffff_ffff - vertices.len() as u64 {
            return Err(AssetError::StoreFull);
        }
        if primitive.indices.len() as u64 > 0xffff_ffff || self.mesh_map.indices.len() as u64
            > 0xffff_ffff - primitive.indices.len() as u64 {
            return Err(AssetError::StoreFull);
        }
        if !indices_below(&primitive.indices, vertices.len() as u32) {
            proof {
                assert(vertices@.len() == crate::model_input::spec_primitive_vertex_count(
                    *primitive,
                ));
            }
            return Err(AssetError::InvalidIndex { name: primitive.name.clone() });
        }
        let indices = copy_indices(&primitive.indices);
        let mesh_id = self.mesh_map.push(
            primitive.name.clone(),
            vertices,
            indices,
            primitive.bounding_box,
        );
        Ok(Object { mesh_id, material_id })
    }

    /// Loads a hierarchical model under its canonical `name`,
    /// deduplicating by that name: the same canonical path always yields
    /// the same model id, and a repeated load leaves the store unchanged.
    /// The node graph is flattened breadth first, a node's children
    /// receiving their final indices as they are discovered, and one
    /// mesh and one material are emitted per primitive. A child index
    /// outside the node list, or a node reached twice, fails the load;
    /// a fresh name over a valid forest with acceptable primitives
    /// fails only for want of arena space.
    #[verifier::loop_isolation(false)]
    #[verifier::rlimit(100)]
    #[verifier::spinoff_prover]
    pub fn load_gltf_model(&mut self, name: String, input: &ModelInput) -> (res: Result<
        usize,
        AssetError,
    >)
        requires
            old(self).wf(),
        ensures
            final(self).wf(),
            spec_contains_name(old(self).model_map.names@, name@) ==> (res matches Ok(id) && id
                == spec_name_index(old(self).model_map.names@, name@)) && *final(self) == *old(
                self,
            ),
            res is Err ==> final(self).model_map == old(self).model_map,
            !spec_contains_name(old(self).model_map.names@, name@)
                && crate::flatten::spec_references_valid(input.root_nodes@, input.nodes@)
                && spec_primitives_ok(
                old(self).texture_dictionary@,
                input.textures@,
                input.nodes@,
            ) ==> (res is Ok || res == Err::<usize, AssetError>(AssetError::StoreFull)),
            res == Err::<usize, AssetError>(AssetError::StoreFull) ==> {
                ||| !final(self).texture_arrays.spec_has_capacity(1)
                ||| final(self).material_map.materials@.len() >= 0xffff_ffff
                ||| final(self).mesh_map.meshes@.len() >= 0xffff_ffff
                ||| exists|j: int, pi: int|
                    #![trigger input.nodes@[j].mesh->0@[pi]]
                    {
                        &&& 0 <= j < input.nodes@.len()
                        &&& input.nodes@[j].mesh is Some
                        &&& 0 <= pi < input.nodes@[j].mesh->0@.len()
                        &&& (final(self).mesh_map.vertices@.len()
                            + crate::model_input::spec_primitive_vertex_count(
                            input.nodes@[j].mesh->0@[pi],
                        ) > 0xffff_ffff || final(self).mesh_map.indices@.len()
                            + input.nodes@[j].mesh->0@[pi].indices@.len() > 0xffff_ffff)
                    }
            },
            forall|id: usize|
                !spec_contains_name(old(self).model_map.names@, name@) && res == Ok::<
                    usize,
                    AssetError,
                >(id) ==> {
                &&& id == old(self).model_map.models@.len()
                &&& final(self).model_map.models@.len() == old(self).model_map.models@.len() + 1
                &&& forall|j: int|
                    0 <= j < old(self).model_map.models@.len() ==> final(
                        self
                    ).model_map.models@[j] == old(self).model_map.models@[j]
                &&& final(self).model_map.names@ == old(self).model_map.names@.push(name)
                &&& final(self).model_map.models@[id as int].wf()
                &&& final(self).model_map.models@[id as int].root_nodes@.len()
                    == input.root_nodes@.len()
                &&& forall|r: int|
                    0 <= r < input.root_nodes@.len() ==> #[trigger] final(
                        self
                    ).model_map.models@[id as int].root_nodes@[r] == r
                &&& forall|k: int, c: int|
                    #![trigger final(self).model_map.models@[id as int].nodes@[k].children@[c]]
                    0 <= k < final(self).model_map.models@[id as int].nodes@.len() && 0 <= c
                        < final(self).model_map.models@[id as int].nodes@[k].children@.len() ==> {
                        &&& final(self).model_map.models@[id as int].nodes@[k].children@[c] > k
                        &&& final(self).model_map.models@[id as int].nodes@[k].children@[c]
                            >= input.root_nodes@.len()
                    }
                &&& forall|k1: int, c1: int, k2: int, c2: int|
                    #![trigger final(self).model_map.models@[id as int].nodes@[k1].children@[c1], final(self).model_map.models@[id as int].nodes@[k2].children@[c2]]
                    0 <= k1 < final(self).model_map.models@[id as int].nodes@.len() && 0 <= c1
                        < final(self).model_map.models@[id as int].nodes@[k1].children@.len() && 0
                        <= k2 < final(self).model_map.models@[id as int].nodes@.len() && 0 <= c2
                        < final(self).model_map.models@[id as int].nodes@[k2].children@.len() && (
                    k1 != k2 || c1 != c2) ==> final(
                        self
                    ).model_map.models@[id as int].nodes@[k1].children@[c1] != final(
                        self
                    ).model_map.models@[id as int].nodes@[k2].children@[c2]
                &&& exists|order: Seq<usize>|
                    spec_flatten_witness(
                        *input,
                        final(self).model_map.models@[id as int],
                        order,
                        final(self).mesh_map.meshes@.len() as int,
                        final(self).material_map.materials@.len() as int,
                    )
            },
    {
        if let Some(existing) = find_name(&self.model_map.names, &name) {
            proof {
                crate::names::lemma_name_index_unique(self.model_map.names@, name@, existing as int);
            }
            return Ok(existing);
        }
        let ghost dict0 = self.texture_dictionary@;
        let flat = match crate::flatten::flatten_order(&input.root_nodes, &input.nodes) {
            Ok(f) => f,
            Err(e) => {
                return Err(e);
            },
        };
        let root_count = input.root_nodes.len();
        let mut out_nodes: Vec<Node> = Vec::new();
        let mut k: usize = 0;
        while k < flat.order.len()
            invariant
                k <= flat.order@.len(),
                out_nodes@.len() == k,
                self.wf(),
                self.model_map == old(self).model_map,
                spec_dict_extends(dict0, self.texture_dictionary@),
                forall|kk: int|
                    0 <= kk < k ==> spec_node_flattened(
                        *input,
                        out_nodes@,
                        flat.order@,
                        kk,
                        self.mesh_map.meshes@.len() as int,
                        self.material_map.materials@.len() as int,
                    ),
                forall|kk: int, c: int|
                    #![trigger out_nodes@[kk].children@[c]]
                    0 <= kk < k && 0 <= c < out_nodes@[kk].children@.len() ==> out_nodes@[kk].children@[c]
                        == flat.label@[input.nodes@[flat.order@[kk] as int].children@[c] as int],
            decreases flat.order@.len() - k,
        {
            let input_index = flat.order[k];
            let child_count = input.nodes[input_index].children.len();
            let mut children: Vec<usize> = Vec::new();
            let mut ci: usize = 0;
            while ci < child_count
                invariant
                    ci <= child_count,
                    children@.len() == ci,
                    k < flat.order@.len(),
                    input_index == flat.order@[k as int],
                    child_count == input.nodes@[input_index as int].children@.len(),
                    forall|c: int|
                        0 <= c < ci ==> #[trigger] children@[c]
                            == flat.label@[input.nodes@[input_index as int].children@[c] as int],
                decreases child_count - ci,
            {
                let child = input.nodes[input_index].children[ci];
                children.push(flat.label[child]);
                ci = ci + 1;
            }
            let node_name = match &input.nodes[input_index].name {
                Some(s) => Some(s.clone()),
                None => None,
            };
            let object_group = match &input.nodes[input_index].mesh {
                None => None,
                Some(primitives) => {
                    let mut objects: Vec<Object> = Vec::new();
                    let mut pi: usize = 0;
                    while pi < primitives.len()
                        invariant
                            pi <= primitives@.len(),
                            k < flat.order@.len(),
                            input_index == flat.order@[k as int],
                            input.nodes@[input_index as int].mesh is Some,
                            input.nodes@[input_index as int].mesh->0@ == primitives@,
                            objects@.len() == pi,
                            forall|o: int|
                                0 <= o < pi ==> (#[trigger] objects@[o]).mesh_id
                                    < self.mesh_map.meshes@.len() && objects@[o].material_id
                                    < self.material_map.materials@.len(),
                            out_nodes@.len() == k,
                            self.wf(),
                            self.model_map == old(self).model_map,
                            spec_dict_extends(dict0, self.texture_dictionary@),
                            forall|kk: int|
                                0 <= kk < k ==> spec_node_flattened(
                                    *input,
                                    out_nodes@,
                                    flat.order@,
                                    kk,
                                    self.mesh_map.meshes@.len() as int,
                                    self.material_map.materials@.len() as int,
                                ),
                            forall|kk: int, c: int|
                                #![trigger out_nodes@[kk].children@[c]]
                                0 <= kk < k && 0 <= c < out_nodes@[kk].children@.len()
                                    ==> out_nodes@[kk].children@[c] == flat.label@[input.nodes@[flat.order@[kk] as int].children@[c] as int],
                        decreases primitives@.len() - pi,
                    {
                        let ghost dict_at_call = self.texture_dictionary@;
                        let ghost meshes_before = self.mesh_map.meshes@.len() as int;
                        let ghost materials_before = self.material_map.materials@.len() as int;
                        match self.load_primitive(&primitives[pi], &input.textures) {
                            Ok(object) => {
                                objects.push(object);
                                proof {
                                    assert forall|kk: int| 0 <= kk < k implies spec_node_flattened(
                                        *input,
                                        out_nodes@,
                                        flat.order@,
                                        kk,
                                        self.mesh_map.meshes@.len() as int,
                                        self.material_map.materials@.len() as int,
                                    ) by {
                                        lemma_node_flattened_grows(
                                            *input,
                                            out_nodes@,
                                            flat.order@,
                                            kk,
                                            meshes_before,
                                            materials_before,
                                            self.mesh_map.meshes@.len() as int,
                                            self.material_map.materials@.len() as int,
                                        );
                                    }
                                }
                            },
                            Err(e) => {
                                proof {
                                    if !spec_contains_name(old(self).model_map.names@, name@)
                                        && crate::flatten::spec_references_valid(
                                        input.root_nodes@,
                                        input.nodes@,
                                    ) && spec_primitives_ok(
                                        dict0,
                                        input.textures@,
                                        input.nodes@,
                                    ) {
                                        assert(spec_primitive_ok(
                                            dict0,
                                            input.textures@,
                                            input.nodes@[input_index as int].mesh->0@[pi as int],
                                        ));
                                        lemma_primitive_ok_extends(
                                            dict0,
                                            dict_at_call,
                                            input.textures@,
                                            primitives@[pi as int],
                                        );
                                    }
                                    if e == AssetError::StoreFull {
                                        assert(input.nodes@[input_index as int].mesh->0@[pi as int]
                                            == primitives@[pi as int]);
                                    }
                                }
                                return Err(e);
                            },
                        }
                        pi = pi + 1;
                    }
                    Some(ObjectGroup { objects })
                },
            };
            let ghost out_before = out_nodes@;
            out_nodes.push(Node { name: node_name, object_group, children });
            proof {
                let ghost mesh_len = self.mesh_map.meshes@.len() as int;
                let ghost material_len = self.material_map.materials@.len() as int;
                assert forall|kk: int| 0 <= kk < k + 1 implies spec_node_flattened(
                    *input,
                    out_nodes@,
                    flat.order@,
                    kk,
                    mesh_len,
                    material_len,
                ) by {
                    if kk < k {
                        assert(out_nodes@[kk] == out_before[kk]);
                        assert(spec_node_flattened(
                            *input,
                            out_before,
                            flat.order@,
                            kk,
                            mesh_len,
                            material_len,
                        ));
                        lemma_node_flattened_same_entry(
                            *input,
                            out_before,
                            out_nodes@,
                            flat.order@,
                            kk,
                            mesh_len,
                            material_len,
                        );
                    } else {
                        assert(flat.order@[kk] == input_index);
                        assert(out_nodes@[kk].children@.len()
                            == input.nodes@[flat.order@[kk] as int].children@.len());
                        assert forall|c: int|
                            0 <= c < input.nodes@[flat.order@[kk] as int].children@.len() implies (
                            #[trigger] out_nodes@[kk].children@[c]) < flat.order@.len()
                            && flat.order@[out_nodes@[kk].children@[c] as int]
                            == input.nodes@[flat.order@[kk] as int].children@[c] by {
                            assert(out_nodes@[kk].children@[c]
                                == flat.label@[input.nodes@[input_index as int].children@[c] as int]);
                        }
                        if input.nodes@[input_index as int].mesh is Some {
                            assert(out_nodes@[kk].object_group is Some);
                            assert(out_nodes@[kk].object_group->0.objects@.len()
                                == input.nodes@[input_index as int].mesh->0@.len());
                            assert forall|o: int|
                                0 <= o < out_nodes@[kk].object_group->0.objects@.len() implies (
                                #[trigger] out_nodes@[kk].object_group->0.objects@[o]).mesh_id
                                < mesh_len && out_nodes@[kk].object_group->0.objects@[o].material_id
                                < material_len by {}
                        } else {
                            assert(out_nodes@[kk].object_group is None);
                        }
                    }
                }
            }
            k = k + 1;
        }
        let mut root_list: Vec<usize> = Vec::new();
        let mut ri: usize = 0;
        while ri < root_count
            invariant
                ri <= root_count,
                root_list@.len() == ri,
                root_count <= flat.order@.len(),
                forall|j: int| 0 <= j < ri ==> (#[trigger] root_list@[j]) == j,
            decreases root_count - ri,
        {
            root_list.push(ri);
            ri = ri + 1;
        }
        let model = Model { root_nodes: root_list, nodes: out_nodes };
        proof {
            assert forall|k1: int, c1: int|
                #![trigger model.nodes@[k1].children@[c1]]
                0 <= k1 < model.nodes@.len() && 0 <= c1
                    < model.nodes@[k1].children@.len() implies model.nodes@[k1].children@[c1]
                < model.nodes@.len() by {
                assert(spec_node_flattened(
                    *input,
                    model.nodes@,
                    flat.order@,
                    k1,
                    self.mesh_map.meshes@.len() as int,
                    self.material_map.materials@.len() as int,
                ));
                assert(0 <= c1 < input.nodes@[flat.order@[k1] as int].children@.len());
                assert(model.nodes@[k1].children@[c1]
                    == flat.label@[input.nodes@[flat.order@[k1] as int].children@[c1] as int]);
            }
            assert(model.wf());
        }
        let id = self.model_map.add(name, model);
        proof {
            assert(spec_flatten_witness(
                *input,
                model,
                flat.order@,
                self.mesh_map.meshes@.len() as int,
                self.material_map.materials@.len() as int,
            )) by {
                assert forall|k1: int, k2: int|
                    0 <= k1 < k2 < flat.order@.len() implies flat.order@[k1] != flat.order@[k2] by {
                    assert(flat.label@[flat.order@[k1] as int] == k1);
                    assert(flat.label@[flat.order@[k2] as int] == k2);
                }
            }
            assert forall|k1: int, c1: int, k2: int, c2: int|
                #![trigger model.nodes@[k1].children@[c1], model.nodes@[k2].children@[c2]]
                0 <= k1 < model.nodes@.len() && 0 <= c1 < model.nodes@[k1].children@.len() && 0
                    <= k2 < model.nodes@.len() && 0 <= c2 < model.nodes@[k2].children@.len() && (k1
                    != k2 || c1 != c2) implies model.nodes@[k1].children@[c1]
                != model.nodes@[k2].children@[c2] by {
                assert(spec_node_flattened(
                    *input,
                    model.nodes@,
                    flat.order@,
                    k1,
                    self.mesh_map.meshes@.len() as int,
                    self.material_map.materials@.len() as int,
                ));
                assert(spec_node_flattened(
                    *input,
                    model.nodes@,
                    flat.order@,
                    k2,
                    self.mesh_map.meshes@.len() as int,
                    self.material_map.materials@.len() as int,
                ));
                assert(0 <= c1 < input.nodes@[flat.order@[k1] as int].children@.len());
                assert(0 <= c2 < input.nodes@[flat.order@[k2] as int].children@.len());
                assert(model.nodes@.len() == model.nodes.len());
                assert(model.nodes@[k1].children@.len() == model.nodes@[k1].children.len());
                assert(model.nodes@[k2].children@.len() == model.nodes@[k2].children.len());
                let child1 = input.nodes@[flat.order@[k1] as int].children@[c1] as int;
                let child2 = input.nodes@[flat.order@[k2] as int].children@[c2] as int;
                assert(model.nodes@[k1].children@[c1] == flat.label@[child1]);
                assert(model.nodes@[k2].children@[c2] == flat.label@[child2]);
                if flat.label@[child1] == flat.label@[child2] {
                    assert(flat.parents@[flat.label@[child1] - root_count] == (
                    k1 as usize,
                    c1 as usize,
                    ));
                    assert(flat.parents@[flat.label@[child2] - root_count] == (
                    k2 as usize,
                    c2 as usize,
                    ));
                    assert((k1 as usize) == (k2 as usize) && (c1 as usize) == (c2 as usize));
                }
            }
            assert forall|k1: int, c1: int|
                #![trigger model.nodes@[k1].children@[c1]]
                0 <= k1 < model.nodes@.len() && 0 <= c1
                    < model.nodes@[k1].children@.len() implies model.nodes@[k1].children@[c1] > k1
                && model.nodes@[k1].children@[c1] >= root_count by {
                assert(spec_node_flattened(
                    *input,
                    model.nodes@,
                    flat.order@,
                    k1,
                    self.mesh_map.meshes@.len() as int,
                    self.material_map.materials@.len() as int,
                ));
                assert(0 <= c1 < input.nodes@[flat.order@[k1] as int].children@.len());
                assert(model.nodes@[k1].children@[c1]
                    == flat.label@[input.nodes@[flat.order@[k1] as int].children@[c1] as int]);
            }
            assert(self.model_map.models@[id as int] == model);
            assert(spec_flatten_witness(
                *input,
                self.model_map.models@[id as int],
                flat.order@,
                self.mesh_map.meshes@.len() as int,
                self.material_map.materials@.len() as int,
            ));
        }
        Ok(id)
    }
}

} // verus!
