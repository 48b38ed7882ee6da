use merlin::error::AssetError;
use merlin::geometry::{BoundingBox, Vec2Bits, Vec3Bits};
use merlin::loader::AssetLoader;
use merlin::model_input::{InputNode, InputPrimitive, ModelInput, TextureFile};
use merlin::texture::{FORMAT_BC5_UNORM, FORMAT_BC7_SRGB};
use merlin::world::{instantiate_model, Camera, SceneWorld};

fn model_u32(out: &mut Vec<u8>, value: u32) {
    out.extend_from_slice(&value.to_le_bytes());
}

fn model_u64(out: &mut Vec<u8>, value: u64) {
    out.extend_from_slice(&value.to_le_bytes());
}

fn make_texture_bytes(format: u32, width: u32, level_count: u32) -> Vec<u8> {
    let mut data = Vec::new();
    data.extend_from_slice(&[
        0xAB, 0x4B, 0x54, 0x58, 0x20, 0x32, 0x30, 0xBB, 0x0D, 0x0A, 0x1A, 0x0A,
    ]);
    model_u32(&mut data, format);
    model_u32(&mut data, 1);
    model_u32(&mut data, width);
    model_u32(&mut data, width);
    model_u32(&mut data, 0);
    model_u32(&mut data, 0);
    model_u32(&mut data, 1);
    model_u32(&mut data, level_count);
    model_u32(&mut data, 0);
    model_u32(&mut data, 0);
    model_u32(&mut data, 0);
    model_u32(&mut data, 0);
    model_u32(&mut data, 0);
    model_u64(&mut data, 0);
    model_u64(&mut data, 0);
    let entries = level_count.max(1);
    let mut offset = 80u64 + 24 * entries as u64;
    for m in 0..entries {
        let d = (width >> m).max(4) as u64;
        model_u64(&mut data, offset);
        model_u64(&mut data, d * d);
        model_u64(&mut data, d * d);
        offset += d * d;
    }
    for m in 0..entries {
        let d = (width >> m).max(4) as usize;
        data.extend(std::iter::repeat(0u8).take(d * d));
    }
    data
}

fn v3(x: u32, y: u32, z: u32) -> Vec3Bits {
    Vec3Bits { x, y, z }
}

fn make_primitive(name: &str, vertex_count: usize) -> InputPrimitive {
    let positions: Vec<Vec3Bits> = (0..vertex_count as u32).map(|i| v3(i, i, i)).collect();
    let tex_coords: Vec<Vec2Bits> = (0..vertex_count as u32)
        .map(|i| Vec2Bits { x: i, y: i })
        .collect();
    InputPrimitive {
        name: String::from(name),
        positions,
        tex_coords,
        normals: (0..vertex_count as u32).map(|i| v3(i, 0, 0)).collect(),
        tangents: (0..vertex_count as u32).map(|i| v3(0, i, 0)).collect(),
        bitangents: (0..vertex_count as u32).map(|i| v3(0, 0, i)).collect(),
        indices: vec![0, 1, 2],
        bounding_box: BoundingBox::new(v3(0, 0, 0), v3(1, 1, 1)),
        base_color_texture: Some(String::from("base.ktx2")),
        normal_texture: Some(String::from("normal.ktx2")),
        metallic_roughness_texture: Some(String::from("mr.ktx2")),
    }
}

fn texture_table() -> Vec<TextureFile> {
    vec![
        TextureFile {
            name: String::from("base.ktx2"),
            data: make_texture_bytes(FORMAT_BC7_SRGB, 512, 10),
        },
        TextureFile {
            name: String::from("normal.ktx2"),
            data: make_texture_bytes(FORMAT_BC5_UNORM, 512, 10),
        },
        TextureFile {
            name: String::from("mr.ktx2"),
            data: make_texture_bytes(FORMAT_BC5_UNORM, 512, 10),
        },
    ]
}

/// A root with two children: the first child carries two primitives,
/// the second none.
fn two_child_model() -> ModelInput {
    ModelInput {
        root_nodes: vec![0],
        nodes: vec![
            InputNode {
                name: Some(String::from("root")),
                mesh: None,
                children: vec![1, 2],
            },
            InputNode {
                name: Some(String::from("first")),
                mesh: Some(vec![
                    make_primitive("model.gltf#mesh/0", 3),
                    make_primitive("model.gltf#mesh/1", 4),
                ]),
                children: vec![],
            },
            InputNode {
                name: Some(String::from("second")),
                mesh: None,
                children: vec![],
            },
        ],
        textures: texture_table(),
    }
}

#[test]
fn hierarchical_flatten_keeps_child_indices_valid() {
    let mut loader = AssetLoader::new();
    let input = two_child_model();
    let id = loader
        .load_gltf_model(String::from("model.gltf"), &input)
        .unwrap();
    assert_eq!(id, 0);
    let model = loader.model_map.index(0).unwrap();
    assert_eq!(model.root_nodes, vec![0]);
    assert_eq!(model.nodes.len(), 3);
    assert_eq!(model.nodes[0].children, vec![1, 2]);
    assert!(model.nodes[0].object_group.is_none());
    let group = model.nodes[1].object_group.as_ref().unwrap();
    assert_eq!(group.objects.len(), 2);
    assert_eq!(group.objects[0].mesh_id, 0);
    assert_eq!(group.objects[1].mesh_id, 1);
    assert_eq!(group.objects[0].material_id, 0);
    assert_eq!(group.objects[1].material_id, 0);
    assert!(model.nodes[2].object_group.is_none());
    // deduplication over the whole load: one texture entry per kind
    // slot used, two meshes, one material, one model
    assert_eq!(loader.texture_arrays.rgba_bc7_srgb_512.count(), 1);
    assert_eq!(loader.texture_arrays.rg_bc5_unorm_512.count(), 2);
    assert_eq!(loader.mesh_map.meshes.len(), 2);
    assert_eq!(loader.material_map.materials.len(), 1);
    assert_eq!(loader.model_map.models.len(), 1);
}

#[test]
fn reloading_the_same_path_returns_the_same_model() {
    let mut loader = AssetLoader::new();
    let input = two_child_model();
    let first = loader
        .load_gltf_model(String::from("model.gltf"), &input)
        .unwrap();
    let second = loader
        .load_gltf_model(String::from("model.gltf"), &input)
        .unwrap();
    assert_eq!(first, second);
    assert_eq!(loader.model_map.models.len(), 1);
    assert_eq!(loader.mesh_map.meshes.len(), 2);
}

#[test]
fn mesh_ranges_stay_inside_the_global_arenas() {
    let mut loader = AssetLoader::new();
    let input = two_child_model();
    loader
        .load_gltf_model(String::from("model.gltf"), &input)
        .unwrap();
    let map = &loader.mesh_map;
    for mesh in &map.meshes {
        assert!((mesh.vertex_offset + mesh.vertex_count) as usize <= map.vertices.len());
        assert!((mesh.index_offset + mesh.index_count) as usize <= map.indices.len());
        for k in mesh.index_offset..mesh.index_offset + mesh.index_count {
            assert!(map.indices[k as usize] < mesh.vertex_count);
        }
    }
    assert_eq!(map.vertices.len(), 7);
    assert_eq!(map.indices.len(), 6);
}

#[test]
fn a_missing_material_channel_fails_the_load() {
    let mut loader = AssetLoader::new();
    let mut input = two_child_model();
    if let Some(primitives) = &mut input.nodes[1].mesh {
        primitives[0].normal_texture = None;
    }
    match loader.load_gltf_model(String::from("model.gltf"), &input) {
        Err(AssetError::MissingMaterialChannel { name }) => {
            assert_eq!(name, "model.gltf#mesh/0");
        }
        other => panic!("expected a missing-channel error, got {:?}", other),
    }
    assert_eq!(loader.model_map.models.len(), 0);
}

#[test]
fn an_out_of_range_child_fails_the_load() {
    let mut loader = AssetLoader::new();
    let mut input = two_child_model();
    input.nodes[0].children = vec![1, 9];
    match loader.load_gltf_model(String::from("model.gltf"), &input) {
        Err(AssetError::InvalidModelNode { node_index }) => assert_eq!(node_index, 9),
        other => panic!("expected an invalid-node error, got {:?}", other),
    }
}

#[test]
fn an_index_past_the_vertex_list_fails_the_load() {
    let mut loader = AssetLoader::new();
    let mut input = two_child_model();
    if let Some(primitives) = &mut input.nodes[1].mesh {
        primitives[0].indices = vec![0, 1, 3];
    }
    match loader.load_gltf_model(String::from("model.gltf"), &input) {
        Err(AssetError::InvalidIndex { name }) => assert_eq!(name, "model.gltf#mesh/0"),
        other => panic!("expected an invalid-index error, got {:?}", other),
    }
}

#[test]
fn instantiation_spawns_nodes_and_drawable_children() {
    let mut loader = AssetLoader::new();
    let input = two_child_model();
    let id = loader
        .load_gltf_model(String::from("model.gltf"), &input)
        .unwrap();
    let model = loader.model_map.index(id).unwrap();

    let camera = Camera {
        position: v3(0, 0, 0),
        target: v3(0, 0, 0),
        up: v3(0, 0, 0),
        aspect_width: 16,
        aspect_height: 9,
        fov: 0,
        near: 0,
        far: 0,
    };
    let mut world = SceneWorld::new(camera);
    let root = instantiate_model(&mut world, model);
    // one root entity, three node entities, two drawable children
    assert_eq!(world.entities.len(), 6);
    assert_eq!(root, 0);
    let drawables: Vec<_> = world
        .entities
        .iter()
        .filter(|e| e.mesh.is_some() && e.material.is_some() && e.transform.is_some())
        .collect();
    assert_eq!(drawables.len(), 2);
    // both drawables hang off the first child's node entity
    let first_child_entity = root + 1 + 1;
    for drawable in &drawables {
        assert_eq!(drawable.parent, Some(first_child_entity));
    }
    assert_eq!(drawables[0].mesh.unwrap().mesh_id, 0);
    assert_eq!(drawables[1].mesh.unwrap().mesh_id, 1);
    // the hierarchy: the root node hangs off the root entity, the two
    // children off the root node's entity
    assert_eq!(world.entities[1].parent, Some(root));
    assert_eq!(world.entities[2].parent, Some(root + 1));
    assert_eq!(world.entities[3].parent, Some(root + 1));
}
