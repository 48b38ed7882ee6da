use merlin::batch::{apply_culling, build_batches, plan_frame};
use merlin::frame::{apply_resize, ResizeEvent};
use merlin::geometry::Mesh as MeshRecord;
use merlin::material::{Material as MaterialRecord, MaterialMap};
use merlin::world::{
    extract, Camera, GlobalTransform, Material, Mesh, RenderEntity, RenderWorld, SceneWorld,
};

fn test_camera() -> Camera {
    Camera {
        position: merlin::geometry::Vec3Bits { x: 1, y: 2, z: 3 },
        target: merlin::geometry::Vec3Bits { x: 0, y: 0, z: 0 },
        up: merlin::geometry::Vec3Bits { x: 0, y: 0, z: 7 },
        aspect_width: 16,
        aspect_height: 9,
        fov: 40,
        near: 1,
        far: 100,
    }
}

fn drawable_fields(world: &RenderWorld) -> Vec<(u64, u32, u32, [u32; 12])> {
    world
        .entities
        .iter()
        .map(|e| {
            (
                e.id,
                e.mesh.mesh_id,
                e.material.material_id,
                e.transform.matrix,
            )
        })
        .collect()
}

#[test]
fn extract_copies_exactly_the_complete_entities() {
    let mut scene = SceneWorld::new(test_camera());
    scene.spawn(
        None,
        Some(Mesh { mesh_id: 3 }),
        Some(Material { material_id: 5 }),
        Some(GlobalTransform::identity()),
    );
    scene.spawn(None, Some(Mesh { mesh_id: 4 }), None, None);
    scene.spawn(
        None,
        Some(Mesh { mesh_id: 9 }),
        Some(Material { material_id: 1 }),
        Some(GlobalTransform::identity()),
    );
    let mut render = RenderWorld::new();
    extract(&scene, &mut render);
    assert_eq!(render.camera.map(|c| c.aspect_width), Some(16));
    let mut ids: Vec<u64> = render.entities.iter().map(|e| e.id).collect();
    ids.sort_unstable();
    assert_eq!(ids, vec![0, 2]);
}

#[test]
fn extracting_twice_changes_nothing() {
    let mut scene = SceneWorld::new(test_camera());
    scene.spawn(
        None,
        Some(Mesh { mesh_id: 3 }),
        Some(Material { material_id: 5 }),
        Some(GlobalTransform::identity()),
    );
    scene.spawn(
        None,
        Some(Mesh { mesh_id: 8 }),
        Some(Material { material_id: 0 }),
        Some(GlobalTransform::identity()),
    );
    let mut render = RenderWorld::new();
    extract(&scene, &mut render);
    let first = drawable_fields(&render);
    extract(&scene, &mut render);
    let second = drawable_fields(&render);
    assert_eq!(first, second);
}

#[test]
fn extract_overwrites_stale_components() {
    let mut scene = SceneWorld::new(test_camera());
    scene.spawn(
        None,
        Some(Mesh { mesh_id: 3 }),
        Some(Material { material_id: 5 }),
        Some(GlobalTransform::identity()),
    );
    let mut render = RenderWorld::new();
    render.entities.push(RenderEntity {
        id: 0,
        mesh: Mesh { mesh_id: 99 },
        material: Material { material_id: 99 },
        transform: GlobalTransform::identity(),
    });
    extract(&scene, &mut render);
    assert_eq!(render.entities.len(), 1);
    assert_eq!(render.entities[0].mesh.mesh_id, 3);
    assert_eq!(render.entities[0].material.material_id, 5);
}

#[test]
fn clearing_drops_every_render_entity() {
    let mut scene = SceneWorld::new(test_camera());
    scene.spawn(
        None,
        Some(Mesh { mesh_id: 3 }),
        Some(Material { material_id: 5 }),
        Some(GlobalTransform::identity()),
    );
    let mut render = RenderWorld::new();
    extract(&scene, &mut render);
    assert_eq!(render.entities.len(), 1);
    render.clear_entities();
    assert!(render.entities.is_empty());
}

fn instance(id: u64, mesh_id: u32, material_id: u32) -> RenderEntity {
    RenderEntity {
        id,
        mesh: Mesh { mesh_id },
        material: Material { material_id },
        transform: GlobalTransform {
            matrix: [1, 2, 3, 4, 5, 6, 7, 8, 9, 10, 11, 12],
        },
    }
}

#[test]
fn batches_compact_in_first_seen_order() {
    let instances = vec![instance(0, 5, 2), instance(1, 7, 3), instance(2, 5, 4)];
    let frame = build_batches(&instances);
    assert_eq!(frame.batches, vec![(5, 2), (7, 1)]);
    let batch_ids: Vec<u32> = frame
        .instance_culling_information
        .iter()
        .map(|c| c.batch_id)
        .collect();
    assert_eq!(batch_ids, vec![0, 1, 0]);
    assert_eq!(frame.instance_materials, vec![2, 3, 4]);
    assert_eq!(
        frame.instance_transforms[0],
        [1, 2, 3, 0, 4, 5, 6, 0, 7, 8, 9, 0, 10, 11, 12, 0x3f80_0000]
    );
}

#[test]
fn indirect_commands_partition_the_instance_list() {
    let meshes = vec![
        MeshRecord::new(0, 10, 0, 30),
        MeshRecord::new(0, 0, 0, 0),
        MeshRecord::new(0, 0, 0, 0),
        MeshRecord::new(0, 0, 0, 0),
        MeshRecord::new(0, 0, 0, 0),
        MeshRecord::new(10, 4, 30, 12),
        MeshRecord::new(0, 0, 0, 0),
        MeshRecord::new(14, 8, 42, 9),
    ];
    let instances = vec![instance(0, 5, 0), instance(1, 7, 0), instance(2, 5, 0)];
    let (frame, commands) = plan_frame(&instances, &meshes);
    assert_eq!(commands.len(), 2);
    assert_eq!(commands[0].index_count, 12);
    assert_eq!(commands[0].first_index, 30);
    assert_eq!(commands[0].base_vertex, 10);
    assert_eq!(commands[0].instance_count, 0);
    assert_eq!(commands[0].first_instance, 0);
    assert_eq!(commands[1].index_count, 9);
    assert_eq!(commands[1].first_instance, 2);
    // the ranges [0, 2) and [2, 3) cover the three instances
    let total: u32 = frame.batches.iter().map(|b| b.1).sum();
    assert_eq!(total as usize, instances.len());
}

#[test]
fn culling_compacts_visible_instances_per_batch() {
    let meshes = vec![
        MeshRecord::new(0, 0, 0, 0),
        MeshRecord::new(0, 0, 0, 0),
        MeshRecord::new(0, 0, 0, 0),
        MeshRecord::new(0, 0, 0, 0),
        MeshRecord::new(0, 0, 0, 0),
        MeshRecord::new(10, 4, 30, 12),
        MeshRecord::new(0, 0, 0, 0),
        MeshRecord::new(14, 8, 42, 9),
    ];
    let instances = vec![instance(0, 5, 0), instance(1, 7, 0), instance(2, 5, 0)];
    let (frame, mut commands) = plan_frame(&instances, &meshes);
    let visible = vec![true, true, true];
    let slots = apply_culling(
        &mut commands,
        &frame.instance_culling_information,
        &visible,
    );
    assert_eq!(commands[0].instance_count, 2);
    assert_eq!(commands[1].instance_count, 1);
    assert_eq!(slots, vec![0, 2, 1]);
    let survivors: u32 = commands.iter().map(|c| c.instance_count).sum();
    assert_eq!(survivors, 3);
}

#[test]
fn culling_skips_invisible_instances() {
    let meshes = vec![
        MeshRecord::new(0, 0, 0, 0),
        MeshRecord::new(0, 0, 0, 0),
        MeshRecord::new(0, 0, 0, 0),
        MeshRecord::new(10, 4, 30, 12),
    ];
    // one batch of two instances: instance 0 inside the frustum,
    // instance 1 behind the camera
    let instances = vec![instance(0, 3, 0), instance(1, 3, 0)];
    let (frame, mut commands) = plan_frame(&instances, &meshes);
    let visible = vec![true, false];
    let slots = apply_culling(
        &mut commands,
        &frame.instance_culling_information,
        &visible,
    );
    assert_eq!(commands[0].instance_count, 1);
    assert_eq!(slots[0], 0);
    let survivors: u32 = commands.iter().map(|c| c.instance_count).sum();
    assert_eq!(survivors, 1);
}

#[test]
fn resize_updates_the_camera_aspect_and_clamps_the_surface() {
    let mut camera = test_camera();
    let surface = apply_resize(
        &mut camera,
        ResizeEvent {
            width: 800,
            height: 600,
        },
    );
    assert_eq!((camera.aspect_width, camera.aspect_height), (800, 600));
    assert_eq!(surface, (800, 600));
    let surface = apply_resize(
        &mut camera,
        ResizeEvent {
            width: 0,
            height: 0,
        },
    );
    assert_eq!((camera.aspect_width, camera.aspect_height), (0, 0));
    assert_eq!(surface, (1, 1));
}

#[test]
fn materials_deduplicate_structurally() {
    let mut map = MaterialMap::new();
    let a = MaterialRecord::new(8, 0, 0, 1, 0, 2);
    let b = MaterialRecord::new(8, 0, 0, 1, 0, 2);
    let c = MaterialRecord::new(8, 1, 0, 1, 0, 2);
    assert_eq!(map.add(a), 0);
    assert_eq!(map.add(b), 0);
    assert_eq!(map.add(c), 1);
    assert_eq!(map.materials.len(), 2);
}
