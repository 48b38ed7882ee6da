//! The scene world, the render world, and the extract step that projects
//! one onto the other.
//!
//! Worlds are modelled as entity stores with typed components; the ECS
//! container that hosts them in a running renderer lives outside. The
//! renderer sees exactly the entities carrying all three of mesh,
//! material and global transform.

use vstd::prelude::*;

verus! {

/// The mesh component: which mesh an entity draws.
#[derive(Copy, Clone, PartialEq, Eq, Structural, Debug)]
pub struct Mesh {
    pub mesh_id: u32,
}

/// The material component: which material an entity draws with.
#[derive(Copy, Clone, PartialEq, Eq, Structural, Debug)]
pub struct Material {
    pub material_id: u32,
}

/// The fully baked global transform of an entity: a 4-by-3 affine
/// matrix, column major, each scalar carried as its 32-bit bit pattern.
#[derive(Copy, Clone, Debug)]
pub struct GlobalTransform {
    pub matrix: [u32; 12],
}

/// The camera: position, target and up vector as packed scalars, the
/// aspect ratio as the surface's width and height, and the packed
/// vertical field of view and clip distances.
#[derive(Copy, Clone, Debug)]
pub struct Camera {
    pub position: crate::geometry::Vec3Bits,
    pub target: crate::geometry::Vec3Bits,
    pub up: crate::geometry::Vec3Bits,
    pub aspect_width: u32,
    pub aspect_height: u32,
    pub fov: u32,
    pub near: u32,
    pub far: u32,
}

/// One entity of the scene world: its stable key, its parent, and its
/// optional components.
#[derive(Copy, Clone, Debug)]
pub struct SceneEntity {
    pub id: u64,
    pub parent: Option<u64>,
    pub mesh: Option<Mesh>,
    pub material: Option<Material>,
    pub transform: Option<GlobalTransform>,
}

/// One entity of the render world: the same stable key, carrying exactly
/// the three components the renderer reads.
#[derive(Copy, Clone, Debug)]
pub struct RenderEntity {
    pub id: u64,
    pub mesh: Mesh,
    pub material: Material,
    pub transform: GlobalTransform,
}

/// Whether an entity is drawable: it carries all three of mesh,
/// material and global transform.
pub open spec fn spec_is_drawable(e: SceneEntity) -> bool {
    e.mesh is Some && e.material is Some && e.transform is Some
}

/// The scene world: the camera resource and the entity store, mutated
/// only by the simulation.
pub struct SceneWorld {
    pub camera: Camera,
    pub entities: Vec<SceneEntity>,
    pub next_id: u64,
}

/// The render world: the extracted camera and the drawable entities,
/// keyed by the scene world's stable entity keys.
pub struct RenderWorld {
    pub camera: Option<Camera>,
    pub entities: Vec<RenderEntity>,
}

/// The drawable projection of a scene world: the partial map from
/// entity key to `(mesh, material, transform)`, defined exactly on the
/// entities carrying all three.
pub open spec fn spec_scene_drawables(s: SceneWorld) -> Map<u64, (Mesh, Material, GlobalTransform)> {
    Map::new(
        |id: u64|
            exists|i: int|
                0 <= i < s.entities@.len() && (#[trigger] s.entities@[i]).id == id
                    && spec_is_drawable(s.entities@[i]),
        |id: u64|
            {
                let i = choose|i: int|
                    0 <= i < s.entities@.len() && (#[trigger] s.entities@[i]).id == id
                        && spec_is_drawable(s.entities@[i]);
                (
                    s.entities@[i].mesh->0,
                    s.entities@[i].material->0,
                    s.entities@[i].transform->0,
                )
            },
    )
}

/// The drawable map a render world holds.
pub open spec fn spec_render_map(r: RenderWorld) -> Map<u64, (Mesh, Material, GlobalTransform)> {
    Map::new(
        |id: u64|
            exists|i: int| 0 <= i < r.entities@.len() && (#[trigger] r.entities@[i]).id == id,
        |id: u64|
            {
                let i = choose|i: int|
                    0 <= i < r.entities@.len() && (#[trigger] r.entities@[i]).id == id;
                (r.entities@[i].mesh, r.entities@[i].material, r.entities@[i].transform)
            },
    )
}

impl SceneWorld {
    /// Entity keys are unique and below the allocation cursor.
    pub open spec fn wf(self) -> bool {
        &&& forall|i: int, j: int|
            0 <= i < j < self.entities@.len() ==> (#[trigger] self.entities@[i]).id != (
            #[trigger] self.entities@[j]).id
        &&& forall|i: int|
            0 <= i < self.entities@.len() ==> (#[trigger] self.entities@[i]).id < self.next_id
    }

    /// An empty scene world.
    pub fn new(camera: Camera) -> (r: SceneWorld)
        ensures
            r.wf(),
            r.entities@.len() == 0,
            r.camera == camera,
            r.next_id == 0,
    {
        SceneWorld { camera, entities: Vec::new(), next_id: 0 }
    }

    /// Spawns one entity with the given parent and components, under a
    /// fresh key.
    pub fn spawn(
        &mut self,
        parent: Option<u64>,
        mesh: Option<Mesh>,
        material: Option<Material>,
        transform: Option<GlobalTransform>,
    ) -> (id: u64)
        requires
            old(self).wf(),
            old(self).next_id < 0xffff_ffff_ffff_ffff,
        ensures
            final(self).wf(),
            id == old(self).next_id,
            final(self).next_id == old(self).next_id + 1,
            final(self).camera == old(self).camera,
            final(self).entities@ == old(self).entities@.push(
                SceneEntity { id: old(self).next_id, parent, mesh, material, transform },
            ),
    {
        let id = self.next_id;
        self.entities.push(SceneEntity { id, parent, mesh, material, transform });
        self.next_id = id + 1;
        id
    }
}

impl RenderWorld {
    /// Entity keys are unique.
    pub open spec fn wf(self) -> bool {
        forall|i: int, j: int|
            0 <= i < j < self.entities@.len() ==> (#[trigger] self.entities@[i]).id != (
            #[trigger] self.entities@[j]).id
    }

    /// An empty render world.
    pub fn new() -> (r: RenderWorld)
        ensures
            r.wf(),
            r.entities@.len() == 0,
            r.camera is None,
    {
        RenderWorld { camera: None, entities: Vec::new() }
    }

    /// Drops every entity; the render thread does this after each frame.
    pub fn clear_entities(&mut self)
        ensures
            final(self).wf(),
            final(self).entities@.len() == 0,
            final(self).camera == old(self).camera,
            spec_render_map(*final(self)) =~= Map::<u64, (Mesh, Material, GlobalTransform)>::empty(),
    {
        self.entities.clear();
    }
}

/// A render world with no entities holds the empty drawable map.
pub proof fn lemma_empty_render_map(r: RenderWorld)
    requires
        r.entities@.len() == 0,
    ensures
        spec_render_map(r) =~= Map::<u64, (Mesh, Material, GlobalTransform)>::empty(),
{
}

/// The drawable projection of the first `n` entities of a scene world.
pub open spec fn spec_scene_drawables_prefix(s: SceneWorld, n: int) -> Map<
    u64,
    (Mesh, Material, GlobalTransform),
> {
    Map::new(
        |id: u64|
            exists|i: int|
                0 <= i < n && i < s.entities@.len() && (#[trigger] s.entities@[i]).id == id
                    && spec_is_drawable(s.entities@[i]),
        |id: u64|
            {
                let i = choose|i: int|
                    0 <= i < n && i < s.entities@.len() && (#[trigger] s.entities@[i]).id == id
                        && spec_is_drawable(s.entities@[i]);
                (
                    s.entities@[i].mesh->0,
                    s.entities@[i].material->0,
                    s.entities@[i].transform->0,
                )
            },
    )
}

/// Appending an entity under a fresh key inserts its components into
/// the render world's drawable map.
proof fn lemma_render_map_push(pre: RenderWorld, post: RenderWorld, e: RenderEntity)
    requires
        pre.wf(),
        post.entities@ == pre.entities@.push(e),
        forall|i: int| 0 <= i < pre.entities@.len() ==> (#[trigger] pre.entities@[i]).id != e.id,
    ensures
        post.wf(),
        spec_render_map(post) =~= spec_render_map(pre).insert(
            e.id,
            (e.mesh, e.material, e.transform),
        ),
{
    let m1 = spec_render_map(pre);
    let m2 = spec_render_map(post);
    let tgt = m1.insert(e.id, (e.mesh, e.material, e.transform));
    let n = pre.entities@.len() as int;
    assert(post.entities@[n] == e);
    assert forall|id2: u64| #[trigger] m2.dom().contains(id2) implies tgt.dom().contains(id2)
        && m2[id2] == tgt[id2] by {
        let i = choose|i: int|
            0 <= i < post.entities@.len() && (#[trigger] post.entities@[i]).id == id2;
        if id2 == e.id {
            assert(i == n);
        } else {
            assert(i < n);
            assert(pre.entities@[i].id == id2);
            let i1 = choose|i: int|
                0 <= i < pre.entities@.len() && (#[trigger] pre.entities@[i]).id == id2;
            assert(i1 == i);
        }
    }
    assert forall|id2: u64| #[trigger] tgt.dom().contains(id2) implies m2.dom().contains(id2) by {
        if id2 == e.id {
            assert(post.entities@[n].id == id2);
        } else {
            let i1 = choose|i: int|
                0 <= i < pre.entities@.len() && (#[trigger] pre.entities@[i]).id == id2;
            assert(post.entities@[i1].id == id2);
        }
    }
    assert(m2 =~= tgt);
}

/// Overwriting the entity that already carries a key updates that key's
/// components in the render world's drawable map.
proof fn lemma_render_map_set(pre: RenderWorld, post: RenderWorld, at: int, e: RenderEntity)
    requires
        pre.wf(),
        0 <= at < pre.entities@.len(),
        pre.entities@[at].id == e.id,
        post.entities@ == pre.entities@.update(at, e),
    ensures
        post.wf(),
        spec_render_map(post) =~= spec_render_map(pre).insert(
            e.id,
            (e.mesh, e.material, e.transform),
        ),
{
    let m1 = spec_render_map(pre);
    let m2 = spec_render_map(post);
    let tgt = m1.insert(e.id, (e.mesh, e.material, e.transform));
    assert forall|id2: u64| #[trigger] m2.dom().contains(id2) implies tgt.dom().contains(id2)
        && m2[id2] == tgt[id2] by {
        let i = choose|i: int|
            0 <= i < post.entities@.len() && (#[trigger] post.entities@[i]).id == id2;
        if id2 == e.id {
            assert(i == at);
        } else {
            assert(i != at);
            assert(pre.entities@[i].id == id2);
            let i1 = choose|i: int|
                0 <= i < pre.entities@.len() && (#[trigger] pre.entities@[i]).id == id2;
            assert(i1 == i);
        }
    }
    assert forall|id2: u64| #[trigger] tgt.dom().contains(id2) implies m2.dom().contains(id2) by {
        if id2 == e.id {
            assert(post.entities@[at].id == id2);
        } else {
            let i1 = choose|i: int|
                0 <= i < pre.entities@.len() && (#[trigger] pre.entities@[i]).id == id2;
            assert(i1 != at);
            assert(post.entities@[i1].id == id2);
        }
    }
    assert(m2 =~= tgt);
}

/// Finds the position of the entity carrying `id`, if any.
fn find_entity(entities: &Vec<RenderEntity>, id: u64) -> (r: Option<usize>)
    ensures
        match r {
            Some(i) => i < entities@.len() && entities@[i as int].id == id,
            None => forall|i: int| 0 <= i < entities@.len() ==> (#[trigger] entities@[i]).id != id,
        },
{
    let mut i: usize = 0;
    while i < entities.len()
        invariant
            i <= entities@.len(),
            forall|j: int| 0 <= j < i ==> (#[trigger] entities@[j]).id != id,
        decreases entities@.len() - i,
    {
        if entities[i].id == id {
            return Some(i);
        }
        i = i + 1;
    }
    None
}

/// The read-only projection from the scene world to the render world:
/// copies the camera by value, and inserts or overwrites one render
/// entity, under the same stable key, for every scene entity carrying
/// all three of mesh, material and global transform. Entities the scene
/// no longer produces persist until the render world is cleared.
#[verifier::loop_isolation(false)]
pub fn extract(scene: &SceneWorld, render: &mut RenderWorld)
    requires
        scene.wf(),
        old(render).wf(),
    ensures
        final(render).wf(),
        final(render).camera == Some(scene.camera),
        spec_render_map(*final(render)) =~= spec_render_map(*old(render)).union_prefer_right(
            spec_scene_drawables(*scene),
        ),
{
    render.camera = Some(scene.camera);
    let ghost base = spec_render_map(*old(render));
    let mut i: usize = 0;
    while i < scene.entities.len()
        invariant
            i <= scene.entities@.len(),
            render.wf(),
            render.camera == Some(scene.camera),
            spec_render_map(*render) =~= base.union_prefer_right(
                spec_scene_drawables_prefix(*scene, i as int),
            ),
        decreases scene.entities@.len() - i,
    {
        let entity = &scene.entities[i];
        let ghost pre = *render;
        if entity.mesh.is_some() && entity.material.is_some() && entity.transform.is_some() {
            let new_entity = RenderEntity {
                id: entity.id,
                mesh: entity.mesh.unwrap(),
                material: entity.material.unwrap(),
                transform: entity.transform.unwrap(),
            };
            match find_entity(&render.entities, entity.id) {
                Some(at) => {
                    render.entities.set(at, new_entity);
                    proof {
                        lemma_render_map_set(pre, *render, at as int, new_entity);
                    }
                },
                None => {
                    render.entities.push(new_entity);
                    proof {
                        lemma_render_map_push(pre, *render, new_entity);
                    }
                },
            }
            proof {
                lemma_drawables_prefix_step(*scene, i as int);
                assert(spec_render_map(*render) =~= base.union_prefer_right(
                    spec_scene_drawables_prefix(*scene, i + 1 as int),
                ));
            }
        } else {
            proof {
                lemma_drawables_prefix_step(*scene, i as int);
                assert(spec_render_map(*render) =~= base.union_prefer_right(
                    spec_scene_drawables_prefix(*scene, i + 1 as int),
                ));
            }
        }
        i = i + 1;
    }
    proof {
        assert(spec_scene_drawables_prefix(*scene, scene.entities@.len() as int)
            =~= spec_scene_drawables(*scene));
        assert(spec_render_map(*render) =~= base.union_prefer_right(spec_scene_drawables(*scene)));
    }
}

/// Extending the prefix by one entity inserts that entity's components
/// when it is drawable and changes nothing otherwise.
proof fn lemma_drawables_prefix_step(s: SceneWorld, n: int)
    requires
        s.wf(),
        0 <= n < s.entities@.len(),
    ensures
        spec_is_drawable(s.entities@[n]) ==> spec_scene_drawables_prefix(s, n + 1)
            =~= spec_scene_drawables_prefix(s, n).insert(
            s.entities@[n].id,
            (s.entities@[n].mesh->0, s.entities@[n].material->0, s.entities@[n].transform->0),
        ),
        !spec_is_drawable(s.entities@[n]) ==> spec_scene_drawables_prefix(s, n + 1)
            =~= spec_scene_drawables_prefix(s, n),
{
    let mp = spec_scene_drawables_prefix(s, n);
    let mq = spec_scene_drawables_prefix(s, n + 1);
    if spec_is_drawable(s.entities@[n]) {
        let tgt = mp.insert(
            s.entities@[n].id,
            (s.entities@[n].mesh->0, s.entities@[n].material->0, s.entities@[n].transform->0),
        );
        assert forall|id2: u64| #[trigger] mq.dom().contains(id2) implies tgt.dom().contains(id2)
            && mq[id2] == tgt[id2] by {
            let i = choose|i: int|
                0 <= i < n + 1 && i < s.entities@.len() && (#[trigger] s.entities@[i]).id == id2
                    && spec_is_drawable(s.entities@[i]);
            if id2 == s.entities@[n].id {
                assert(i == n);
            } else {
                assert(i < n);
                let i1 = choose|i: int|
                    0 <= i < n && i < s.entities@.len() && (#[trigger] s.entities@[i]).id == id2
                        && spec_is_drawable(s.entities@[i]);
                assert(i1 == i);
            }
        }
        assert forall|id2: u64| #[trigger] tgt.dom().contains(id2) implies mq.dom().contains(
            id2,
        ) by {
            if id2 == s.entities@[n].id {
                assert(0 <= n < n + 1 && s.entities@[n].id == id2 && spec_is_drawable(
                    s.entities@[n],
                ));
            } else {
                let i1 = choose|i: int|
                    0 <= i < n && i < s.entities@.len() && (#[trigger] s.entities@[i]).id == id2
                        && spec_is_drawable(s.entities@[i]);
                assert(0 <= i1 < n + 1 && s.entities@[i1].id == id2);
            }
        }
        assert(mq =~= tgt);
    } else {
        assert forall|id2: u64| #[trigger] mq.dom().contains(id2) implies mp.dom().contains(id2)
            && mq[id2] == mp[id2] by {
            let i = choose|i: int|
                0 <= i < n + 1 && i < s.entities@.len() && (#[trigger] s.entities@[i]).id == id2
                    && spec_is_drawable(s.entities@[i]);
            assert(i != n);
            let i1 = choose|i: int|
                0 <= i < n && i < s.entities@.len() && (#[trigger] s.entities@[i]).id == id2
                    && spec_is_drawable(s.entities@[i]);
            assert(i1 == i);
        }
        assert forall|id2: u64| #[trigger] mp.dom().contains(id2) implies mq.dom().contains(
            id2,
        ) by {
            let i1 = choose|i: int|
                0 <= i < n && i < s.entities@.len() && (#[trigger] s.entities@[i]).id == id2
                    && spec_is_drawable(s.entities@[i]);
            assert(0 <= i1 < n + 1 && s.entities@[i1].id == id2);
        }
        assert(mq =~= mp);
    }
}

/// Extracting onto a cleared render world leaves exactly the scene
/// world's drawable projection: the render world's drawable set equals
/// the set of scene entities carrying all three components.
pub proof fn lemma_extract_onto_cleared(
    base: Map<u64, (Mesh, Material, GlobalTransform)>,
    drawables: Map<u64, (Mesh, Material, GlobalTransform)>,
)
    requires
        base =~= Map::<u64, (Mesh, Material, GlobalTransform)>::empty(),
    ensures
        base.union_prefer_right(drawables) =~= drawables,
{
}

/// Extracting twice with no intervening mutation produces the same
/// drawable projection as extracting once: the second pass overwrites
/// every drawable entity with the same components.
pub proof fn lemma_extract_idempotent(
    base: Map<u64, (Mesh, Material, GlobalTransform)>,
    drawables: Map<u64, (Mesh, Material, GlobalTransform)>,
)
    ensures
        base.union_prefer_right(drawables).union_prefer_right(drawables) =~= base.union_prefer_right(
            drawables,
        ),
{
}

impl GlobalTransform {
    /// The identity transform: unit axes, zero translation, as packed
    /// scalars.
    pub fn identity() -> (r: GlobalTransform)
        ensures
            r.matrix@ =~= seq![
                0x3f80_0000u32,
                0u32,
                0u32,
                0u32,
                0x3f80_0000u32,
                0u32,
                0u32,
                0u32,
                0x3f80_0000u32,
                0u32,
                0u32,
                0u32,
            ],
    {
        GlobalTransform {
            matrix: [
                0x3f80_0000u32,
                0u32,
                0u32,
                0u32,
                0x3f80_0000u32,
                0u32,
                0u32,
                0u32,
                0x3f80_0000u32,
                0u32,
                0u32,
                0u32,
            ],
        }
    }
}

/// The drawables a node carries, or none.
pub open spec fn spec_node_object_count(node: crate::model::Node) -> int {
    match node.object_group {
        Some(group) => group.objects@.len() as int,
        None => 0int,
    }
}

/// Every drawable of a model, paired with the index of the node that
/// carries it, in node order.
pub open spec fn spec_objects_with_nodes(nodes: Seq<crate::model::Node>) -> Seq<
    (crate::model::Object, int),
>
    decreases nodes.len(),
{
    if nodes.len() == 0 {
        Seq::empty()
    } else {
        spec_objects_with_nodes(nodes.drop_last()) + spec_node_objects(
            nodes.last(),
            nodes.len() - 1,
        )
    }
}

/// One node's drawables, paired with that node's index.
pub open spec fn spec_node_objects(node: crate::model::Node, index: int) -> Seq<
    (crate::model::Object, int),
> {
    match node.object_group {
        Some(group) => group.objects@.map_values(|o: crate::model::Object| (o, index)),
        None => Seq::empty(),
    }
}

/// Taking one more node appends exactly that node's drawables.
proof fn lemma_objects_take_step(nodes: Seq<crate::model::Node>, j: int)
    requires
        0 <= j < nodes.len(),
    ensures
        spec_objects_with_nodes(nodes.subrange(0, j + 1)) =~= spec_objects_with_nodes(
            nodes.subrange(0, j),
        ) + spec_node_objects(nodes[j], j),
{
    assert(nodes.subrange(0, j + 1).drop_last() =~= nodes.subrange(0, j));
    assert(nodes.subrange(0, j + 1).last() == nodes[j]);
}

/// A prefix never carries more drawables than the whole model.
proof fn lemma_objects_take_le(nodes: Seq<crate::model::Node>, j: int)
    requires
        0 <= j <= nodes.len(),
    ensures
        spec_objects_with_nodes(nodes.subrange(0, j)).len() <= spec_objects_with_nodes(
            nodes,
        ).len(),
    decreases nodes.len() - j,
{
    if j < nodes.len() {
        lemma_objects_take_step(nodes, j);
        lemma_objects_take_le(nodes, j + 1);
    } else {
        assert(nodes.subrange(0, j) =~= nodes);
    }
}

/// Overwriting one entity's components in place leaves the world
/// well-formed: the keys and the allocation cursor are untouched.
proof fn restore_wf_after_parent_write(world: SceneWorld, before: Seq<SceneEntity>)
    requires
        world.entities@.len() == before.len(),
        forall|i: int|
            0 <= i < before.len() ==> (#[trigger] world.entities@[i]).id == before[i].id,
        forall|i: int, j: int|
            0 <= i < j < before.len() ==> (#[trigger] before[i]).id != (#[trigger] before[j]).id,
        forall|i: int| 0 <= i < before.len() ==> (#[trigger] before[i]).id < world.next_id,
    ensures
        world.wf(),
{
    assert forall|i: int, j: int|
        0 <= i < j < world.entities@.len() implies (#[trigger] world.entities@[i]).id != (
    #[trigger] world.entities@[j]).id by {
        assert(world.entities@[i].id == before[i].id);
        assert(world.entities@[j].id == before[j].id);
    }
    assert forall|i: int|
        0 <= i < world.entities@.len() implies (#[trigger] world.entities@[i]).id
        < world.next_id by {
        assert(world.entities@[i].id == before[i].id);
    }
}

/// Whether a node's children list names flat index `k`.
pub open spec fn spec_children_contain(node: crate::model::Node, k: int) -> bool {
    exists|c: int| 0 <= c < node.children@.len() && node.children@[c] == k
}

/// Whether the first `upto` child slots of a node name flat index `k`.
spec fn spec_children_contain_upto(node: crate::model::Node, k: int, upto: int) -> bool {
    exists|c: int| 0 <= c < upto && c < node.children@.len() && node.children@[c] == k
}

/// The last node among the first `upto` whose children name flat index
/// `k`, if any.
pub open spec fn spec_parent_node(nodes: Seq<crate::model::Node>, k: int, upto: int) -> Option<
    int,
>
    decreases upto,
{
    if upto <= 0 {
        None
    } else if spec_children_contain(nodes[upto - 1], k) {
        Some(upto - 1)
    } else {
        spec_parent_node(nodes, k, upto - 1)
    }
}

/// Whether the root list names flat index `k`.
pub open spec fn spec_roots_contain(roots: Seq<usize>, k: int) -> bool {
    exists|r: int| 0 <= r < roots.len() && roots[r] == k
}

/// Whether the first `upto` root slots name flat index `k`.
spec fn spec_roots_contain_upto(roots: Seq<usize>, k: int, upto: int) -> bool {
    exists|r: int| 0 <= r < upto && r < roots.len() && roots[r] == k
}

/// The parent assignment mid-way through the child scan: the first
/// `upto` nodes' children lists applied over the root assignment.
pub open spec fn spec_parent_after(m: crate::model::Model, root: u64, k: int, upto: int) -> Option<u64> {
    match spec_parent_node(m.nodes@, k, upto) {
        Some(p) => Some((root + 1 + p) as u64),
        None => if spec_roots_contain(m.root_nodes@, k) {
            Some(root)
        } else {
            None
        },
    }
}

/// The parent entity of the node entity at flat index `k`: the entity
/// of the last node whose children list names it — for a forest, its
/// one parent — or the model's root entity for a root node, or none
/// for a node nothing references.
pub open spec fn spec_node_parent(m: crate::model::Model, root: u64, k: int) -> Option<u64> {
    spec_parent_after(m, root, k, m.nodes@.len() as int)
}

/// Hierarchical instantiation: spawns one root entity, one entity per
/// model node, and one drawable child entity per `(mesh, material)`
/// pair, in node order. The drawable entities carry exactly the three
/// components the renderer reads, an identity global transform, and
/// their node's entity as parent; node entities carry no components
/// and are parented to their parent node's entity — root nodes to the
/// model's root entity.
#[verifier::loop_isolation(false)]
#[verifier::rlimit(30)]
pub fn instantiate_model(world: &mut SceneWorld, model: &crate::model::Model) -> (root: u64)
    requires
        old(world).wf(),
        model.wf(),
        old(world).next_id + 1 + model.nodes@.len() + spec_objects_with_nodes(
            model.nodes@,
        ).len() <= 0xffff_ffff_ffff_ffff,
    ensures
        final(world).wf(),
        final(world).camera == old(world).camera,
        root == old(world).next_id,
        final(world).next_id == old(world).next_id + 1 + model.nodes@.len()
            + spec_objects_with_nodes(model.nodes@).len(),
        final(world).entities@.len() == old(world).entities@.len() + 1 + model.nodes@.len()
            + spec_objects_with_nodes(model.nodes@).len(),
        forall|j: int|
            0 <= j < old(world).entities@.len() ==> final(world).entities@[j] == old(
                world,
            ).entities@[j],
        final(world).entities@[old(world).entities@.len() as int].id == root,
        final(world).entities@[old(world).entities@.len() as int].mesh is None,
        final(world).entities@[old(world).entities@.len() as int].material is None,
        final(world).entities@[old(world).entities@.len() as int].transform is None,
        forall|k: int|
            0 <= k < model.nodes@.len() ==> {
                let e = #[trigger] final(world).entities@[old(world).entities@.len() + 1 + k];
                &&& e.id == root + 1 + k
                &&& e.mesh is None
                &&& e.material is None
                &&& e.transform is None
                &&& e.parent == spec_node_parent(*model, root, k)
            },
        forall|p: int|
            0 <= p < spec_objects_with_nodes(model.nodes@).len() ==> {
                let e = #[trigger] final(world).entities@[old(world).entities@.len() + 1
                    + model.nodes@.len() + p];
                let ow = spec_objects_with_nodes(model.nodes@)[p];
                &&& e.id == root + 1 + model.nodes@.len() + p
                &&& e.parent == Some((root + 1 + ow.1) as u64)
                &&& e.mesh == Some(Mesh { mesh_id: ow.0.mesh_id })
                &&& e.material == Some(Material { material_id: ow.0.material_id })
                &&& e.transform is Some
            },
{
    let ghost base_len = old(world).entities@.len() as int;
    let ghost node_count = model.nodes@.len() as int;
    let ghost all_objects = spec_objects_with_nodes(model.nodes@);
    let base = world.entities.len();
    let root = world.spawn(None, None, None, None);
    let mut k: usize = 0;
    while k < model.nodes.len()
        invariant
            k <= node_count,
            world.wf(),
            world.camera == old(world).camera,
            world.next_id == root + 1 + k,
            world.entities@.len() == base_len + 1 + k,
            forall|j: int|
                0 <= j < base_len + 1 ==> world.entities@[j] == old(world).entities@.push(
                    SceneEntity {
                        id: root,
                        parent: None,
                        mesh: None,
                        material: None,
                        transform: None,
                    },
                )[j],
            forall|kk: int|
                0 <= kk < k ==> {
                    let e = #[trigger] world.entities@[base_len + 1 + kk];
                    &&& e.id == root + 1 + kk
                    &&& e.mesh is None
                    &&& e.material is None
                    &&& e.transform is None
                    &&& e.parent is None
                },
        decreases node_count - k,
    {
        proof {
            lemma_objects_take_le(model.nodes@, 0);
            assert(spec_objects_with_nodes(model.nodes@.subrange(0, 0)).len() == 0);
        }
        world.spawn(None, None, None, None);
        k = k + 1;
    }
    let mut ri: usize = 0;
    while ri < model.root_nodes.len()
        invariant
            ri <= model.root_nodes@.len(),
            world.wf(),
            world.camera == old(world).camera,
            world.next_id == root + 1 + node_count,
            world.entities@.len() == base_len + 1 + node_count,
            world.entities.len() == base + 1 + model.nodes.len(),
            forall|jj: int|
                0 <= jj < base_len + 1 ==> world.entities@[jj] == old(world).entities@.push(
                    SceneEntity {
                        id: root,
                        parent: None,
                        mesh: None,
                        material: None,
                        transform: None,
                    },
                )[jj],
            forall|kk: int|
                0 <= kk < node_count ==> {
                    let e = #[trigger] world.entities@[base_len + 1 + kk];
                    &&& e.id == root + 1 + kk
                    &&& e.mesh is None
                    &&& e.material is None
                    &&& e.transform is None
                    &&& e.parent == (if spec_roots_contain_upto(
                        model.root_nodes@,
                        kk,
                        ri as int,
                    ) {
                        Some(root)
                    } else {
                        None::<u64>
                    })
                },
        decreases model.root_nodes@.len() - ri,
    {
        let target = model.root_nodes[ri];
        let index = base + 1 + target;
        let ghost before = world.entities@;
        let entity = world.entities[index];
        world.entities.set(
            index,
            SceneEntity {
                id: entity.id,
                parent: Some(root),
                mesh: entity.mesh,
                material: entity.material,
                transform: entity.transform,
            },
        );
        proof {
            restore_wf_after_parent_write(*world, before);
            assert forall|kk: int| 0 <= kk < node_count implies {
                let e = #[trigger] world.entities@[base_len + 1 + kk];
                &&& e.id == root + 1 + kk
                &&& e.mesh is None
                &&& e.material is None
                &&& e.transform is None
                &&& e.parent == (if spec_roots_contain_upto(
                    model.root_nodes@,
                    kk,
                    ri + 1 as int,
                ) {
                    Some(root)
                } else {
                    None::<u64>
                })
            } by {
                if kk == target as int {
                    assert(spec_roots_contain_upto(model.root_nodes@, kk, ri + 1 as int));
                } else {
                    assert(world.entities@[base_len + 1 + kk] == before[base_len + 1 + kk]);
                    if spec_roots_contain_upto(model.root_nodes@, kk, ri + 1 as int) {
                        let r = choose|r: int|
                            0 <= r < ri + 1 && r < model.root_nodes@.len()
                                && model.root_nodes@[r] == kk;
                        assert(r < ri);
                        assert(spec_roots_contain_upto(model.root_nodes@, kk, ri as int));
                    }
                    if spec_roots_contain_upto(model.root_nodes@, kk, ri as int) {
                        let r = choose|r: int|
                            0 <= r < ri && r < model.root_nodes@.len() && model.root_nodes@[r]
                                == kk;
                        assert(spec_roots_contain_upto(model.root_nodes@, kk, ri + 1 as int));
                    }
                }
            }
        }
        ri = ri + 1;
    }
    let mut pj: usize = 0;
    while pj < model.nodes.len()
        invariant
            pj <= node_count,
            world.wf(),
            world.camera == old(world).camera,
            world.next_id == root + 1 + node_count,
            world.entities@.len() == base_len + 1 + node_count,
            world.entities.len() == base + 1 + model.nodes.len(),
            forall|jj: int|
                0 <= jj < base_len + 1 ==> world.entities@[jj] == old(world).entities@.push(
                    SceneEntity {
                        id: root,
                        parent: None,
                        mesh: None,
                        material: None,
                        transform: None,
                    },
                )[jj],
            forall|kk: int|
                0 <= kk < node_count ==> {
                    let e = #[trigger] world.entities@[base_len + 1 + kk];
                    &&& e.id == root + 1 + kk
                    &&& e.mesh is None
                    &&& e.material is None
                    &&& e.transform is None
                    &&& e.parent == spec_parent_after(*model, root, kk, pj as int)
                },
        decreases node_count - pj,
    {
        let child_count = model.nodes[pj].children.len();
        let mut ci: usize = 0;
        while ci < child_count
            invariant
                ci <= child_count,
                pj < node_count,
                child_count == model.nodes@[pj as int].children@.len(),
                world.wf(),
                world.camera == old(world).camera,
                world.next_id == root + 1 + node_count,
                world.entities@.len() == base_len + 1 + node_count,
                world.entities.len() == base + 1 + model.nodes.len(),
            world.entities.len() == base + 1 + model.nodes.len(),
                forall|jj: int|
                    0 <= jj < base_len + 1 ==> world.entities@[jj] == old(world).entities@.push(
                        SceneEntity {
                            id: root,
                            parent: None,
                            mesh: None,
                            material: None,
                            transform: None,
                        },
                    )[jj],
                forall|kk: int|
                    0 <= kk < node_count ==> {
                        let e = #[trigger] world.entities@[base_len + 1 + kk];
                        &&& e.id == root + 1 + kk
                        &&& e.mesh is None
                        &&& e.material is None
                        &&& e.transform is None
                        &&& e.parent == (if spec_children_contain_upto(
                            model.nodes@[pj as int],
                            kk,
                            ci as int,
                        ) {
                            Some((root + 1 + pj) as u64)
                        } else {
                            spec_parent_after(*model, root, kk, pj as int)
                        })
                    },
            decreases child_count - ci,
        {
            let child = model.nodes[pj].children[ci];
            let index = base + 1 + child;
            let ghost before = world.entities@;
            let entity = world.entities[index];
            world.entities.set(
                index,
                SceneEntity {
                    id: entity.id,
                    parent: Some(root + 1 + pj as u64),
                    mesh: entity.mesh,
                    material: entity.material,
                    transform: entity.transform,
                },
            );
            proof {
                restore_wf_after_parent_write(*world, before);
                assert forall|kk: int| 0 <= kk < node_count implies {
                    let e = #[trigger] world.entities@[base_len + 1 + kk];
                    &&& e.id == root + 1 + kk
                    &&& e.mesh is None
                    &&& e.material is None
                    &&& e.transform is None
                    &&& e.parent == (if spec_children_contain_upto(
                        model.nodes@[pj as int],
                        kk,
                        ci + 1 as int,
                    ) {
                        Some((root + 1 + pj) as u64)
                    } else {
                        spec_parent_after(*model, root, kk, pj as int)
                    })
                } by {
                    if kk == child as int {
                        assert(spec_children_contain_upto(
                            model.nodes@[pj as int],
                            kk,
                            ci + 1 as int,
                        ));
                    } else {
                        assert(world.entities@[base_len + 1 + kk] == before[base_len + 1 + kk]);
                        if spec_children_contain_upto(model.nodes@[pj as int], kk, ci + 1 as int) {
                            let c = choose|c: int|
                                0 <= c < ci + 1 && c < model.nodes@[pj as int].children@.len()
                                    && model.nodes@[pj as int].children@[c] == kk;
                            assert(c < ci);
                            assert(spec_children_contain_upto(
                                model.nodes@[pj as int],
                                kk,
                                ci as int,
                            ));
                        }
                        if spec_children_contain_upto(model.nodes@[pj as int], kk, ci as int) {
                            let c = choose|c: int|
                                0 <= c < ci && c < model.nodes@[pj as int].children@.len()
                                    && model.nodes@[pj as int].children@[c] == kk;
                            assert(spec_children_contain_upto(
                                model.nodes@[pj as int],
                                kk,
                                ci + 1 as int,
                            ));
                        }
                    }
                }
            }
            ci = ci + 1;
        }
        proof {
            assert forall|kk: int| 0 <= kk < node_count implies {
                let e = #[trigger] world.entities@[base_len + 1 + kk];
                e.parent == spec_parent_after(*model, root, kk, pj + 1 as int)
            } by {
                if spec_children_contain_upto(model.nodes@[pj as int], kk, child_count as int) {
                    assert(spec_children_contain(model.nodes@[pj as int], kk));
                } else {
                    if spec_children_contain(model.nodes@[pj as int], kk) {
                        let c = choose|c: int|
                            0 <= c < model.nodes@[pj as int].children@.len()
                                && model.nodes@[pj as int].children@[c] == kk;
                        assert(spec_children_contain_upto(
                            model.nodes@[pj as int],
                            kk,
                            child_count as int,
                        ));
                    }
                }
            }
        }
        pj = pj + 1;
    }
    let mut j: usize = 0;
    while j < model.nodes.len()
        invariant
            j <= node_count,
            world.wf(),
            world.camera == old(world).camera,
            world.next_id == root + 1 + node_count + spec_objects_with_nodes(
                model.nodes@.subrange(0, j as int),
            ).len(),
            world.entities@.len() == base_len + 1 + node_count + spec_objects_with_nodes(
                model.nodes@.subrange(0, j as int),
            ).len(),
            forall|jj: int|
                0 <= jj < base_len + 1 ==> world.entities@[jj] == old(world).entities@.push(
                    SceneEntity {
                        id: root,
                        parent: None,
                        mesh: None,
                        material: None,
                        transform: None,
                    },
                )[jj],
            forall|kk: int|
                0 <= kk < node_count ==> {
                    let e = #[trigger] world.entities@[base_len + 1 + kk];
                    &&& e.id == root + 1 + kk
                    &&& e.mesh is None
                    &&& e.material is None
                    &&& e.transform is None
                    &&& e.parent == spec_node_parent(*model, root, kk)
                },
            forall|p: int|
                0 <= p < spec_objects_with_nodes(model.nodes@.subrange(0, j as int)).len()
                    ==> {
                    let e = #[trigger] world.entities@[base_len + 1 + node_count + p];
                    let ow = spec_objects_with_nodes(model.nodes@.subrange(0, j as int))[p];
                    &&& e.id == root + 1 + node_count + p
                    &&& e.parent == Some((root + 1 + ow.1) as u64)
                    &&& e.mesh == Some(Mesh { mesh_id: ow.0.mesh_id })
                    &&& e.material == Some(Material { material_id: ow.0.material_id })
                    &&& e.transform is Some
                },
        decreases node_count - j,
    {
        let ghost prefix = spec_objects_with_nodes(model.nodes@.subrange(0, j as int));
        proof {
            lemma_objects_take_step(model.nodes@, j as int);
            lemma_objects_take_le(model.nodes@, j + 1 as int);
        }
        let node_entity_id = root + 1 + j as u64;
        match &model.nodes[j].object_group {
            None => {
                proof {
                    let next = spec_objects_with_nodes(model.nodes@.subrange(0, j + 1 as int));
                    assert(next =~= prefix);
                    assert forall|p: int|
                        #![trigger world.entities@[base_len + 1 + node_count + p]]
                        0 <= p < next.len() implies {
                        let e = world.entities@[base_len + 1 + node_count + p];
                        let ow = next[p];
                        &&& e.id == root + 1 + node_count + p
                        &&& e.parent == Some((root + 1 + ow.1) as u64)
                        &&& e.mesh == Some(Mesh { mesh_id: ow.0.mesh_id })
                        &&& e.material == Some(Material { material_id: ow.0.material_id })
                        &&& e.transform is Some
                    } by {
                        assert(next[p] == prefix[p]);
                    }
                }
            },
            Some(group) => {
                let mut o: usize = 0;
                while o < group.objects.len()
                    invariant
                        o <= group.objects@.len(),
                        model.nodes@[j as int].object_group matches Some(g) && g.objects@
                            == group.objects@,
                        j < node_count,
                        world.wf(),
                        world.camera == old(world).camera,
                        world.next_id == root + 1 + node_count + prefix.len() + o,
                        world.entities@.len() == base_len + 1 + node_count + prefix.len() + o,
                        forall|jj: int|
                            0 <= jj < base_len + 1 ==> world.entities@[jj] == old(
                                world,
                            ).entities@.push(
                                SceneEntity {
                                    id: root,
                                    parent: None,
                                    mesh: None,
                                    material: None,
                                    transform: None,
                                },
                            )[jj],
                        forall|kk: int|
                            0 <= kk < node_count ==> {
                                let e = #[trigger] world.entities@[base_len + 1 + kk];
                                &&& e.id == root + 1 + kk
                                &&& e.mesh is None
                                &&& e.material is None
                                &&& e.transform is None
                                &&& e.parent == spec_node_parent(*model, root, kk)
                            },
                        forall|p: int|
                            0 <= p < prefix.len() ==> {
                                let e = #[trigger] world.entities@[base_len + 1 + node_count
                                    + p];
                                let ow = prefix[p];
                                &&& e.id == root + 1 + node_count + p
                                &&& e.parent == Some((root + 1 + ow.1) as u64)
                                &&& e.mesh == Some(Mesh { mesh_id: ow.0.mesh_id })
                                &&& e.material == Some(
                                    Material { material_id: ow.0.material_id },
                                )
                                &&& e.transform is Some
                            },
                        forall|q: int|
                            0 <= q < o ==> {
                                let e = #[trigger] world.entities@[base_len + 1 + node_count
                                    + prefix.len() + q];
                                &&& e.id == root + 1 + node_count + prefix.len() + q
                                &&& e.parent == Some((root + 1 + j) as u64)
                                &&& e.mesh == Some(
                                    Mesh { mesh_id: group.objects@[q].mesh_id },
                                )
                                &&& e.material == Some(
                                    Material { material_id: group.objects@[q].material_id },
                                )
                                &&& e.transform is Some
                            },
                    decreases group.objects@.len() - o,
                {
                    let object = group.objects[o];
                    world.spawn(
                        Some(node_entity_id),
                        Some(Mesh { mesh_id: object.mesh_id }),
                        Some(Material { material_id: object.material_id }),
                        Some(GlobalTransform::identity()),
                    );
                    o = o + 1;
                }
                proof {
                    let next = spec_objects_with_nodes(model.nodes@.subrange(0, j + 1 as int));
                    assert(next =~= prefix + spec_node_objects(model.nodes@[j as int], j as int));
                    assert forall|p: int|
                        #![trigger world.entities@[base_len + 1 + node_count + p]]
                        0 <= p < next.len() implies {
                        let e = world.entities@[base_len + 1 + node_count + p];
                        let ow = next[p];
                        &&& e.id == root + 1 + node_count + p
                        &&& e.parent == Some((root + 1 + ow.1) as u64)
                        &&& e.mesh == Some(Mesh { mesh_id: ow.0.mesh_id })
                        &&& e.material == Some(Material { material_id: ow.0.material_id })
                        &&& e.transform is Some
                    } by {
                        if p < prefix.len() {
                            assert(next[p] == prefix[p]);
                        } else {
                            let q = p - prefix.len();
                            assert(world.entities@[base_len + 1 + node_count + p]
                                == world.entities@[base_len + 1 + node_count + prefix.len() + q]);
                            assert(next[p] == spec_node_objects(
                                model.nodes@[j as int],
                                j as int,
                            )[q]);
                            assert(spec_node_objects(model.nodes@[j as int], j as int)[q] == (
                            group.objects@[q], j as int));
                        }
                    }
                }
            },
        }
        j = j + 1;
    }
    proof {
        assert(model.nodes@.subrange(0, node_count) =~= model.nodes@);
    }
    root
}

} // verus!
