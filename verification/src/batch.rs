//! Per-frame CPU assembly: turns the render world's unordered drawable
//! instances into one batch per unique mesh, per-instance culling and
//! material tables, and one indirect draw command per batch whose
//! instance ranges partition the instance list.

use vstd::prelude::*;
use crate::geometry::Mesh;
use crate::world::{GlobalTransform, RenderEntity};

verus! {

/// What the culling compute stage knows of one instance: the batch it
/// belongs to.
#[derive(Copy, Clone, PartialEq, Eq, Structural, Debug)]
pub struct InstanceCullingInformation {
    pub batch_id: u32,
}

/// One indirect draw command, as the GPU consumes it. `instance_count`
/// is zero at record time; the culling stage increments it.
#[derive(Copy, Clone, PartialEq, Eq, Structural, Debug)]
pub struct IndirectDrawCommand {
    pub index_count: u32,
    pub instance_count: u32,
    pub first_index: u32,
    pub base_vertex: u32,
    pub first_instance: u32,
}

/// The mesh id of every instance, in iteration order.
pub open spec fn spec_mesh_ids(instances: Seq<RenderEntity>) -> Seq<u32> {
    instances.map_values(|e: RenderEntity| e.mesh.mesh_id)
}

/// The unique values of `ids` in first-seen order.
pub open spec fn spec_first_seen(ids: Seq<u32>) -> Seq<u32>
    decreases ids.len(),
{
    if ids.len() == 0 {
        Seq::empty()
    } else {
        let prior = spec_first_seen(ids.drop_last());
        if prior.contains(ids.last()) {
            prior
        } else {
            prior.push(ids.last())
        }
    }
}

/// How often `id` occurs in `ids`.
pub open spec fn spec_count_of(ids: Seq<u32>, id: u32) -> int
    decreases ids.len(),
{
    if ids.len() == 0 {
        0int
    } else {
        spec_count_of(ids.drop_last(), id) + if ids.last() == id {
            1int
        } else {
            0int
        }
    }
}

/// The number of instances in the batches before `b`: the sum of the
/// batch instance counts of batches `0 .. b`.
pub open spec fn spec_prefix_count(batches: Seq<(u32, u32)>, b: int) -> int
    decreases b,
{
    if b <= 0 {
        0int
    } else {
        spec_prefix_count(batches, b - 1) + batches[b - 1].1
    }
}

/// A value occurs in the first-seen list exactly when it occurs in the
/// list it was drawn from.
pub proof fn lemma_first_seen_contains(ids: Seq<u32>, id: u32)
    ensures
        spec_first_seen(ids).contains(id) == ids.contains(id),
    decreases ids.len(),
{
    if ids.len() > 0 {
        let prior_ids = ids.drop_last();
        let x = ids.last();
        lemma_first_seen_contains(prior_ids, id);
        let prior = spec_first_seen(prior_ids);
        assert(ids.contains(id) <==> (prior_ids.contains(id) || id == x)) by {
            if prior_ids.contains(id) {
                let w = choose|k: int| 0 <= k < prior_ids.len() && prior_ids[k] == id;
                assert(ids[w] == id);
            }
            if id == x {
                assert(ids[ids.len() - 1] == id);
            }
            if ids.contains(id) {
                let w = choose|k: int| 0 <= k < ids.len() && ids[k] == id;
                if w < ids.len() - 1 {
                    assert(prior_ids[w] == id);
                }
            }
        }
        if prior.contains(x) {
            lemma_first_seen_contains(prior_ids, x);
        } else {
            assert(prior.push(x).contains(id) <==> (prior.contains(id) || id == x)) by {
                if prior.contains(id) {
                    let w = choose|k: int| 0 <= k < prior.len() && prior[k] == id;
                    assert(prior.push(x)[w] == id);
                }
                if id == x {
                    assert(prior.push(x)[prior.len() as int] == id);
                }
                if prior.push(x).contains(id) {
                    let w = choose|k: int| 0 <= k < prior.push(x).len() && prior.push(x)[k] == id;
                    if w < prior.len() {
                        assert(prior[w] == id);
                    }
                }
            }
        }
    }
}

/// The first-seen list never repeats a value.
pub proof fn lemma_first_seen_distinct(ids: Seq<u32>)
    ensures
        forall|k1: int, k2: int|
            0 <= k1 < k2 < spec_first_seen(ids).len() ==> spec_first_seen(ids)[k1]
                != spec_first_seen(ids)[k2],
    decreases ids.len(),
{
    if ids.len() > 0 {
        lemma_first_seen_distinct(ids.drop_last());
        let prior = spec_first_seen(ids.drop_last());
        if !prior.contains(ids.last()) {
            assert forall|k1: int, k2: int|
                0 <= k1 < k2 < spec_first_seen(ids).len() implies spec_first_seen(ids)[k1]
                != spec_first_seen(ids)[k2] by {
                if k2 == prior.len() {
                    assert(spec_first_seen(ids)[k1] == prior[k1]);
                    assert(!prior.contains(ids.last()));
                    if prior[k1] == ids.last() {
                        assert(prior.contains(ids.last()));
                    }
                }
            }
        }
    }
}

/// A value absent from a list occurs zero times; in a list without
/// duplicates a present value occurs once.
pub proof fn lemma_count_absent(ids: Seq<u32>, id: u32)
    requires
        !ids.contains(id),
    ensures
        spec_count_of(ids, id) == 0,
    decreases ids.len(),
{
    if ids.len() > 0 {
        assert(forall|k: int| 0 <= k < ids.len() - 1 ==> ids.drop_last()[k] == ids[k]);
        assert(!ids.drop_last().contains(id)) by {
            if ids.drop_last().contains(id) {
                let w = choose|k: int| 0 <= k < ids.drop_last().len() && ids.drop_last()[k] == id;
                assert(ids[w] == id);
            }
        }
        lemma_count_absent(ids.drop_last(), id);
        assert(ids.last() != id) by {
            if ids.last() == id {
                assert(ids[ids.len() - 1] == id);
            }
        }
    }
}

/// The sum, over the values of `unique`, of each value's occurrence
/// count in `ids`.
pub open spec fn spec_sum_counts(unique: Seq<u32>, ids: Seq<u32>) -> int
    decreases unique.len(),
{
    if unique.len() == 0 {
        0int
    } else {
        spec_sum_counts(unique.drop_last(), ids) + spec_count_of(ids, unique.last())
    }
}

/// Each term of the sum grows by one occurrence check when the counted
/// list grows by one element.
proof fn lemma_sum_counts_step(unique: Seq<u32>, ids: Seq<u32>)
    requires
        ids.len() > 0,
    ensures
        spec_sum_counts(unique, ids) == spec_sum_counts(unique, ids.drop_last()) + spec_count_of(
            unique,
            ids.last(),
        ),
    decreases unique.len(),
{
    if unique.len() > 0 {
        lemma_sum_counts_step(unique.drop_last(), ids);
    }
}

/// In a duplicate-free list, a present value counts once.
proof fn lemma_count_unique_present(unique: Seq<u32>, id: u32)
    requires
        forall|k1: int, k2: int| 0 <= k1 < k2 < unique.len() ==> unique[k1] != unique[k2],
        unique.contains(id),
    ensures
        spec_count_of(unique, id) == 1,
    decreases unique.len(),
{
    let last = unique.last();
    let prior = unique.drop_last();
    assert(forall|k: int| 0 <= k < unique.len() - 1 ==> prior[k] == unique[k]);
    if last == id {
        assert(!prior.contains(id)) by {
            if prior.contains(id) {
                let w = choose|k: int| 0 <= k < prior.len() && prior[k] == id;
                assert(unique[w] == id && unique[unique.len() - 1] == id);
            }
        }
        lemma_count_absent(prior, id);
    } else {
        assert(prior.contains(id)) by {
            let w = choose|k: int| 0 <= k < unique.len() && unique[k] == id;
            assert(w < unique.len() - 1);
            assert(prior[w] == id);
        }
        lemma_count_unique_present(prior, id);
    }
}

/// The batch instance counts of a list partition it: summed over the
/// first-seen batches, the occurrence counts give back the length.
pub proof fn lemma_batch_counts_total(ids: Seq<u32>)
    ensures
        spec_sum_counts(spec_first_seen(ids), ids) == ids.len(),
    decreases ids.len(),
{
    if ids.len() > 0 {
        let prior_ids = ids.drop_last();
        let x = ids.last();
        lemma_batch_counts_total(prior_ids);
        let fs_prior = spec_first_seen(prior_ids);
        lemma_first_seen_distinct(prior_ids);
        lemma_first_seen_contains(prior_ids, x);
        if fs_prior.contains(x) {
            lemma_sum_counts_step(fs_prior, ids);
            lemma_count_unique_present(fs_prior, x);
        } else {
            lemma_sum_counts_step(fs_prior, ids);
            lemma_count_absent(fs_prior, x);
            lemma_count_absent(prior_ids, x);
            assert(spec_first_seen(ids) == fs_prior.push(x));
            assert(fs_prior.push(x).drop_last() =~= fs_prior);
            assert(fs_prior.push(x).last() == x);
            assert(spec_sum_counts(fs_prior.push(x), ids) == spec_sum_counts(
                fs_prior.push(x).drop_last(),
                ids,
            ) + spec_count_of(ids, x));
            assert(spec_sum_counts(fs_prior.push(x).drop_last(), ids) == spec_sum_counts(
                fs_prior,
                ids,
            ));
        }
    }
}

/// The tables the per-frame CPU assembly produces: one batch per unique
/// mesh in first-seen order with its pre-culling instance count, and
/// one culling record, material id and column-major transform per
/// instance.
pub struct FrameBatches {
    pub batches: Vec<(u32, u32)>,
    pub instance_culling_information: Vec<InstanceCullingInformation>,
    pub instance_materials: Vec<u32>,
    pub instance_transforms: Vec<[u32; 16]>,
}

/// The 4-by-4 column-major matrix of an affine transform: each of the
/// three axis columns padded with a zero, and the translation column
/// completed with one (its packed 32-bit pattern).
pub open spec fn spec_mat4_bits(t: GlobalTransform) -> Seq<u32> {
    seq![
        t.matrix@[0],
        t.matrix@[1],
        t.matrix@[2],
        0u32,
        t.matrix@[3],
        t.matrix@[4],
        t.matrix@[5],
        0u32,
        t.matrix@[6],
        t.matrix@[7],
        t.matrix@[8],
        0u32,
        t.matrix@[9],
        t.matrix@[10],
        t.matrix@[11],
        0x3f80_0000u32,
    ]
}

/// Iterates the drawable instances exactly once, compacting batches in
/// first-seen order of their mesh: batch `b` holds the `b`-th distinct
/// mesh id and the number of instances carrying it, every instance's
/// culling record names the batch whose mesh it carries, and the
/// material and transform tables mirror the instances elementwise.
#[verifier::loop_isolation(false)]
pub fn build_batches(instances: &Vec<RenderEntity>) -> (r: FrameBatches)
    requires
        instances@.len() <= 0xffff_ffff,
    ensures
        r.batches@.map_values(|b: (u32, u32)| b.0) == spec_first_seen(spec_mesh_ids(instances@)),
        forall|b: int|
            0 <= b < r.batches@.len() ==> (#[trigger] r.batches@[b]).1 == spec_count_of(
                spec_mesh_ids(instances@),
                r.batches@[b].0,
            ),
        r.instance_culling_information@.len() == instances@.len(),
        forall|i: int|
            0 <= i < instances@.len() ==> (
            #[trigger] r.instance_culling_information@[i]).batch_id < r.batches@.len()
                && r.batches@[r.instance_culling_information@[i].batch_id as int].0
                == instances@[i].mesh.mesh_id,
        r.instance_materials@.len() == instances@.len(),
        forall|i: int|
            0 <= i < instances@.len() ==> #[trigger] r.instance_materials@[i]
                == instances@[i].material.material_id,
        r.instance_transforms@.len() == instances@.len(),
        forall|i: int|
            0 <= i < instances@.len() ==> (#[trigger] r.instance_transforms@[i])@
                =~= spec_mat4_bits(instances@[i].transform),
{
    let ghost ids = spec_mesh_ids(instances@);
    let mut batches: Vec<(u32, u32)> = Vec::new();
    let mut instance_culling_information: Vec<InstanceCullingInformation> = Vec::new();
    let mut instance_materials: Vec<u32> = Vec::new();
    let mut instance_transforms: Vec<[u32; 16]> = Vec::new();
    let mut i: usize = 0;
    while i < instances.len()
        invariant
            i <= instances@.len(),
            batches@.map_values(|b: (u32, u32)| b.0) =~= spec_first_seen(
                ids.subrange(0, i as int),
            ),
            forall|b: int|
                0 <= b < batches@.len() ==> (#[trigger] batches@[b]).1 == spec_count_of(
                    ids.subrange(0, i as int),
                    batches@[b].0,
                ),
            batches@.len() <= i,
            forall|b: int| 0 <= b < batches@.len() ==> (#[trigger] batches@[b]).1 <= i,
            instance_culling_information@.len() == i,
            forall|j: int|
                0 <= j < i ==> (#[trigger] instance_culling_information@[j]).batch_id
                    < batches@.len() && batches@[instance_culling_information@[j].batch_id as int].0
                    == instances@[j].mesh.mesh_id,
            instance_materials@.len() == i,
            forall|j: int|
                0 <= j < i ==> #[trigger] instance_materials@[j]
                    == instances@[j].material.material_id,
            instance_transforms@.len() == i,
            forall|j: int|
                0 <= j < i ==> (#[trigger] instance_transforms@[j])@ =~= spec_mat4_bits(
                    instances@[j].transform,
                ),
        decreases instances@.len() - i,
    {
        let entity = &instances[i];
        let mesh_id = entity.mesh.mesh_id;
        proof {
            assert(ids.subrange(0, i + 1 as int).drop_last() =~= ids.subrange(0, i as int));
            assert(ids.subrange(0, i + 1 as int).last() == mesh_id);
        }
        let mut found: Option<usize> = None;
        let mut b: usize = 0;
        while b < batches.len()
            invariant
                b <= batches@.len(),
                found is None ==> forall|k: int| 0 <= k < b ==> (#[trigger] batches@[k]).0
                    != mesh_id,
                found matches Some(fb) ==> fb < batches@.len() && batches@[fb as int].0 == mesh_id,
            decreases batches@.len() - b,
        {
            if batches[b].0 == mesh_id {
                found = Some(b);
                break ;
            }
            b = b + 1;
        }
        let ghost take_i = ids.subrange(0, i as int);
        let ghost take_next = ids.subrange(0, i + 1 as int);
        let ghost old_batches = batches@;
        let batch_id: usize = match found {
            Some(existing) => {
                let (bid, count) = batches[existing];
                batches.set(existing, (bid, count + 1));
                proof {
                    lemma_first_seen_distinct(take_i);
                    assert(old_batches[existing as int].0 == mesh_id);
                    assert(spec_first_seen(take_i).contains(mesh_id)) by {
                        assert(old_batches.map_values(|bb: (u32, u32)| bb.0)[existing as int]
                            == mesh_id);
                    }
                    assert(spec_first_seen(take_next) =~= spec_first_seen(take_i));
                    assert(batches@.map_values(|bb: (u32, u32)| bb.0) =~= spec_first_seen(
                        take_next,
                    ));
                    assert forall|k: int| 0 <= k < batches@.len() implies (
                    #[trigger] batches@[k]).1 == spec_count_of(take_next, batches@[k].0) by {
                        assert(batches@[k].0 == old_batches.map_values(|bb: (u32, u32)| bb.0)[k]);
                        if k == existing as int {
                            assert(batches@[k].0 == mesh_id);
                            assert(spec_count_of(take_next, mesh_id) == spec_count_of(
                                take_i,
                                mesh_id,
                            ) + 1);
                        } else {
                            assert(spec_first_seen(take_i)[k] != spec_first_seen(
                                take_i,
                            )[existing as int]);
                            assert(batches@[k].0 != mesh_id);
                            assert(spec_count_of(take_next, batches@[k].0) == spec_count_of(
                                take_i,
                                batches@[k].0,
                            ));
                        }
                    }
                }
                existing
            },
            None => {
                let new_batch = batches.len();
                proof {
                    assert(!spec_first_seen(take_i).contains(mesh_id)) by {
                        if spec_first_seen(take_i).contains(mesh_id) {
                            let w = choose|k: int|
                                0 <= k < spec_first_seen(take_i).len() && spec_first_seen(
                                    take_i,
                                )[k] == mesh_id;
                            assert(old_batches.map_values(|bb: (u32, u32)| bb.0)[w] == mesh_id);
                            assert(old_batches[w].0 == mesh_id);
                        }
                    }
                    lemma_first_seen_contains(take_i, mesh_id);
                    lemma_count_absent(take_i, mesh_id);
                }
                batches.push((mesh_id, 1));
                proof {
                    assert(spec_first_seen(take_next) =~= spec_first_seen(take_i).push(mesh_id));
                    assert(batches@.map_values(|bb: (u32, u32)| bb.0) =~= spec_first_seen(
                        take_next,
                    ));
                    assert forall|k: int| 0 <= k < batches@.len() implies (
                    #[trigger] batches@[k]).1 == spec_count_of(take_next, batches@[k].0) by {
                        if k < old_batches.len() {
                            assert(batches@[k] == old_batches[k]);
                            assert(batches@[k].0 == old_batches.map_values(
                                |bb: (u32, u32)| bb.0,
                            )[k]);
                            assert(spec_first_seen(take_i).contains(batches@[k].0)) by {
                                assert(spec_first_seen(take_i)[k] == batches@[k].0);
                            }
                            assert(batches@[k].0 != mesh_id);
                            assert(spec_count_of(take_next, batches@[k].0) == spec_count_of(
                                take_i,
                                batches@[k].0,
                            ));
                        } else {
                            assert(batches@[k] == (mesh_id, 1u32));
                            assert(spec_count_of(take_next, mesh_id) == spec_count_of(
                                take_i,
                                mesh_id,
                            ) + 1);
                        }
                    }
                }
                new_batch
            },
        };
        proof {
            assert(batch_id < batches@.len());
        }
        instance_culling_information.push(
            InstanceCullingInformation { batch_id: batch_id as u32 },
        );
        instance_materials.push(entity.material.material_id);
        let m = &entity.transform.matrix;
        let expanded: [u32; 16] = [
            m[0],
            m[1],
            m[2],
            0u32,
            m[3],
            m[4],
            m[5],
            0u32,
            m[6],
            m[7],
            m[8],
            0u32,
            m[9],
            m[10],
            m[11],
            0x3f80_0000u32,
        ];
        proof {
            assert(expanded@ =~= spec_mat4_bits(instances@[i as int].transform));
        }
        instance_transforms.push(expanded);
        i = i + 1;
    }
    proof {
        assert(ids.subrange(0, instances@.len() as int) =~= ids);
    }
    FrameBatches { batches, instance_culling_information, instance_materials, instance_transforms }
}

/// One indirect draw command per batch: the mesh's index range, its
/// vertex base, a zero instance count for the culling stage to fill,
/// and a first-instance cursor that lays the batches' instance ranges
/// end to end, partitioning `[0, N)`.
#[verifier::loop_isolation(false)]
pub fn build_indirect_commands(batches: &Vec<(u32, u32)>, meshes: &Vec<Mesh>) -> (r: Vec<
    IndirectDrawCommand,
>)
    requires
        forall|b: int| 0 <= b < batches@.len() ==> (#[trigger] batches@[b]).0 < meshes@.len(),
        spec_prefix_count(batches@, batches@.len() as int) <= 0xffff_ffff,
        forall|b: int| 0 <= b < batches@.len() ==> (#[trigger] batches@[b]).1 >= 0,
    ensures
        r@.len() == batches@.len(),
        forall|b: int|
            0 <= b < r@.len() ==> #[trigger] r@[b] == (IndirectDrawCommand {
                index_count: meshes@[batches@[b].0 as int].index_count,
                instance_count: 0,
                first_index: meshes@[batches@[b].0 as int].index_offset,
                base_vertex: meshes@[batches@[b].0 as int].vertex_offset,
                first_instance: spec_prefix_count(batches@, b) as u32,
            }),
{
    let mut commands: Vec<IndirectDrawCommand> = Vec::new();
    let mut cumulative: u32 = 0;
    let mut b: usize = 0;
    while b < batches.len()
        invariant
            b <= batches@.len(),
            commands@.len() == b,
            cumulative == spec_prefix_count(batches@, b as int),
            forall|k: int|
                0 <= k < b ==> #[trigger] commands@[k] == (IndirectDrawCommand {
                    index_count: meshes@[batches@[k].0 as int].index_count,
                    instance_count: 0,
                    first_index: meshes@[batches@[k].0 as int].index_offset,
                    base_vertex: meshes@[batches@[k].0 as int].vertex_offset,
                    first_instance: spec_prefix_count(batches@, k) as u32,
                }),
        decreases batches@.len() - b,
    {
        let (mesh_id, instance_count) = batches[b];
        let mesh = meshes[mesh_id as usize];
        commands.push(
            IndirectDrawCommand {
                index_count: mesh.index_count,
                instance_count: 0,
                first_index: mesh.index_offset,
                base_vertex: mesh.vertex_offset,
                first_instance: cumulative,
            },
        );
        proof {
            lemma_prefix_count_monotonic(batches@, b + 1 as int, batches@.len() as int);
        }
        cumulative = cumulative + instance_count;
        b = b + 1;
    }
    commands
}

/// Prefix counts grow with the batch index, so the per-batch instance
/// ranges `[first_instance, first_instance + count)` never overlap.
pub proof fn lemma_prefix_count_monotonic(batches: Seq<(u32, u32)>, a: int, b: int)
    requires
        0 <= a <= b <= batches.len(),
    ensures
        spec_prefix_count(batches, a) <= spec_prefix_count(batches, b),
    decreases b,
{
    if a < b {
        lemma_prefix_count_monotonic(batches, a, b - 1);
    }
}

/// How many of the first `upto` instances belong to batch `b`.
pub open spec fn spec_count_matching(
    culling: Seq<InstanceCullingInformation>,
    b: int,
    upto: int,
) -> int
    decreases upto,
{
    if upto <= 0 {
        0int
    } else {
        spec_count_matching(culling, b, upto - 1) + if culling[upto - 1].batch_id == b {
            1int
        } else {
            0int
        }
    }
}

/// How many of the first `upto` instances belong to batch `b` and
/// survived culling.
pub open spec fn spec_count_visible_matching(
    culling: Seq<InstanceCullingInformation>,
    visible: Seq<bool>,
    b: int,
    upto: int,
) -> int
    decreases upto,
{
    if upto <= 0 {
        0int
    } else {
        spec_count_visible_matching(culling, visible, b, upto - 1) + if culling[upto
            - 1].batch_id == b && visible[upto - 1] {
            1int
        } else {
            0int
        }
    }
}

/// How many of the first `upto` instances survived culling.
pub open spec fn spec_count_visible(visible: Seq<bool>, upto: int) -> int
    decreases upto,
{
    if upto <= 0 {
        0int
    } else {
        spec_count_visible(visible, upto - 1) + if visible[upto - 1] {
            1int
        } else {
            0int
        }
    }
}

/// The number of instances, among the first `upto`, in the batches
/// before `b`.
pub open spec fn spec_prefix_matching_upto(
    culling: Seq<InstanceCullingInformation>,
    b: int,
    upto: int,
) -> int
    decreases b,
{
    if b <= 0 {
        0int
    } else {
        spec_prefix_matching_upto(culling, b - 1, upto) + spec_count_matching(
            culling,
            b - 1,
            upto,
        )
    }
}

/// The number of instances in the batches before `b`.
pub open spec fn spec_prefix_matching(culling: Seq<InstanceCullingInformation>, b: int) -> int {
    spec_prefix_matching_upto(culling, b, culling.len() as int)
}

/// Matching counts are never negative.
proof fn lemma_cm_nonneg(culling: Seq<InstanceCullingInformation>, b: int, upto: int)
    requires
        upto >= 0,
    ensures
        spec_count_matching(culling, b, upto) >= 0,
    decreases upto,
{
    if upto > 0 {
        lemma_cm_nonneg(culling, b, upto - 1);
    }
}

/// Visible-and-matching never outruns matching.
proof fn lemma_vcm_le_cm(
    culling: Seq<InstanceCullingInformation>,
    visible: Seq<bool>,
    b: int,
    upto: int,
)
    requires
        upto >= 0,
    ensures
        spec_count_visible_matching(culling, visible, b, upto) <= spec_count_matching(
            culling,
            b,
            upto,
        ),
        spec_count_visible_matching(culling, visible, b, upto) >= 0,
        spec_count_matching(culling, b, upto) >= 0,
    decreases upto,
{
    if upto > 0 {
        lemma_vcm_le_cm(culling, visible, b, upto - 1);
    }
}

/// Matching counts grow with the prefix length.
proof fn lemma_cm_monotonic(
    culling: Seq<InstanceCullingInformation>,
    b: int,
    i: int,
    j: int,
)
    requires
        0 <= i <= j,
    ensures
        spec_count_matching(culling, b, i) <= spec_count_matching(culling, b, j),
    decreases j,
{
    if i < j {
        lemma_cm_monotonic(culling, b, i, j - 1);
    }
}

/// Visible-and-matching counts grow with the prefix length.
proof fn lemma_vcm_monotonic(
    culling: Seq<InstanceCullingInformation>,
    visible: Seq<bool>,
    b: int,
    i: int,
    j: int,
)
    requires
        0 <= i <= j,
    ensures
        spec_count_visible_matching(culling, visible, b, i) <= spec_count_visible_matching(
            culling,
            visible,
            b,
            j,
        ),
    decreases j,
{
    if i < j {
        lemma_vcm_monotonic(culling, visible, b, i, j - 1);
    }
}

/// Batch prefixes grow with the batch index.
proof fn lemma_pm_monotonic(culling: Seq<InstanceCullingInformation>, a: int, b: int, upto: int)
    requires
        0 <= a <= b,
        upto >= 0,
    ensures
        spec_prefix_matching_upto(culling, a, upto) <= spec_prefix_matching_upto(
            culling,
            b,
            upto,
        ),
    decreases b,
{
    if a < b {
        lemma_pm_monotonic(culling, a, b - 1, upto);
        lemma_cm_nonneg(culling, b - 1, upto);
    }
}

/// Extending the instance prefix by one adds that instance to exactly
/// the batch prefixes that lie beyond its batch.
proof fn lemma_pm_step(culling: Seq<InstanceCullingInformation>, m: int, upto: int)
    requires
        0 <= upto < culling.len(),
        m >= 0,
    ensures
        spec_prefix_matching_upto(culling, m, upto + 1) == spec_prefix_matching_upto(
            culling,
            m,
            upto,
        ) + if (culling[upto].batch_id as int) < m {
            1int
        } else {
            0int
        },
    decreases m,
{
    if m > 0 {
        lemma_pm_step(culling, m - 1, upto);
    }
}

/// An empty instance prefix contributes nothing to any batch prefix.
proof fn lemma_pm_zero(culling: Seq<InstanceCullingInformation>, m: int)
    requires
        m >= 0,
    ensures
        spec_prefix_matching_upto(culling, m, 0) == 0,
    decreases m,
{
    if m > 0 {
        lemma_pm_zero(culling, m - 1);
    }
}

/// An empty instance prefix contributes no surviving instances.
proof fn lemma_svm_zero(
    culling: Seq<InstanceCullingInformation>,
    visible: Seq<bool>,
    m: int,
)
    requires
        m >= 0,
    ensures
        spec_sum_visible_matching(culling, visible, m, 0) == 0,
    decreases m,
{
    if m > 0 {
        lemma_svm_zero(culling, visible, m - 1);
    }
}

/// When every instance names a batch below `m`, the batch prefixes up
/// to `m` cover the whole instance list.
pub proof fn lemma_pm_total(culling: Seq<InstanceCullingInformation>, m: int, upto: int)
    requires
        m >= 0,
        0 <= upto <= culling.len(),
        forall|i: int|
            0 <= i < culling.len() ==> (#[trigger] culling[i].batch_id as int) < m,
    ensures
        spec_prefix_matching_upto(culling, m, upto) == upto,
    decreases upto,
{
    if upto > 0 {
        lemma_pm_total(culling, m, upto - 1);
        lemma_pm_step(culling, m, upto - 1);
        assert((culling[upto - 1].batch_id as int) < m);
    } else {
        lemma_pm_zero(culling, m);
    }
}

/// The sum of the per-batch surviving instance counts over the batches
/// before `m`.
pub open spec fn spec_sum_visible_matching(
    culling: Seq<InstanceCullingInformation>,
    visible: Seq<bool>,
    m: int,
    upto: int,
) -> int
    decreases m,
{
    if m <= 0 {
        0int
    } else {
        spec_sum_visible_matching(culling, visible, m - 1, upto) + spec_count_visible_matching(
            culling,
            visible,
            m - 1,
            upto,
        )
    }
}

/// Extending the instance prefix by one adds a surviving instance to
/// the sum exactly when it is visible.
proof fn lemma_svm_step(
    culling: Seq<InstanceCullingInformation>,
    visible: Seq<bool>,
    m: int,
    upto: int,
)
    requires
        0 <= upto < culling.len(),
        m >= 0,
    ensures
        spec_sum_visible_matching(culling, visible, m, upto + 1) == spec_sum_visible_matching(
            culling,
            visible,
            m,
            upto,
        ) + if (culling[upto].batch_id as int) < m && visible[upto] {
            1int
        } else {
            0int
        },
    decreases m,
{
    if m > 0 {
        lemma_svm_step(culling, visible, m - 1, upto);
    }
}

/// After culling, the batch instance counts sum to the number of
/// visible instances: culling only compacts, never duplicates or drops
/// a visible instance.
pub proof fn lemma_culled_total(
    culling: Seq<InstanceCullingInformation>,
    visible: Seq<bool>,
    m: int,
    upto: int,
)
    requires
        m >= 0,
        0 <= upto <= culling.len(),
        forall|i: int|
            0 <= i < culling.len() ==> (#[trigger] culling[i].batch_id as int) < m,
    ensures
        spec_sum_visible_matching(culling, visible, m, upto) == spec_count_visible(visible, upto),
    decreases upto,
{
    if upto > 0 {
        lemma_culled_total(culling, visible, m, upto - 1);
        lemma_svm_step(culling, visible, m, upto - 1);
        assert((culling[upto - 1].batch_id as int) < m);
    } else {
        lemma_svm_zero(culling, visible, m);
    }
}

/// The sequential model of the GPU frustum-culling pass. For each
/// visible instance it bumps its batch's instance count, obtaining a
/// pre-increment slot `k`, and writes the instance's index at
/// `first_instance + k`; the per-batch ranges compact without ever
/// touching another batch's range.
#[verifier::loop_isolation(false)]
pub fn apply_culling(
    commands: &mut Vec<IndirectDrawCommand>,
    culling: &Vec<InstanceCullingInformation>,
    visible: &Vec<bool>,
) -> (slots: Vec<u32>)
    requires
        culling@.len() == visible@.len(),
        culling@.len() <= 0xffff_ffff,
        forall|i: int|
            0 <= i < culling@.len() ==> (#[trigger] culling@[i].batch_id as int) < old(
                commands,
            )@.len(),
        forall|b: int|
            0 <= b < old(commands)@.len() ==> (#[trigger] old(commands)@[b]).instance_count == 0,
        forall|b: int|
            0 <= b < old(commands)@.len() ==> (#[trigger] old(commands)@[b]).first_instance
                == spec_prefix_matching(culling@, b),
    ensures
        final(commands)@.len() == old(commands)@.len(),
        forall|b: int|
            0 <= b < final(commands)@.len() ==> {
                &&& (#[trigger] final(commands)@[b]).index_count == old(
                    commands,
                )@[b].index_count
                &&& final(commands)@[b].first_index == old(commands)@[b].first_index
                &&& final(commands)@[b].base_vertex == old(commands)@[b].base_vertex
                &&& final(commands)@[b].first_instance == old(commands)@[b].first_instance
                &&& final(commands)@[b].instance_count == spec_count_visible_matching(
                    culling@,
                    visible@,
                    b,
                    culling@.len() as int,
                )
            },
        slots@.len() == culling@.len(),
        forall|i: int|
            0 <= i < culling@.len() && visible@[i] ==> slots@[spec_prefix_matching(
                culling@,
                culling@[i].batch_id as int,
            ) + spec_count_visible_matching(
                culling@,
                visible@,
                culling@[i].batch_id as int,
                i,
            )] == i as u32,
{
    let n = culling.len();
    let mut slots: Vec<u32> = Vec::new();
    let mut z: usize = 0;
    while z < n
        invariant
            z <= n,
            slots@.len() == z,
        decreases n - z,
    {
        slots.push(0);
        z = z + 1;
    }
    let mut i: usize = 0;
    while i < n
        invariant
            i <= n,
            slots@.len() == n,
            commands@.len() == old(commands)@.len(),
            forall|b: int|
                0 <= b < commands@.len() ==> {
                    &&& (#[trigger] commands@[b]).index_count == old(commands)@[b].index_count
                    &&& commands@[b].first_index == old(commands)@[b].first_index
                    &&& commands@[b].base_vertex == old(commands)@[b].base_vertex
                    &&& commands@[b].first_instance == old(commands)@[b].first_instance
                    &&& commands@[b].instance_count == spec_count_visible_matching(
                        culling@,
                        visible@,
                        b,
                        i as int,
                    )
                },
            forall|j: int|
                0 <= j < i && visible@[j] ==> slots@[spec_prefix_matching(
                    culling@,
                    culling@[j].batch_id as int,
                ) + spec_count_visible_matching(
                    culling@,
                    visible@,
                    culling@[j].batch_id as int,
                    j,
                )] == j as u32,
        decreases n - i,
    {
        if visible[i] {
            let b = culling[i].batch_id as usize;
            let command = commands[b];
            let k = command.instance_count;
            proof {
                lemma_slot_in_batch_range(culling@, visible@, b as int, i as int);
                lemma_pm_monotonic(culling@, b + 1 as int, commands@.len() as int, culling@.len() as int);
                lemma_pm_total(culling@, commands@.len() as int, culling@.len() as int);
            }
            let slot = command.first_instance + k;
            proof {
                assert forall|j: int| 0 <= j < i && visible@[j] implies spec_prefix_matching(
                    culling@,
                    culling@[j].batch_id as int,
                ) + spec_count_visible_matching(
                    culling@,
                    visible@,
                    culling@[j].batch_id as int,
                    j,
                ) != slot as int && 0 <= spec_prefix_matching(
                    culling@,
                    culling@[j].batch_id as int,
                ) + spec_count_visible_matching(
                    culling@,
                    visible@,
                    culling@[j].batch_id as int,
                    j,
                ) < n as int by {
                    let bj = culling@[j].batch_id as int;
                    lemma_slot_in_batch_range(culling@, visible@, bj, j);
                    lemma_pm_monotonic(
                        culling@,
                        bj + 1,
                        commands@.len() as int,
                        culling@.len() as int,
                    );
                    if bj == b as int {
                        lemma_vcm_monotonic(culling@, visible@, bj, j + 1, i as int);
                    } else if bj < b as int {
                        lemma_pm_monotonic(culling@, bj + 1, b as int, culling@.len() as int);
                    } else {
                        lemma_pm_monotonic(culling@, b + 1 as int, bj, culling@.len() as int);
                    }
                }
            }
            slots.set(slot as usize, i as u32);
            proof {
                assert(slot as int == spec_prefix_matching(culling@, b as int)
                    + spec_count_visible_matching(culling@, visible@, b as int, i as int));
                assert(slots@[slot as int] == i as u32);
            }
            commands.set(
                b,
                IndirectDrawCommand {
                    index_count: command.index_count,
                    instance_count: k + 1,
                    first_index: command.first_index,
                    base_vertex: command.base_vertex,
                    first_instance: command.first_instance,
                },
            );
            proof {
                assert forall|b2: int| 0 <= b2 < commands@.len() implies (
                #[trigger] commands@[b2]).instance_count == spec_count_visible_matching(
                    culling@,
                    visible@,
                    b2,
                    i + 1 as int,
                ) by {}
            }
        } else {
            proof {
                assert forall|b2: int| 0 <= b2 < commands@.len() implies (
                #[trigger] commands@[b2]).instance_count == spec_count_visible_matching(
                    culling@,
                    visible@,
                    b2,
                    i + 1 as int,
                ) by {}
            }
        }
        i = i + 1;
    }
    slots
}

/// A visible instance's slot lies strictly inside its batch's range:
/// below the batch's pre-culling instance count, and so below the
/// start of the next batch's range.
proof fn lemma_slot_in_batch_range(
    culling: Seq<InstanceCullingInformation>,
    visible: Seq<bool>,
    b: int,
    i: int,
)
    requires
        0 <= i < culling.len(),
        culling[i].batch_id == b,
        visible[i],
    ensures
        spec_count_visible_matching(culling, visible, b, i) < spec_count_matching(
            culling,
            b,
            culling.len() as int,
        ),
        spec_count_visible_matching(culling, visible, b, i) >= 0,
        spec_prefix_matching(culling, b) + spec_count_matching(culling, b, culling.len() as int)
            == spec_prefix_matching(culling, b + 1),
        spec_prefix_matching(culling, b) >= 0,
{
    lemma_vcm_le_cm(culling, visible, b, i);
    assert(spec_count_matching(culling, b, i + 1) == spec_count_matching(culling, b, i) + 1);
    lemma_cm_monotonic(culling, b, i + 1, culling.len() as int);
    lemma_pm_monotonic(culling, 0, b, culling.len() as int);
}

/// Under the batching postconditions, a batch's matching count over an
/// instance prefix is the occurrence count of its mesh id.
proof fn lemma_cm_equals_count(
    culling: Seq<InstanceCullingInformation>,
    ids: Seq<u32>,
    batches: Seq<(u32, u32)>,
    b: int,
    upto: int,
)
    requires
        culling.len() == ids.len(),
        0 <= b < batches.len(),
        0 <= upto <= ids.len(),
        forall|k1: int, k2: int| 0 <= k1 < k2 < batches.len() ==> batches[k1].0 != batches[k2].0,
        forall|i: int|
            0 <= i < culling.len() ==> (#[trigger] culling[i]).batch_id < batches.len()
                && batches[culling[i].batch_id as int].0 == ids[i],
    ensures
        spec_count_matching(culling, b, upto) == spec_count_of(
            ids.subrange(0, upto),
            batches[b].0,
        ),
    decreases upto,
{
    if upto > 0 {
        lemma_cm_equals_count(culling, ids, batches, b, upto - 1);
        assert(ids.subrange(0, upto).drop_last() =~= ids.subrange(0, upto - 1));
        assert(ids.subrange(0, upto).last() == ids[upto - 1]);
        if culling[upto - 1].batch_id == b {
            assert(ids[upto - 1] == batches[b].0);
        } else {
            let k = culling[upto - 1].batch_id as int;
            assert(batches[k].0 == ids[upto - 1]);
            if ids[upto - 1] == batches[b].0 {
                if k < b {
                    assert(batches[k].0 != batches[b].0);
                } else {
                    assert(batches[b].0 != batches[k].0);
                }
            }
        }
    }
}

/// Under the batching postconditions, the culling-side batch prefix
/// equals the batch-side prefix count.
proof fn lemma_pm_equals_prefix(
    culling: Seq<InstanceCullingInformation>,
    ids: Seq<u32>,
    batches: Seq<(u32, u32)>,
    b: int,
)
    requires
        culling.len() == ids.len(),
        0 <= b <= batches.len(),
        forall|k1: int, k2: int| 0 <= k1 < k2 < batches.len() ==> batches[k1].0 != batches[k2].0,
        forall|i: int|
            0 <= i < culling.len() ==> (#[trigger] culling[i]).batch_id < batches.len()
                && batches[culling[i].batch_id as int].0 == ids[i],
        forall|k: int|
            0 <= k < batches.len() ==> (#[trigger] batches[k]).1 == spec_count_of(
                ids,
                batches[k].0,
            ),
    ensures
        spec_prefix_matching(culling, b) == spec_prefix_count(batches, b),
    decreases b,
{
    if b > 0 {
        lemma_pm_equals_prefix(culling, ids, batches, b - 1);
        lemma_cm_equals_count(culling, ids, batches, b - 1, ids.len() as int);
        assert(ids.subrange(0, ids.len() as int) =~= ids);
    }
}

/// The batch-side prefix count is the partial sum of the occurrence
/// counts of the first-seen mesh ids.
proof fn lemma_prefix_count_equals_sum(batches: Seq<(u32, u32)>, ids: Seq<u32>, b: int)
    requires
        0 <= b <= batches.len(),
        batches.len() == spec_first_seen(ids).len(),
        forall|k: int|
            0 <= k < batches.len() ==> (#[trigger] batches[k]).0 == spec_first_seen(ids)[k],
        forall|k: int|
            0 <= k < batches.len() ==> (#[trigger] batches[k]).1 == spec_count_of(
                ids,
                batches[k].0,
            ),
    ensures
        spec_prefix_count(batches, b) == spec_sum_counts(
            spec_first_seen(ids).subrange(0, b),
            ids,
        ),
    decreases b,
{
    if b > 0 {
        lemma_prefix_count_equals_sum(batches, ids, b - 1);
        assert(spec_first_seen(ids).subrange(0, b).drop_last() =~= spec_first_seen(
            ids,
        ).subrange(0, b - 1));
        assert(spec_first_seen(ids).subrange(0, b).last() == spec_first_seen(ids)[b - 1]);
    } else {
        assert(spec_first_seen(ids).subrange(0, 0) =~= Seq::<u32>::empty());
    }
}

/// Steps 2 and 3 of a render tick: batches the drawable instances and
/// records one indirect draw command per batch. The commands' instance
/// counts are zero, ready for the culling stage, and their
/// first-instance cursors partition `[0, N)` by batch: batch `b`'s
/// range starts at the total pre-culling count of the batches before
/// it, and the ranges together cover exactly the `N` instances.
#[verifier::rlimit(30)]
pub fn plan_frame(instances: &Vec<RenderEntity>, meshes: &Vec<Mesh>) -> (r: (
    FrameBatches,
    Vec<IndirectDrawCommand>,
))
    requires
        instances@.len() <= 0xffff_ffff,
        forall|i: int|
            0 <= i < instances@.len() ==> (#[trigger] instances@[i]).mesh.mesh_id < meshes@.len(),
    ensures
        r.0.batches@.map_values(|b: (u32, u32)| b.0) == spec_first_seen(
            spec_mesh_ids(instances@),
        ),
        forall|b: int|
            0 <= b < r.0.batches@.len() ==> (#[trigger] r.0.batches@[b]).1 == spec_count_of(
                spec_mesh_ids(instances@),
                r.0.batches@[b].0,
            ),
        r.0.instance_culling_information@.len() == instances@.len(),
        forall|i: int|
            0 <= i < instances@.len() ==> (
            #[trigger] r.0.instance_culling_information@[i]).batch_id < r.0.batches@.len()
                && r.0.batches@[r.0.instance_culling_information@[i].batch_id as int].0
                == instances@[i].mesh.mesh_id,
        r.0.instance_materials@.len() == instances@.len(),
        forall|i: int|
            0 <= i < instances@.len() ==> (#[trigger] r.0.instance_materials@[i])
                == instances@[i].material.material_id,
        r.0.instance_transforms@.len() == instances@.len(),
        forall|i: int|
            0 <= i < instances@.len() ==> (#[trigger] r.0.instance_transforms@[i])@
                =~= spec_mat4_bits(instances@[i].transform),
        r.1@.len() == r.0.batches@.len(),
        forall|b: int|
            0 <= b < r.1@.len() ==> #[trigger] r.1@[b] == (IndirectDrawCommand {
                index_count: meshes@[r.0.batches@[b].0 as int].index_count,
                instance_count: 0,
                first_index: meshes@[r.0.batches@[b].0 as int].index_offset,
                base_vertex: meshes@[r.0.batches@[b].0 as int].vertex_offset,
                first_instance: spec_prefix_count(r.0.batches@, b) as u32,
            }),
        forall|b: int|
            0 <= b < r.1@.len() ==> (#[trigger] r.1@[b]).first_instance == spec_prefix_matching(
                r.0.instance_culling_information@,
                b,
            ),
        spec_prefix_matching(r.0.instance_culling_information@, r.1@.len() as int)
            == instances@.len(),
        spec_prefix_count(r.0.batches@, r.0.batches@.len() as int) == instances@.len(),
{
    let ghost ids = spec_mesh_ids(instances@);
    let frame = build_batches(instances);
    proof {
        lemma_first_seen_distinct(ids);
        assert forall|b: int| 0 <= b < frame.batches@.len() implies (
        #[trigger] frame.batches@[b]).0 < meshes@.len() by {
            assert(frame.batches@.map_values(|bb: (u32, u32)| bb.0)[b] == frame.batches@[b].0);
            assert(spec_first_seen(ids)[b] == frame.batches@[b].0);
            assert(spec_first_seen(ids).contains(frame.batches@[b].0));
            lemma_first_seen_contains(ids, frame.batches@[b].0);
            let w = choose|k: int| 0 <= k < ids.len() && ids[k] == frame.batches@[b].0;
            assert(instances@[w].mesh.mesh_id == frame.batches@[b].0);
        }
        assert forall|k: int| 0 <= k < frame.batches@.len() implies (
        #[trigger] frame.batches@[k]).0 == spec_first_seen(ids)[k] by {
            assert(frame.batches@.map_values(|bb: (u32, u32)| bb.0)[k] == frame.batches@[k].0);
        }
        lemma_prefix_count_equals_sum(
            frame.batches@,
            ids,
            frame.batches@.len() as int,
        );
        assert(spec_first_seen(ids).subrange(0, spec_first_seen(ids).len() as int)
            =~= spec_first_seen(ids));
        lemma_batch_counts_total(ids);
        assert(spec_prefix_count(frame.batches@, frame.batches@.len() as int) == ids.len());
    }
    let commands = build_indirect_commands(&frame.batches, meshes);
    proof {
        assert forall|k1: int, k2: int|
            0 <= k1 < k2 < frame.batches@.len() implies frame.batches@[k1].0
            != frame.batches@[k2].0 by {
            assert(frame.batches@[k1].0 == spec_first_seen(ids)[k1]);
            assert(frame.batches@[k2].0 == spec_first_seen(ids)[k2]);
        }
        assert forall|b: int| 0 <= b < commands@.len() implies (
        #[trigger] commands@[b]).first_instance == spec_prefix_matching(
            frame.instance_culling_information@,
            b,
        ) by {
            lemma_pm_equals_prefix(frame.instance_culling_information@, ids, frame.batches@, b);
            lemma_prefix_count_monotonic(frame.batches@, b, frame.batches@.len() as int);
            lemma_prefix_count_monotonic(frame.batches@, 0, b);
        }
        lemma_pm_equals_prefix(
            frame.instance_culling_information@,
            ids,
            frame.batches@,
            frame.batches@.len() as int,
        );
    }
    (frame, commands)
}

} // verus!
