//! The breadth-first flattening order of a node graph: a node receives
//! its final flat index the moment it is discovered, before its own
//! children are, so a parent's recorded child indices stay valid
//! pointers into the finished flat array.

use vstd::prelude::*;
use crate::error::AssetError;
use crate::model_input::InputNode;

verus! {

/// How many of the first `upto` flags are set.
spec fn spec_count_true(flags: Seq<bool>, upto: int) -> int
    decreases upto,
{
    if upto <= 0 {
        0int
    } else {
        spec_count_true(flags, upto - 1) + if flags[upto - 1] {
            1int
        } else {
            0int
        }
    }
}

/// A count never exceeds the number of flags counted.
proof fn lemma_count_le(flags: Seq<bool>, upto: int)
    requires
        upto >= 0,
    ensures
        0 <= spec_count_true(flags, upto) <= upto,
    decreases upto,
{
    if upto > 0 {
        lemma_count_le(flags, upto - 1);
    }
}

/// Setting a clear flag raises the count by one.
proof fn lemma_count_set(flags: Seq<bool>, j: int, upto: int)
    requires
        0 <= j < flags.len(),
        !flags[j],
        0 <= upto <= flags.len(),
    ensures
        spec_count_true(flags.update(j, true), upto) == spec_count_true(flags, upto) + if j
            < upto {
            1int
        } else {
            0int
        },
    decreases upto,
{
    if upto > 0 {
        lemma_count_set(flags, j, upto - 1);
        if j == upto - 1 {
            assert(flags.update(j, true)[upto - 1]);
        } else {
            assert(flags.update(j, true)[upto - 1] == flags[upto - 1]);
        }
    }
}

/// A clear flag keeps the count strictly below the flag count.
proof fn lemma_count_missing(flags: Seq<bool>, j: int, upto: int)
    requires
        0 <= j < upto,
        !flags[j],
    ensures
        spec_count_true(flags, upto) < upto,
    decreases upto,
{
    if upto - 1 == j {
        lemma_count_le(flags, j);
    } else {
        lemma_count_missing(flags, j, upto - 1);
    }
}

/// Every root and child reference lands inside the node list, and no
/// node is referenced twice — by two roots, by two child slots, or by
/// a root and a child slot: the references form a forest over the
/// roots.
pub open spec fn spec_references_valid(root_nodes: Seq<usize>, nodes: Seq<InputNode>) -> bool {
    &&& forall|r: int| 0 <= r < root_nodes.len() ==> (#[trigger] root_nodes[r]) < nodes.len()
    &&& forall|j: int, c: int|
        0 <= j < nodes.len() && 0 <= c < nodes[j].children@.len() ==> (
        #[trigger] nodes[j].children@[c]) < nodes.len()
    &&& forall|r1: int, r2: int|
        0 <= r1 < r2 < root_nodes.len() ==> root_nodes[r1] != root_nodes[r2]
    &&& forall|j1: int, c1: int, j2: int, c2: int|
        #![trigger nodes[j1].children@[c1], nodes[j2].children@[c2]]
        0 <= j1 < nodes.len() && 0 <= c1 < nodes[j1].children@.len() && 0 <= j2 < nodes.len() && 0
            <= c2 < nodes[j2].children@.len() && (j1 != j2 || c1 != c2)
            ==> nodes[j1].children@[c1] != nodes[j2].children@[c2]
    &&& forall|r: int, j: int, c: int|
        #![trigger root_nodes[r], nodes[j].children@[c]]
        0 <= r < root_nodes.len() && 0 <= j < nodes.len() && 0 <= c < nodes[j].children@.len()
            ==> root_nodes[r] != nodes[j].children@[c]
}

/// The flattening order: `order[k]` is the input node placed at flat
/// index `k`, `label` its inverse on the discovered nodes, and
/// `parents[e - R]` (with `R` the root count) the flat parent index
/// and child slot that discovered the node at flat index `e`.
pub struct FlattenOrder {
    pub order: Vec<usize>,
    pub label: Vec<usize>,
    pub parents: Vec<(usize, usize)>,
}

/// What a finished flattening order guarantees: the roots occupy the
/// first flat indices in order, `label` inverts `order`, and every
/// child reference of a discovered node is discovered later than its
/// parent, after all roots, by exactly that parent and slot.
pub open spec fn spec_flatten_wf(
    root_nodes: Seq<usize>,
    nodes: Seq<InputNode>,
    f: FlattenOrder,
) -> bool {
    &&& f.label@.len() == nodes.len()
    &&& root_nodes.len() <= f.order@.len() <= nodes.len()
    &&& f.parents@.len() + root_nodes.len() == f.order@.len()
    &&& forall|r: int| 0 <= r < root_nodes.len() ==> #[trigger] f.order@[r] == root_nodes[r]
    &&& forall|k: int|
        0 <= k < f.order@.len() ==> (#[trigger] f.order@[k]) < nodes.len()
            && f.label@[f.order@[k] as int] == k
    &&& forall|k: int, c: int|
        #![trigger nodes[f.order@[k] as int].children@[c]]
        0 <= k < f.order@.len() && 0 <= c < nodes[f.order@[k] as int].children@.len() ==> {
            let child = nodes[f.order@[k] as int].children@[c] as int;
            &&& child < nodes.len()
            &&& root_nodes.len() <= f.label@[child] < f.order@.len()
            &&& f.label@[child] > k
            &&& f.order@[f.label@[child] as int] == child
            &&& f.parents@[f.label@[child] - root_nodes.len()] == (k as usize, c as usize)
        }
}

/// Discovers the graph breadth first from the roots, assigning flat
/// indices in discovery order. A reference outside the node list, or a
/// node discovered twice, fails; on a valid forest the walk always
/// succeeds.
#[verifier::loop_isolation(false)]
#[verifier::rlimit(60)]
pub fn flatten_order(root_nodes: &Vec<usize>, nodes: &Vec<InputNode>) -> (res: Result<
    FlattenOrder,
    AssetError,
>)
    ensures
        res matches Err(e) ==> e matches AssetError::InvalidModelNode { .. },
        spec_references_valid(root_nodes@, nodes@) ==> res is Ok,
        res matches Ok(f) ==> spec_flatten_wf(root_nodes@, nodes@, f),
{
    let node_count = nodes.len();
    let root_count = root_nodes.len();
    let mut visited: Vec<bool> = Vec::new();
    let mut label: Vec<usize> = Vec::new();
    let mut i: usize = 0;
    while i < node_count
        invariant
            i <= node_count,
            visited@.len() == i,
            label@.len() == i,
            forall|j: int| 0 <= j < i ==> !(#[trigger] visited@[j]),
        decreases node_count - i,
    {
        visited.push(false);
        label.push(0);
        i = i + 1;
    }
    proof {
        assert(spec_count_true(visited@, node_count as int) == 0) by {
            lemma_count_all_clear(visited@, node_count as int);
        }
    }
    let mut order: Vec<usize> = Vec::new();
    let mut parents: Vec<(usize, usize)> = Vec::new();
    let mut i: usize = 0;
    while i < root_count
        invariant
            i <= root_count,
            order@.len() == i,
            parents@.len() == 0,
            visited@.len() == node_count,
            label@.len() == node_count,
            order@.len() == spec_count_true(visited@, node_count as int),
            order@.len() <= node_count,
            forall|k: int|
                0 <= k < i ==> #[trigger] order@[k] == root_nodes@[k] && order@[k] < node_count
                    && visited@[order@[k] as int] && label@[order@[k] as int] == k,
            forall|j: int|
                0 <= j < node_count && visited@[j] ==> (#[trigger] label@[j]) < order@.len()
                    && order@[label@[j] as int] == j,
        decreases root_count - i,
    {
        let root = root_nodes[i];
        if root >= node_count || visited[root] {
            proof {
                if spec_references_valid(root_nodes@, nodes@) {
                    if root < node_count && visited@[root as int] {
                        let e = label@[root as int] as int;
                        assert(order@[e] == root_nodes@[e]);
                    }
                }
            }
            return Err(AssetError::InvalidModelNode { node_index: root });
        }
        proof {
            lemma_count_missing(visited@, root as int, node_count as int);
            lemma_count_set(visited@, root as int, node_count as int);
        }
        label.set(root, order.len());
        visited.set(root, true);
        order.push(root);
        i = i + 1;
    }
    let mut cursor: usize = 0;
    while cursor < order.len()
        invariant
            cursor <= order@.len(),
            order@.len() <= node_count,
            root_count <= order@.len(),
            visited@.len() == node_count,
            label@.len() == node_count,
            parents@.len() + root_count == order@.len(),
            order@.len() == spec_count_true(visited@, node_count as int),
            forall|r: int| 0 <= r < root_count ==> #[trigger] order@[r] == root_nodes@[r],
            forall|k: int|
                0 <= k < order@.len() ==> (#[trigger] order@[k]) < node_count
                    && visited@[order@[k] as int] && label@[order@[k] as int] == k,
            forall|j: int|
                0 <= j < node_count && visited@[j] ==> (#[trigger] label@[j]) < order@.len()
                    && order@[label@[j] as int] == j,
            forall|k: int, c: int|
                #![trigger nodes@[order@[k] as int].children@[c]]
                0 <= k < cursor && 0 <= c < nodes@[order@[k] as int].children@.len() ==> {
                    let child = nodes@[order@[k] as int].children@[c] as int;
                    &&& child < node_count
                    &&& visited@[child]
                    &&& root_count <= label@[child] < order@.len()
                    &&& label@[child] > k
                    &&& parents@[label@[child] - root_count] == (k as usize, c as usize)
                },
            forall|e: int|
                root_count <= e < order@.len() ==> {
                    let p = #[trigger] parents@[e - root_count];
                    &&& (p.0 as int) < cursor
                    &&& (p.1 as int) < nodes@[order@[p.0 as int] as int].children@.len()
                    &&& nodes@[order@[p.0 as int] as int].children@[p.1 as int] == order@[e]
                },
        decreases node_count - cursor,
    {
        let input_index = order[cursor];
        let child_count = nodes[input_index].children.len();
        let mut ci: usize = 0;
        while ci < child_count
            invariant
                ci <= child_count,
                input_index == order@[cursor as int],
                child_count == nodes@[input_index as int].children@.len(),
                cursor < order@.len(),
                order@.len() <= node_count,
                root_count <= order@.len(),
                visited@.len() == node_count,
                label@.len() == node_count,
                parents@.len() + root_count == order@.len(),
                order@.len() == spec_count_true(visited@, node_count as int),
                forall|r: int| 0 <= r < root_count ==> #[trigger] order@[r] == root_nodes@[r],
                forall|k: int|
                    0 <= k < order@.len() ==> (#[trigger] order@[k]) < node_count
                        && visited@[order@[k] as int] && label@[order@[k] as int] == k,
                forall|j: int|
                    0 <= j < node_count && visited@[j] ==> (#[trigger] label@[j]) < order@.len()
                        && order@[label@[j] as int] == j,
                forall|k: int, c: int|
                    #![trigger nodes@[order@[k] as int].children@[c]]
                    0 <= k < cursor && 0 <= c < nodes@[order@[k] as int].children@.len() ==> {
                        let child = nodes@[order@[k] as int].children@[c] as int;
                        &&& child < node_count
                        &&& visited@[child]
                        &&& root_count <= label@[child] < order@.len()
                        &&& label@[child] > k
                        &&& parents@[label@[child] - root_count] == (k as usize, c as usize)
                    },
                forall|c: int|
                    0 <= c < ci ==> {
                        let child = (#[trigger] nodes@[input_index as int].children@[c]) as int;
                        &&& child < node_count
                        &&& visited@[child]
                        &&& root_count <= label@[child] < order@.len()
                        &&& label@[child] > cursor
                        &&& parents@[label@[child] - root_count] == (
                        cursor as usize,
                        c as usize,
                        )
                    },
                forall|e: int|
                    root_count <= e < order@.len() ==> {
                        let p = #[trigger] parents@[e - root_count];
                        &&& (p.0 as int) < cursor || ((p.0 as int) == cursor && (p.1 as int) < ci)
                        &&& (p.1 as int) < nodes@[order@[p.0 as int] as int].children@.len()
                        &&& nodes@[order@[p.0 as int] as int].children@[p.1 as int] == order@[e]
                    },
            decreases child_count - ci,
        {
            let child = nodes[input_index].children[ci];
            if child >= node_count || visited[child] {
                proof {
                    if spec_references_valid(root_nodes@, nodes@) {
                        assert(child < node_count);
                        let e = label@[child as int] as int;
                        assert(order@[e] == child);
                        if e < root_count {
                            assert(root_nodes@[e] == child);
                            assert(root_nodes@[e] != nodes@[input_index as int].children@[ci as int]);
                        } else {
                            let p = parents@[e - root_count];
                            let j1 = order@[p.0 as int] as int;
                            assert(nodes@[j1].children@[p.1 as int] == child);
                            if j1 == input_index as int && (p.1 as int) == ci {
                                assert(label@[order@[p.0 as int] as int] == p.0 as int);
                                assert(label@[order@[cursor as int] as int] == cursor as int);
                                assert(false);
                            } else {
                                assert(nodes@[j1].children@[p.1 as int]
                                    != nodes@[input_index as int].children@[ci as int]);
                            }
                        }
                    }
                }
                return Err(AssetError::InvalidModelNode { node_index: child });
            }
            proof {
                lemma_count_missing(visited@, child as int, node_count as int);
                lemma_count_set(visited@, child as int, node_count as int);
            }
            label.set(child, order.len());
            visited.set(child, true);
            order.push(child);
            parents.push((cursor, ci));
            ci = ci + 1;
        }
        cursor = cursor + 1;
    }
    Ok(FlattenOrder { order, label, parents })
}

/// Freshly filled flags count zero.
proof fn lemma_count_all_clear(flags: Seq<bool>, upto: int)
    requires
        upto >= 0,
        forall|j: int| 0 <= j < upto ==> !(#[trigger] flags[j]),
    ensures
        spec_count_true(flags, upto) == 0,
    decreases upto,
{
    if upto > 0 {
        lemma_count_all_clear(flags, upto - 1);
    }
}

} // verus!
