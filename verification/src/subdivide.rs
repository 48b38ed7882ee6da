//! One refinement pass over an indexed triangle list: every triangle
//! splits into four around the midpoints of its edges, and an edge
//! shared by two triangles gets its midpoint vertex only once.
//!
//! Midpoint positions are computed outside from the edge list; here an
//! edge's midpoint is addressed as `vertex_count + k`, with `k` the
//! edge's position in the deduplicated edge list.

use vstd::prelude::*;

verus! {

/// The result of one refinement pass: the split triangle list, and one
/// entry per distinct edge that was cut, in first-cut order.
pub struct Subdivision {
    pub indices: Vec<u32>,
    pub edge_midpoints: Vec<(u32, u32)>,
}

/// An edge as a normalized vertex pair: smaller endpoint first.
pub open spec fn spec_edge(a: u32, b: u32) -> (u32, u32) {
    if a < b {
        (a, b)
    } else {
        (b, a)
    }
}

/// Whether `edge` was already cut.
pub open spec fn spec_contains_edge(edges: Seq<(u32, u32)>, edge: (u32, u32)) -> bool {
    exists|k: int| 0 <= k < edges.len() && edges[k] == edge
}

/// The position of `edge` among the cut edges; meaningful when the
/// edges are pairwise distinct and `edge` occurs.
pub open spec fn spec_edge_index(edges: Seq<(u32, u32)>, edge: (u32, u32)) -> int {
    choose|k: int| 0 <= k < edges.len() && edges[k] == edge
}

/// Whether the cut edges are pairwise distinct.
pub open spec fn spec_edges_distinct(edges: Seq<(u32, u32)>) -> bool {
    forall|k1: int, k2: int| 0 <= k1 < k2 < edges.len() ==> edges[k1] != edges[k2]
}

/// The vertex index of an edge's midpoint.
pub open spec fn spec_midpoint(vertex_count: u32, edges: Seq<(u32, u32)>, edge: (u32, u32)) -> int {
    vertex_count + spec_edge_index(edges, edge)
}

/// Under distinctness, the position found for an edge is the only one.
proof fn lemma_edge_index_unique(edges: Seq<(u32, u32)>, edge: (u32, u32), k: int)
    requires
        spec_edges_distinct(edges),
        0 <= k < edges.len(),
        edges[k] == edge,
    ensures
        spec_edge_index(edges, edge) == k,
{
    let j = spec_edge_index(edges, edge);
    assert(0 <= j < edges.len() && edges[j] == edge);
}

/// How triangle `t` of the input looks in the output: its corners and
/// the three edge midpoints, arranged as four triangles — one per
/// corner, plus the middle triangle of the three midpoints.
pub open spec fn spec_triangle_split(
    out: Seq<u32>,
    edges: Seq<(u32, u32)>,
    ids: Seq<u32>,
    vertex_count: u32,
    t: int,
) -> bool {
    let i0 = ids[3 * t];
    let i1 = ids[3 * t + 1];
    let i2 = ids[3 * t + 2];
    let e01 = spec_edge(i0, i1);
    let e12 = spec_edge(i1, i2);
    let e20 = spec_edge(i2, i0);
    &&& spec_contains_edge(edges, e01)
    &&& spec_contains_edge(edges, e12)
    &&& spec_contains_edge(edges, e20)
    &&& out[12 * t] == i0
    &&& out[12 * t + 1] == spec_midpoint(vertex_count, edges, e01)
    &&& out[12 * t + 2] == spec_midpoint(vertex_count, edges, e20)
    &&& out[12 * t + 3] == i1
    &&& out[12 * t + 4] == spec_midpoint(vertex_count, edges, e12)
    &&& out[12 * t + 5] == spec_midpoint(vertex_count, edges, e01)
    &&& out[12 * t + 6] == i2
    &&& out[12 * t + 7] == spec_midpoint(vertex_count, edges, e20)
    &&& out[12 * t + 8] == spec_midpoint(vertex_count, edges, e12)
    &&& out[12 * t + 9] == spec_midpoint(vertex_count, edges, e01)
    &&& out[12 * t + 10] == spec_midpoint(vertex_count, edges, e12)
    &&& out[12 * t + 11] == spec_midpoint(vertex_count, edges, e20)
}

/// A triangle's split survives later edge cuts: the edge list only
/// grows at the end, so positions already assigned never move.
proof fn lemma_triangle_split_stable(
    out: Seq<u32>,
    edges_before: Seq<(u32, u32)>,
    edges_after: Seq<(u32, u32)>,
    ids: Seq<u32>,
    vertex_count: u32,
    t: int,
)
    requires
        spec_triangle_split(out, edges_before, ids, vertex_count, t),
        spec_edges_distinct(edges_before),
        spec_edges_distinct(edges_after),
        edges_before.len() <= edges_after.len(),
        forall|k: int| 0 <= k < edges_before.len() ==> edges_after[k] == edges_before[k],
        0 <= 3 * t + 2 < ids.len(),
    ensures
        spec_triangle_split(out, edges_after, ids, vertex_count, t),
{
    let i0 = ids[3 * t];
    let i1 = ids[3 * t + 1];
    let i2 = ids[3 * t + 2];
    lemma_edge_carries_over(edges_before, edges_after, spec_edge(i0, i1));
    lemma_edge_carries_over(edges_before, edges_after, spec_edge(i1, i2));
    lemma_edge_carries_over(edges_before, edges_after, spec_edge(i2, i0));
}

/// An edge present in a prefix-preserved edge list keeps its position.
proof fn lemma_edge_carries_over(
    edges_before: Seq<(u32, u32)>,
    edges_after: Seq<(u32, u32)>,
    edge: (u32, u32),
)
    requires
        spec_contains_edge(edges_before, edge),
        spec_edges_distinct(edges_before),
        spec_edges_distinct(edges_after),
        edges_before.len() <= edges_after.len(),
        forall|k: int| 0 <= k < edges_before.len() ==> edges_after[k] == edges_before[k],
    ensures
        spec_contains_edge(edges_after, edge),
        spec_edge_index(edges_after, edge) == spec_edge_index(edges_before, edge),
{
    let k = spec_edge_index(edges_before, edge);
    assert(0 <= k < edges_before.len() && edges_before[k] == edge);
    assert(edges_after[k] == edge);
    lemma_edge_index_unique(edges_after, edge, k);
}

/// The midpoint vertex of the edge `(a, b)`: the one already assigned
/// to that edge, or a fresh one appended to the edge list.
#[verifier::loop_isolation(false)]
fn midpoint_vertex(
    edges: &mut Vec<(u32, u32)>,
    a: u32,
    b: u32,
    vertex_count: u32,
) -> (m: u32)
    requires
        spec_edges_distinct(old(edges)@),
        vertex_count + old(edges)@.len() < 0xffff_ffff,
    ensures
        spec_edges_distinct(final(edges)@),
        final(edges)@.len() >= old(edges)@.len(),
        final(edges)@.len() <= old(edges)@.len() + 1,
        forall|k: int| 0 <= k < old(edges)@.len() ==> final(edges)@[k] == old(edges)@[k],
        spec_contains_edge(final(edges)@, spec_edge(a, b)),
        m == spec_midpoint(vertex_count, final(edges)@, spec_edge(a, b)),
        final(edges)@.len() == old(edges)@.len() + 1 ==> final(edges)@[old(edges)@.len() as int]
            == spec_edge(a, b),
{
    let edge = if a < b {
        (a, b)
    } else {
        (b, a)
    };
    let mut k: usize = 0;
    while k < edges.len()
        invariant
            k <= edges@.len(),
            forall|j: int| 0 <= j < k ==> edges@[j] != edge,
        decreases edges@.len() - k,
    {
        let candidate = edges[k];
        if candidate.0 == edge.0 && candidate.1 == edge.1 {
            proof {
                assert(candidate == edge);
                lemma_edge_index_unique(edges@, edge, k as int);
            }
            return vertex_count + k as u32;
        }
        k = k + 1;
    }
    let fresh = edges.len();
    edges.push(edge);
    proof {
        assert(edges@[fresh as int] == edge);
        assert forall|k1: int, k2: int|
            0 <= k1 < k2 < edges@.len() implies edges@[k1] != edges@[k2] by {
            if k2 == fresh {
                assert(edges@[k1] != edge);
            }
        }
        lemma_edge_index_unique(edges@, edge, fresh as int);
    }
    vertex_count + fresh as u32
}

/// Splits every triangle of `indices` into four. Each output index
/// addresses either an original vertex or, from `vertex_count` on, the
/// midpoint of the correspondingly numbered edge; an edge shared
/// between triangles is cut exactly once.
#[verifier::loop_isolation(false)]
#[verifier::rlimit(30)]
pub fn subdivide_triangles(indices: &Vec<u32>, vertex_count: u32) -> (r: Subdivision)
    requires
        indices@.len() % 3 == 0,
        forall|k: int| 0 <= k < indices@.len() ==> indices@[k] < vertex_count,
        vertex_count + indices@.len() < 0xffff_ffff,
    ensures
        r.indices@.len() == 4 * indices@.len(),
        spec_edges_distinct(r.edge_midpoints@),
        r.edge_midpoints@.len() <= indices@.len(),
        forall|p: int|
            0 <= p < r.edge_midpoints@.len() ==> (#[trigger] r.edge_midpoints@[p]).0
                <= r.edge_midpoints@[p].1 && r.edge_midpoints@[p].1 < vertex_count,
        forall|k: int|
            0 <= k < r.indices@.len() ==> (#[trigger] r.indices@[k]) < vertex_count
                + r.edge_midpoints@.len(),
        forall|t: int|
            0 <= t < indices@.len() / 3 ==> spec_triangle_split(
                r.indices@,
                r.edge_midpoints@,
                indices@,
                vertex_count,
                t,
            ),
{
    let triangle_count = indices.len() / 3;
    let mut out: Vec<u32> = Vec::new();
    let mut edges: Vec<(u32, u32)> = Vec::new();
    let mut t: usize = 0;
    while t < triangle_count
        invariant
            t <= triangle_count,
            triangle_count == indices@.len() / 3,
            out@.len() == 12 * t,
            spec_edges_distinct(edges@),
            edges@.len() <= 3 * t,
            forall|p: int|
                0 <= p < edges@.len() ==> (#[trigger] edges@[p]).0 <= edges@[p].1 && edges@[p].1
                    < vertex_count,
            forall|k: int|
                0 <= k < out@.len() ==> (#[trigger] out@[k]) < vertex_count + edges@.len(),
            forall|tt: int|
                0 <= tt < t ==> spec_triangle_split(
                    out@,
                    edges@,
                    indices@,
                    vertex_count,
                    tt,
                ),
            3 * triangle_count == indices@.len(),
        decreases triangle_count - t,
    {
        let i0 = indices[3 * t];
        let i1 = indices[3 * t + 1];
        let i2 = indices[3 * t + 2];
        let ghost edges0 = edges@;
        let m01 = midpoint_vertex(&mut edges, i0, i1, vertex_count);
        let ghost edges1 = edges@;
        let m12 = midpoint_vertex(&mut edges, i1, i2, vertex_count);
        let ghost edges2 = edges@;
        let m20 = midpoint_vertex(&mut edges, i2, i0, vertex_count);
        proof {
            lemma_edge_carries_over(edges1, edges@, spec_edge(i0, i1));
            lemma_edge_carries_over(edges2, edges@, spec_edge(i0, i1));
            lemma_edge_carries_over(edges2, edges@, spec_edge(i1, i2));
            assert forall|tt: int| 0 <= tt < t implies spec_triangle_split(
                out@,
                edges@,
                indices@,
                vertex_count,
                tt,
            ) by {
                assert(3 * tt + 2 < indices@.len());
                lemma_triangle_split_stable(
                    out@,
                    edges0,
                    edges@,
                    indices@,
                    vertex_count,
                    tt,
                );
            }
        }
        let ghost out_before = out@;
        out.push(i0);
        out.push(m01);
        out.push(m20);
        out.push(i1);
        out.push(m12);
        out.push(m01);
        out.push(i2);
        out.push(m20);
        out.push(m12);
        out.push(m01);
        out.push(m12);
        out.push(m20);
        proof {
            assert(spec_triangle_split(out@, edges@, indices@, vertex_count, t as int));
            assert forall|tt: int| 0 <= tt < t + 1 implies spec_triangle_split(
                out@,
                edges@,
                indices@,
                vertex_count,
                tt,
            ) by {
                if tt < t {
                    assert(forall|k: int|
                        0 <= k < out_before.len() ==> out@[k] == out_before[k]);
                    assert(spec_triangle_split(out_before, edges@, indices@, vertex_count, tt));
                    assert(12 * tt + 11 < out_before.len());
                }
            }
        }
        t = t + 1;
    }
    proof {
        assert(12 * (indices@.len() / 3) == 4 * indices@.len());
    }
    Subdivision { indices: out, edge_midpoints: edges }
}

} // verus!
