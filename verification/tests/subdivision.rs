use merlin::subdivide::subdivide_triangles;

#[test]
fn one_triangle_splits_into_four() {
    let indices = vec![0u32, 1, 2];
    let split = subdivide_triangles(&indices, 3);
    // the three edge midpoints get the next three vertex indices
    assert_eq!(split.edge_midpoints, vec![(0, 1), (1, 2), (0, 2)]);
    // corner triangles first, the middle triangle last
    assert_eq!(split.indices, vec![0, 3, 5, 1, 4, 3, 2, 5, 4, 3, 4, 5]);
}

#[test]
fn a_shared_edge_is_cut_only_once() {
    // two triangles sharing the edge (1, 2)
    let indices = vec![0u32, 1, 2, 1, 3, 2];
    let split = subdivide_triangles(&indices, 4);
    assert_eq!(split.indices.len(), 24);
    // five distinct edges, not six
    assert_eq!(
        split.edge_midpoints,
        vec![(0, 1), (1, 2), (0, 2), (1, 3), (2, 3)]
    );
    // both triangles address the shared midpoint under the same index
    let shared = 4 + 1; // vertex_count + position of (1, 2)
    assert_eq!(split.indices[4], shared); // second corner triangle of the first
    assert_eq!(split.indices[12 + 7], shared); // third corner triangle of the second
}

#[test]
fn every_output_index_addresses_a_vertex_or_midpoint() {
    let indices = vec![0u32, 1, 2, 2, 1, 3, 3, 1, 0];
    let split = subdivide_triangles(&indices, 4);
    assert_eq!(split.indices.len(), 4 * indices.len());
    let bound = 4 + split.edge_midpoints.len() as u32;
    assert!(split.indices.iter().all(|&i| i < bound));
    for (a, b) in &split.edge_midpoints {
        assert!(a <= b && *b < 4);
    }
}
