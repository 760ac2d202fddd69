use roobu::cluster::command::{
    check_point_count, cluster_point_label, group_labels, preview_indices, projection_layout, validate_cluster_args,
    ClusterArgError,
};
use roobu::cluster::components::build_components;
use roobu::cluster::dendrogram::{build_dendrogram, collect_leaf_points, collect_selected_nodes};
use roobu::cluster::dsu::{DisjointSet, KruskalState};
use roobu::cluster::graph::{choose_pivots, splitmix64, target_neighbors, validate_params, ParamError};
use roobu::cluster::knn::{build_pivot_buckets, gather_candidates, next_epoch};
use roobu::cluster::labels::{assign_labels, component_clusters, localize_edges, sorted_leaves, to_global};

#[test]
fn union_joins_and_find_agrees() {
    let mut dsu = DisjointSet::new(6);
    assert_eq!(dsu.len(), 6);
    for i in 0..6 {
        assert_eq!(dsu.find(i), i);
    }
    let r = dsu.union(0, 1);
    assert_eq!(dsu.find(0), r);
    assert_eq!(dsu.find(1), r);
    dsu.union(2, 3);
    dsu.union(1, 3);
    let root = dsu.find(0);
    for i in 0..4 {
        assert_eq!(dsu.find(i), root);
    }
    assert_eq!(dsu.find(4), 4);
    assert_eq!(dsu.find(5), 5);
    // Joining again keeps the root.
    assert_eq!(dsu.union(3, 0), root);
}

#[test]
fn union_keeps_left_root_on_equal_rank() {
    let mut dsu = DisjointSet::new(4);
    assert_eq!(dsu.union(2, 3), 2);
    // The class of 2 has rank 1 now, so it wins against the singleton.
    assert_eq!(dsu.union(0, 3), 2);
}

#[test]
fn kruskal_tracks_sizes_and_nodes() {
    let mut k = KruskalState::new(4);
    assert_eq!(k.node_for_root(2), 2);
    assert_eq!(k.size_for_root(2), 1);
    let r = k.merge_with_node(0, 1, 4);
    assert_eq!(k.size_for_root(r), 2);
    assert_eq!(k.node_for_root(r), 4);
    let r0 = k.find(1);
    assert_eq!(r0, r);
}

#[test]
fn splitmix64_known_values() {
    // First outputs of SplitMix64 seeded with 0 (the reference sequence).
    assert_eq!(splitmix64(0), 0xE220A8397B1DCDAF);
    assert_eq!(splitmix64(0x9E3779B97F4A7C15), 0x6E789E6AA1B965F4);
}

#[test]
fn pivots_are_sorted_distinct_and_in_range() {
    let all = choose_pivots(5, 9, 1);
    assert_eq!(all, vec![0, 1, 2, 3, 4]);
    let pivots = choose_pivots(100, 10, 42);
    assert_eq!(pivots.len(), 10);
    assert!(pivots.windows(2).all(|w| w[0] < w[1]));
    assert!(pivots.iter().all(|&p| p < 100));
    assert_eq!(choose_pivots(100, 10, 42), pivots);
    assert!(choose_pivots(10, 0, 7).is_empty());
}

#[test]
fn graph_params_checked_in_order() {
    assert_eq!(validate_params(1, 1, 1, 1, 1, 1), Err(ParamError::MinClusterSize));
    assert_eq!(validate_params(2, 0, 1, 1, 1, 1), Err(ParamError::MinSamples));
    assert_eq!(validate_params(2, 1, 0, 1, 1, 1), Err(ParamError::Neighbors));
    assert_eq!(validate_params(2, 1, 1, 0, 1, 1), Err(ParamError::Pivots));
    assert_eq!(validate_params(2, 1, 1, 1, 0, 1), Err(ParamError::TopPivots));
    assert_eq!(validate_params(2, 1, 1, 2, 3, 1), Err(ParamError::TopPivotsAbovePivots));
    assert_eq!(validate_params(2, 1, 4, 4, 2, 3), Err(ParamError::MaxCandidates));
    assert_eq!(validate_params(3, 2, 4, 4, 2, 12), Ok(()));
    assert_eq!(ParamError::Pivots.message(), "--graph-pivots must be at least 1");
    assert_eq!(target_neighbors(4, 2, 11), 4);
    assert_eq!(target_neighbors(4, 9, 6), 5);
}

#[test]
fn candidates_come_from_shared_pivots_then_ring() {
    // Three points, two pivot slots.
    let point_pivots = vec![vec![0], vec![0, 1], vec![1]];
    let buckets = build_pivot_buckets(&point_pivots, 2);
    assert_eq!(buckets, vec![vec![0, 1], vec![1, 2]]);
    let cands = gather_candidates(&point_pivots, &buckets, 8, 2);
    assert_eq!(cands[0], vec![1, 2]);
    assert_eq!(cands[1], vec![0, 2]);
    assert_eq!(cands[2], vec![1, 0]);
    let capped = gather_candidates(&point_pivots, &buckets, 1, 1);
    assert_eq!(capped[1], vec![0]);
    let mut marks = vec![3u32, 7];
    assert_eq!(next_epoch(&mut marks, u32::MAX), 1);
    assert_eq!(marks, vec![0, 0]);
}

#[test]
fn components_group_points_and_edges_by_root() {
    let edges = vec![(0, 1), (3, 4), (1, 2)];
    let comps = build_components(6, &edges);
    let points: Vec<Vec<usize>> = comps.iter().map(|c| c.points.clone()).collect();
    assert_eq!(points, vec![vec![0, 1, 2], vec![3, 4], vec![5]]);
    let edge_ids: Vec<Vec<usize>> = comps.iter().map(|c| c.edges.clone()).collect();
    assert_eq!(edge_ids, vec![vec![0, 2], vec![1], vec![]]);
}

#[test]
fn dendrogram_clusters_and_labels() {
    // Five leaves; sorted edges join {0,1}, {2,3}, then {0,1} with 4.
    let edges = vec![(0, 1), (2, 3), (1, 0), (4, 0), (3, 0)];
    let d = build_dendrogram(5, &edges);
    assert_eq!(d.merges, 4);
    assert_eq!(d.nodes.len(), 9);
    assert_eq!(d.nodes[5].left, Some(0));
    assert_eq!(d.nodes[5].right, Some(1));
    assert_eq!(d.nodes[5].size, 2);
    assert_eq!(d.nodes[7].size, 3);
    assert_eq!(d.nodes[7].edge, Some(3));
    assert_eq!(d.root, 8);
    assert_eq!(d.nodes[8].size, 5);

    let mut leaves = Vec::new();
    collect_leaf_points(d.root, &d.nodes, &mut leaves);
    let mut sorted = leaves.clone();
    sorted.sort();
    assert_eq!(sorted, vec![0, 1, 2, 3, 4]);
    assert_eq!(sorted_leaves(7, &d.nodes), vec![0, 1, 4]);

    let mut pick = vec![false; d.nodes.len()];
    pick[6] = true;
    pick[7] = true;
    let mut selected = Vec::new();
    collect_selected_nodes(d.root, &d.nodes, &pick, &mut selected);
    assert_eq!(selected, vec![6, 7]);

    let clusters = component_clusters(&d.nodes, d.root, &pick, 3);
    assert_eq!(clusters, vec![vec![0, 1, 4]]);
    let clusters2 = component_clusters(&d.nodes, d.root, &pick, 2);
    assert_eq!(clusters2, vec![vec![2, 3], vec![0, 1, 4]]);

    let global = to_global(&vec![10, 11, 12, 13, 14], &clusters2[0]);
    assert_eq!(global, vec![12, 13]);
    let labels = assign_labels(6, &vec![vec![0, 1, 4], vec![2, 3]]);
    assert_eq!(labels, vec![0, 0, 1, 1, 0, -1]);
}

#[test]
fn local_edges_use_positions_in_component() {
    let points = vec![3, 5, 9];
    let edges = vec![(3, 9), (5, 7), (9, 5)];
    let local = localize_edges(&points, &edges, &vec![0, 1, 2]);
    assert_eq!(local, vec![(0, 2, 0), (2, 1, 2)]);
}

#[test]
fn cluster_command_checks_and_display() {
    assert_eq!(validate_cluster_args(0, 1, 2, 2), Err(ClusterArgError::MaxPoints));
    assert_eq!(validate_cluster_args(1, 0, 2, 2), Err(ClusterArgError::TopClusters));
    assert_eq!(validate_cluster_args(1, 1, 1, 2), Err(ClusterArgError::MinClusterSize));
    assert_eq!(validate_cluster_args(1, 1, 2, 1), Err(ClusterArgError::ProjectionDimsTooSmall));
    assert_eq!(validate_cluster_args(1, 1, 2, 2000), Err(ClusterArgError::ProjectionDimsTooLarge));
    assert_eq!(validate_cluster_args(1, 1, 2, 1024), Ok(()));
    assert_eq!(ClusterArgError::ProjectionDimsTooLarge.message(), "--projection-dims must be less than or equal to 1024");
    let err = check_point_count(3, 10).err().unwrap();
    assert_eq!(err.message(), "not enough points (3) for --min-cluster-size 10");
    assert!(check_point_count(10, 10).is_ok());
    assert_eq!(cluster_point_label(42, ""), "#42");
    assert_eq!(cluster_point_label(42, "https://e621.net/posts/42"), "https://e621.net/posts/42");
    assert_eq!(preview_indices(&vec![4, 1, 7, 2, 9, 3, 8], 7, 5), vec![4, 1, 2, 9, 3]);
}

#[test]
fn labels_group_by_cluster_and_count_noise() {
    let groups = group_labels(&vec![1, -1, 0, 1, -1, 0, 2]);
    assert_eq!(groups.noise, 2);
    let view: Vec<(i32, Vec<usize>)> = groups.groups.iter().map(|g| (g.label, g.members.clone())).collect();
    assert_eq!(view, vec![(0, vec![2, 5]), (1, vec![0, 3]), (2, vec![6])]);
}

#[test]
fn projection_layout_is_deterministic_and_in_range() {
    let a = projection_layout(16, 5, 2, 1_215_765_097);
    let b = projection_layout(16, 5, 2, 1_215_765_097);
    assert_eq!(a.len(), 16);
    assert!(a.iter().all(|row| row.len() == 2));
    assert!(a.iter().flatten().all(|s| s.target_index < 5));
    assert_eq!(a, b);
    // Slot 0 of source 0: state = splitmix(splitmix(seed ^ 0) ^ 0).
    let st = splitmix64(splitmix64(1_215_765_097));
    assert_eq!(a[0][0].target_index, (st as usize) % 5);
    assert_eq!(a[0][0].negative, st & 1 != 0);
}
