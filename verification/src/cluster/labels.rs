//! From dendrogram nodes to cluster labels: local edge indices, sorted leaf
//! sets, the clusters of a component and the final labelling.
use vstd::prelude::*;

use crate::cluster::dendrogram::{
    DendrogramNode, children_precede, leaves_of, picked_under, collect_leaf_points,
    collect_selected_nodes,
};
use crate::cluster::sorted::{strictly_increasing, insert_sorted};

verus! {

// ── Local edge indices ──────────────────────────────────────────────────────

/// The position of `x` in `points`.
pub open spec fn local_index(points: Seq<usize>, x: usize) -> int {
    choose|i: int| 0 <= i < points.len() && points[i] == x
}

/// The edges named by `ids` whose endpoints are both points of the
/// component, as (local u, local v, edge id), in the order of `ids`.
pub open spec fn localized(points: Seq<usize>, edges: Seq<(usize, usize)>, ids: Seq<usize>) -> Seq<
    (usize, usize, usize),
>
    decreases ids.len(),
{
    if ids.len() == 0 {
        seq![]
    } else {
        let prev = localized(points, edges, ids.drop_last());
        let id = ids.last();
        let (u, v) = edges[id as int];
        if points.contains(u) && points.contains(v) {
            prev.push((local_index(points, u) as usize, local_index(points, v) as usize, id))
        } else {
            prev
        }
    }
}

/// Binary search in a strictly increasing vector.
pub fn find_sorted(points: &Vec<usize>, x: usize) -> (r: Option<usize>)
    requires
        strictly_increasing(points@),
    ensures
        r matches Some(i) ==> i < points@.len() && points@[i as int] == x && i == local_index(points@, x),
        r is None ==> !points@.contains(x),
{
    let mut lo: usize = 0;
    let mut hi: usize = points.len();
    while lo < hi
        invariant
            strictly_increasing(points@),
            0 <= lo <= hi <= points@.len(),
            forall|k: int| 0 <= k < lo ==> points@[k] < x,
            forall|k: int| hi <= k < points@.len() ==> points@[k] > x,
        decreases hi - lo,
    {
        let mid = lo + (hi - lo) / 2;
        if points[mid] < x {
            lo = mid + 1;
        } else if points[mid] > x {
            hi = mid;
        } else {
            proof {
                assert(points@.contains(x));
                let c = local_index(points@, x);
                if c < mid {
                    assert(points@[c] < points@[mid as int]);
                } else if c > mid {
                    assert(points@[mid as int] < points@[c]);
                }
            }
            return Some(mid);
        }
    }
    None
}

/// Translate the edges of a component to local point indices.
pub fn localize_edges(points: &Vec<usize>, edges: &Vec<(usize, usize)>, edge_ids: &Vec<usize>) -> (r: Vec<
    (usize, usize, usize),
>)
    requires
        strictly_increasing(points@),
        forall|k: int| 0 <= k < edge_ids@.len() ==> edge_ids@[k] < edges@.len(),
    ensures
        r@ == localized(points@, edges@, edge_ids@),
{
    let mut out: Vec<(usize, usize, usize)> = Vec::new();
    let mut k: usize = 0;
    while k < edge_ids.len()
        invariant
            k <= edge_ids@.len(),
            strictly_increasing(points@),
            forall|j: int| 0 <= j < edge_ids@.len() ==> edge_ids@[j] < edges@.len(),
            out@ == localized(points@, edges@, edge_ids@.take(k as int)),
        decreases edge_ids@.len() - k,
    {
        let id = edge_ids[k];
        let (u, v) = edges[id];
        proof {
            assert(edge_ids@.take(k + 1).drop_last() =~= edge_ids@.take(k as int));
            assert(edge_ids@.take(k + 1).last() == id);
        }
        match (find_sorted(points, u), find_sorted(points, v)) {
            (Some(lu), Some(lv)) => {
                out.push((lu, lv, id));
            },
            _ => {},
        }
        k = k + 1;
    }
    assert(edge_ids@.take(k as int) =~= edge_ids@);
    out
}

// ── Cluster sets ────────────────────────────────────────────────────────────

/// The leaf sets of the picked nodes that have at least `min_size` leaves,
/// in order.
pub open spec fn large_leaf_sets(
    nodes: Seq<DendrogramNode>,
    picked: Seq<usize>,
    min_size: nat,
) -> Seq<Set<usize>>
    decreases picked.len(),
{
    if picked.len() == 0 {
        seq![]
    } else {
        let prev = large_leaf_sets(nodes, picked.drop_last(), min_size);
        let s = leaves_of(nodes, picked.last() as nat).to_set();
        if s.len() >= min_size {
            prev.push(s)
        } else {
            prev
        }
    }
}

/// The leaves under `node`, sorted and without repeats.
pub fn sorted_leaves(node: usize, nodes: &Vec<DendrogramNode>) -> (r: Vec<usize>)
    requires
        node < nodes@.len(),
        children_precede(nodes@),
    ensures
        strictly_increasing(r@),
        r@.to_set() == leaves_of(nodes@, node as nat).to_set(),
        r@.len() == leaves_of(nodes@, node as nat).to_set().len(),
{
    let mut leaves: Vec<usize> = Vec::new();
    collect_leaf_points(node, nodes, &mut leaves);
    let mut sorted: Vec<usize> = Vec::new();
    let mut i: usize = 0;
    while i < leaves.len()
        invariant
            i <= leaves@.len(),
            strictly_increasing(sorted@),
            forall|y: usize| sorted@.contains(y) <==> leaves@.take(i as int).contains(y),
        decreases leaves@.len() - i,
    {
        let x = leaves[i];
        let _ = insert_sorted(&mut sorted, x);
        proof {
            let t0 = leaves@.take(i as int);
            let t1 = leaves@.take(i + 1);
            assert(t1 =~= t0.push(x));
            assert forall|y: usize| sorted@.contains(y) <==> t1.contains(y) by {
                if t1.contains(y) && y != x {
                    let k = choose|k: int| 0 <= k < t1.len() && t1[k] == y;
                    assert(t0[k] == y);
                }
                if t0.contains(y) {
                    let k = choose|k: int| 0 <= k < t0.len() && t0[k] == y;
                    assert(t1[k] == y);
                }
                if y == x {
                    assert(t1[i as int] == x);
                }
            }
        }
        i = i + 1;
    }
    proof {
        assert(leaves@.take(i as int) =~= leaves@);
        assert(sorted@.to_set() =~= leaves@.to_set());
        assert(sorted@.no_duplicates()) by {
            assert forall|a: int, b: int| 0 <= a < sorted@.len() && 0 <= b < sorted@.len() && a != b implies sorted@[a] != sorted@[b] by {
                if a < b {
                    assert(sorted@[a] < sorted@[b]);
                } else {
                    assert(sorted@[b] < sorted@[a]);
                }
            }
        }
        sorted@.unique_seq_to_set();
    }
    sorted
}

/// The clusters of a component: the leaf sets of the topmost picked nodes
/// under `root` that have at least `min_cluster_size` points, each sorted.
pub fn component_clusters(
    nodes: &Vec<DendrogramNode>,
    root: usize,
    pick_node: &Vec<bool>,
    min_cluster_size: usize,
) -> (r: Vec<Vec<usize>>)
    requires
        root < nodes@.len(),
        pick_node@.len() == nodes@.len(),
        children_precede(nodes@),
    ensures
        forall|k: int| 0 <= k < r@.len() ==> strictly_increasing(#[trigger] r@[k]@),
        Seq::new(r@.len(), |k: int| r@[k]@.to_set()) == large_leaf_sets(
            nodes@,
            picked_under(nodes@, pick_node@, root as nat),
            min_cluster_size as nat,
        ),
{
    let mut selected: Vec<usize> = Vec::new();
    collect_selected_nodes(root, nodes, pick_node, &mut selected);
    proof {
        assert(selected@ =~= picked_under(nodes@, pick_node@, root as nat));
        lemma_picked_in_range(nodes@, pick_node@, root as nat);
    }
    let mut clusters: Vec<Vec<usize>> = Vec::new();
    let mut i: usize = 0;
    while i < selected.len()
        invariant
            i <= selected@.len(),
            children_precede(nodes@),
            forall|k: int| 0 <= k < selected@.len() ==> selected@[k] < nodes@.len(),
            forall|k: int| 0 <= k < clusters@.len() ==> strictly_increasing(#[trigger] clusters@[k]@),
            Seq::new(clusters@.len(), |k: int| clusters@[k]@.to_set()) == large_leaf_sets(
                nodes@,
                selected@.take(i as int),
                min_cluster_size as nat,
            ),
        decreases selected@.len() - i,
    {
        let leaves = sorted_leaves(selected[i], nodes);
        let ghost before = clusters@;
        proof {
            assert(selected@.take(i + 1).drop_last() =~= selected@.take(i as int));
            assert(selected@.take(i + 1).last() == selected@[i as int]);
        }
        if leaves.len() >= min_cluster_size {
            clusters.push(leaves);
            proof {
                assert(Seq::new(clusters@.len(), |k: int| clusters@[k]@.to_set()) =~= Seq::new(
                    before.len(),
                    |k: int| before[k]@.to_set(),
                ).push(clusters@[before.len() as int]@.to_set()));
            }
        }
        i = i + 1;
    }
    proof {
        assert(selected@.take(i as int) =~= selected@);
    }
    clusters
}

/// Every picked node under a node is a node.
pub proof fn lemma_picked_in_range(nodes: Seq<DendrogramNode>, pick: Seq<bool>, i: nat)
    requires
        i < nodes.len(),
    ensures
        forall|k: int| 0 <= k < picked_under(nodes, pick, i).len() ==> picked_under(nodes, pick, i)[k] < nodes.len(),
    decreases i,
{
    if 0 <= i < pick.len() && pick[i as int] {
    } else if crate::cluster::dendrogram::is_internal(nodes, i as int) {
        let l = nodes[i as int].left.unwrap() as nat;
        let r = nodes[i as int].right.unwrap() as nat;
        lemma_picked_in_range(nodes, pick, l);
        lemma_picked_in_range(nodes, pick, r);
        let a = picked_under(nodes, pick, l);
        let b = picked_under(nodes, pick, r);
        assert forall|k: int| 0 <= k < (a + b).len() implies (a + b)[k] < nodes.len() by {
            if k >= a.len() {
                assert((a + b)[k] == b[k - a.len()]);
            }
        }
    }
}

/// Map local point indices back to the component's points.
pub fn to_global(points: &Vec<usize>, local: &Vec<usize>) -> (r: Vec<usize>)
    requires
        forall|k: int| 0 <= k < local@.len() ==> local@[k] < points@.len(),
    ensures
        r@ == Seq::new(local@.len(), |k: int| points@[local@[k] as int]),
{
    let mut out: Vec<usize> = Vec::new();
    let mut k: usize = 0;
    while k < local.len()
        invariant
            k <= local@.len(),
            forall|j: int| 0 <= j < local@.len() ==> local@[j] < points@.len(),
            out@ == Seq::new(k as nat, |j: int| points@[local@[j] as int]),
        decreases local@.len() - k,
    {
        out.push(points[local[k]]);
        k = k + 1;
    }
    out
}

// ── Labels ──────────────────────────────────────────────────────────────────

/// The label of point `p`: the index of the last cluster holding it, or -1.
pub open spec fn label_of(clusters: Seq<Seq<usize>>, p: usize) -> int
    decreases clusters.len(),
{
    if clusters.len() == 0 {
        -1
    } else if clusters.last().contains(p) {
        clusters.len() - 1
    } else {
        label_of(clusters.drop_last(), p)
    }
}

/// Label every point: clusters are numbered in order from 0, and a point in
/// no cluster is noise (-1).
pub fn assign_labels(point_count: usize, clusters: &Vec<Vec<usize>>) -> (r: Vec<i32>)
    requires
        clusters@.len() <= i32::MAX,
        forall|k: int, j: int|
            0 <= k < clusters@.len() && 0 <= j < clusters@[k]@.len() ==> clusters@[k]@[j] < point_count,
    ensures
        r@.len() == point_count,
        forall|p: int| 0 <= p < point_count ==> #[trigger] r@[p] as int == label_of(
            Seq::new(clusters@.len(), |k: int| clusters@[k]@),
            p as usize,
        ),
{
    let mut labels: Vec<i32> = Vec::new();
    let mut p: usize = 0;
    while p < point_count
        invariant
            p <= point_count,
            labels@.len() == p,
            forall|j: int| 0 <= j < p ==> labels@[j] == -1,
        decreases point_count - p,
    {
        labels.push(-1);
        p = p + 1;
    }
    let ghost cs = Seq::new(clusters@.len(), |k: int| clusters@[k]@);
    let mut next_label: i32 = 0;
    let mut k: usize = 0;
    while k < clusters.len()
        invariant
            k <= clusters@.len(),
            clusters@.len() <= i32::MAX,
            next_label == k,
            labels@.len() == point_count,
            cs == Seq::new(clusters@.len(), |c: int| clusters@[c]@),
            forall|c: int, j: int|
                0 <= c < clusters@.len() && 0 <= j < clusters@[c]@.len() ==> clusters@[c]@[j] < point_count,
            forall|q: int| 0 <= q < point_count ==> #[trigger] labels@[q] as int == label_of(cs.take(k as int), q as usize),
        decreases clusters@.len() - k,
    {
        let cluster = &clusters[k];
        let ghost start = labels@;
        let mut j: usize = 0;
        while j < cluster.len()
            invariant
                j <= cluster@.len(),
                cluster@ == clusters@[k as int]@,
                labels@.len() == point_count,
                next_label == k,
                forall|t: int| 0 <= t < cluster@.len() ==> cluster@[t] < point_count,
                forall|q: int|
                    0 <= q < point_count ==> #[trigger] labels@[q] == (if cluster@.take(j as int).contains(
                        q as usize,
                    ) {
                        next_label
                    } else {
                        start[q]
                    }),
            decreases cluster@.len() - j,
        {
            let point = cluster[j];
            labels.set(point, next_label);
            proof {
                assert(cluster@.take(j + 1) =~= cluster@.take(j as int).push(point));
                assert forall|q: int| 0 <= q < point_count implies #[trigger] labels@[q] == (if cluster@.take(
                    j + 1,
                ).contains(q as usize) {
                    next_label
                } else {
                    start[q]
                }) by {
                    if q == point {
                        assert(cluster@.take(j + 1)[j as int] == point);
                    } else {
                        let c0 = cluster@.take(j as int);
                        let c1 = cluster@.take(j + 1);
                        if c1.contains(q as usize) {
                            let t = choose|t: int| 0 <= t < c1.len() && c1[t] == q as usize;
                            assert(c0[t] == q as usize);
                        }
                        if c0.contains(q as usize) {
                            let t = choose|t: int| 0 <= t < c0.len() && c0[t] == q as usize;
                            assert(c1[t] == q as usize);
                        }
                    }
                }
            }
            j = j + 1;
        }
        proof {
            assert(cluster@.take(j as int) =~= cluster@);
            assert(cs.take(k + 1).drop_last() =~= cs.take(k as int));
            assert(cs.take(k + 1).last() == cluster@);
            assert forall|q: int| 0 <= q < point_count implies #[trigger] labels@[q] as int == label_of(
                cs.take(k + 1),
                q as usize,
            ) by {
                assert(labels@[q] == (if cluster@.contains(q as usize) { next_label } else { start[q] }));
            }
        }
        next_label = next_label + 1;
        k = k + 1;
    }
    proof {
        assert(cs.take(k as int) =~= cs);
    }
    labels
}

} // verus!
