//! The single-linkage dendrogram of one component and the clusters read off
//! it.
//!
//! Edges arrive already sorted by weight (the weights are floating point and
//! stay with the caller); each dendrogram node records the edge that created
//! it, by index, so that the caller can look its weight up.
use vstd::prelude::*;

use crate::cluster::dsu::{KruskalState, class_of, merged, union_root, union_ranks, lemma_class_bounded};
use crate::cluster::sorted::{strictly_increasing, insert_sorted};
use vstd::set_lib::{set_int_range, lemma_int_range, lemma_len_subset, lemma_set_disjoint_lens};

verus! {

/// A dendrogram node: a leaf (one point) or the merge of two nodes.
#[derive(Clone, Copy, Debug)]
pub struct DendrogramNode {
    pub left: Option<usize>,
    pub right: Option<usize>,
    pub size: usize,
    /// The sorted edge whose addition created this node; `None` for leaves.
    pub edge: Option<usize>,
}

/// A leaf node.
pub open spec fn leaf_node() -> DendrogramNode {
    DendrogramNode { left: None, right: None, size: 1, edge: None }
}

/// The state of Kruskal's algorithm after some edges: classes, ranks, the
/// node that stands for each class, and the dendrogram built so far.
pub struct KruskalModel {
    pub rep: Seq<usize>,
    pub ranks: Seq<u8>,
    pub tops: Seq<usize>,
    pub nodes: Seq<DendrogramNode>,
}

/// Kruskal's algorithm on `n` leaves over `edges` in the given order: an
/// edge between two classes adds a node whose children are the nodes of the
/// two classes and whose size is the size of their union.
pub open spec fn kruskal_model(n: nat, edges: Seq<(usize, usize)>) -> KruskalModel
    decreases edges.len(),
{
    if edges.len() == 0 {
        KruskalModel {
            rep: Seq::new(n, |i: int| i as usize),
            ranks: Seq::new(n, |i: int| 0u8),
            tops: Seq::new(n, |i: int| i as usize),
            nodes: Seq::new(n, |i: int| leaf_node()),
        }
    } else {
        let m = kruskal_model(n, edges.drop_last());
        let (u, v) = edges.last();
        let ra = m.rep[u as int];
        let rb = m.rep[v as int];
        if ra == rb {
            m
        } else {
            let r = union_root(m.rep, m.ranks, u as int, v as int);
            let node = DendrogramNode {
                left: Some(m.tops[ra as int]),
                right: Some(m.tops[rb as int]),
                size: (class_of(m.rep, ra).len() + class_of(m.rep, rb).len()) as usize,
                edge: Some((edges.len() - 1) as usize),
            };
            KruskalModel {
                rep: merged(m.rep, ra, rb, r),
                ranks: union_ranks(m.rep, m.ranks, u as int, v as int),
                tops: m.tops.update(r as int, m.nodes.len() as usize),
                nodes: m.nodes.push(node),
            }
        }
    }
}

/// Every edge endpoint is a leaf.
pub open spec fn local_edges_in_range(n: nat, edges: Seq<(usize, usize)>) -> bool {
    forall|e: int| 0 <= e < edges.len() ==> (#[trigger] edges[e]).0 < n && edges[e].1 < n
}

/// The dendrogram built over a component.
pub struct Dendrogram {
    pub nodes: Vec<DendrogramNode>,
    /// The node that stands for the whole component (the class of leaf 0).
    pub root: usize,
    /// How many edges joined two classes.
    pub merges: usize,
}

/// The model keeps its shape: lengths, and every representative is a leaf.
pub proof fn lemma_model_shape(n: nat, edges: Seq<(usize, usize)>)
    requires
        local_edges_in_range(n, edges),
    ensures
        kruskal_model(n, edges).rep.len() == n,
        kruskal_model(n, edges).ranks.len() == n,
        kruskal_model(n, edges).tops.len() == n,
        kruskal_model(n, edges).nodes.len() >= n,
        forall|i: int| 0 <= i < n ==> #[trigger] kruskal_model(n, edges).rep[i] < n,
    decreases edges.len(),
{
    if edges.len() > 0 {
        let prev = edges.drop_last();
        assert(local_edges_in_range(n, prev)) by {
            assert forall|f: int| 0 <= f < prev.len() implies (#[trigger] prev[f]).0 < n && prev[f].1 < n by {
                assert(prev[f] == edges[f]);
            }
        }
        lemma_model_shape(n, prev);
        assert(edges[edges.len() - 1] == edges.last());
    }
}

/// Build the dendrogram of `leaf_count` points over `edges`, which are in
/// increasing order of weight.
pub fn build_dendrogram(leaf_count: usize, edges: &Vec<(usize, usize)>) -> (d: Dendrogram)
    requires
        local_edges_in_range(leaf_count as nat, edges@),
    ensures
        d.nodes@ == kruskal_model(leaf_count as nat, edges@).nodes,
        d.merges == d.nodes@.len() - leaf_count,
        leaf_count > 0 ==> d.root == kruskal_model(leaf_count as nat, edges@).tops[kruskal_model(
            leaf_count as nat,
            edges@,
        ).rep[0] as int],
{
    let mut nodes: Vec<DendrogramNode> = Vec::new();
    let mut i: usize = 0;
    while i < leaf_count
        invariant
            i <= leaf_count,
            nodes@ == Seq::new(i as nat, |j: int| leaf_node()),
        decreases leaf_count - i,
    {
        nodes.push(DendrogramNode { left: None, right: None, size: 1, edge: None });
        i = i + 1;
    }
    let mut kruskal = KruskalState::new(leaf_count);
    let mut merges: usize = 0;
    let mut e: usize = 0;
    proof {
        assert(edges@.take(0) =~= Seq::<(usize, usize)>::empty());
    }
    while e < edges.len()
        invariant
            e <= edges@.len(),
            local_edges_in_range(leaf_count as nat, edges@),
            kruskal.wf(),
            kruskal@.len() == leaf_count,
            kruskal@ == kruskal_model(leaf_count as nat, edges@.take(e as int)).rep,
            kruskal.ranks() == kruskal_model(leaf_count as nat, edges@.take(e as int)).ranks,
            kruskal.nodes() == kruskal_model(leaf_count as nat, edges@.take(e as int)).tops,
            nodes@ == kruskal_model(leaf_count as nat, edges@.take(e as int)).nodes,
            merges == nodes@.len() - leaf_count,
        decreases edges@.len() - e,
    {
        let ghost prefix = edges@.take(e as int);
        let ghost next = edges@.take(e + 1);
        proof {
            assert(next.drop_last() =~= prefix);
            assert(next.last() == edges@[e as int]);
            assert(local_edges_in_range(leaf_count as nat, prefix)) by {
                assert forall|f: int| 0 <= f < prefix.len() implies (#[trigger] prefix[f]).0 < leaf_count && prefix[f].1 < leaf_count by {
                    assert(prefix[f] == edges@[f]);
                }
            }
            lemma_model_shape(leaf_count as nat, prefix);
        }
        let (u, v) = edges[e];
        let lhs_root = kruskal.find(u);
        let rhs_root = kruskal.find(v);
        if lhs_root == rhs_root {
            e = e + 1;
            continue;
        }
        proof {
            crate::cluster::dsu::lemma_kruskal_reps(&kruskal);
        }
        let lhs_node = kruskal.node_for_root(lhs_root);
        let rhs_node = kruskal.node_for_root(rhs_root);
        let lhs_size = kruskal.size_for_root(lhs_root);
        let rhs_size = kruskal.size_for_root(rhs_root);
        proof {
            let rep = kruskal@;
            lemma_class_bounded(rep, lhs_root);
            lemma_class_bounded(rep, rhs_root);
            assert(class_of(rep, lhs_root).disjoint(class_of(rep, rhs_root)));
            lemma_set_disjoint_lens(class_of(rep, lhs_root), class_of(rep, rhs_root));
            lemma_int_range(0, leaf_count as int);
            lemma_len_subset(
                class_of(rep, lhs_root) + class_of(rep, rhs_root),
                set_int_range(0, leaf_count as int),
            );
        }
        let merged_size = lhs_size + rhs_size;
        let node_id = nodes.len();
        nodes.push(DendrogramNode {
            left: Some(lhs_node),
            right: Some(rhs_node),
            size: merged_size,
            edge: Some(e),
        });
        let ghost rep0 = kruskal@;
        let ghost ranks0 = kruskal.ranks();
        let _ = kruskal.merge_with_node(lhs_root, rhs_root, node_id);
        proof {
            assert(union_root(rep0, ranks0, lhs_root as int, rhs_root as int) == union_root(rep0, ranks0, u as int, v as int));
            assert(union_ranks(rep0, ranks0, lhs_root as int, rhs_root as int) == union_ranks(rep0, ranks0, u as int, v as int));
        }
        merges = merges + 1;
        e = e + 1;
    }
    proof {
        assert(edges@.take(e as int) =~= edges@);
    }
    let root = if leaf_count > 0 {
        let r0 = kruskal.find(0);
        proof {
            crate::cluster::dsu::lemma_kruskal_reps(&kruskal);
        }
        kruskal.node_for_root(r0)
    } else {
        0
    };
    Dendrogram { nodes, root, merges }
}

// ── Reading clusters off the dendrogram ─────────────────────────────────────

/// Node `i` has two children, both created before it.
pub open spec fn is_internal(nodes: Seq<DendrogramNode>, i: int) -> bool {
    &&& 0 <= i < nodes.len()
    &&& nodes[i].left matches Some(l) && 0 <= l < i
    &&& nodes[i].right matches Some(r) && 0 <= r < i
}

/// The leaves under node `i`, left to right.
pub open spec fn leaves_of(nodes: Seq<DendrogramNode>, i: nat) -> Seq<usize>
    decreases i,
{
    if is_internal(nodes, i as int) {
        leaves_of(nodes, nodes[i as int].left.unwrap() as nat) + leaves_of(
            nodes,
            nodes[i as int].right.unwrap() as nat,
        )
    } else {
        seq![i as usize]
    }
}

/// The topmost picked nodes under node `i`, left to right.
pub open spec fn picked_under(nodes: Seq<DendrogramNode>, pick: Seq<bool>, i: nat) -> Seq<usize>
    decreases i,
{
    if 0 <= i < pick.len() && pick[i as int] {
        seq![i as usize]
    } else if is_internal(nodes, i as int) {
        picked_under(nodes, pick, nodes[i as int].left.unwrap() as nat) + picked_under(
            nodes,
            pick,
            nodes[i as int].right.unwrap() as nat,
        )
    } else {
        seq![]
    }
}

/// The number of nodes in the subtree of `i`.
pub open spec fn subtree_weight(nodes: Seq<DendrogramNode>, i: nat) -> nat
    decreases i,
{
    if is_internal(nodes, i as int) {
        1 + subtree_weight(nodes, nodes[i as int].left.unwrap() as nat) + subtree_weight(
            nodes,
            nodes[i as int].right.unwrap() as nat,
        )
    } else {
        1
    }
}

/// Every subtree holds at least its own node.
pub proof fn lemma_weight_positive(nodes: Seq<DendrogramNode>, i: nat)
    ensures
        subtree_weight(nodes, i) >= 1,
{
}

/// The total weight of a stack of nodes.
pub open spec fn stack_weight(nodes: Seq<DendrogramNode>, s: Seq<usize>) -> nat
    decreases s.len(),
{
    if s.len() == 0 {
        0
    } else {
        subtree_weight(nodes, s.last() as nat) + stack_weight(nodes, s.drop_last())
    }
}

/// The leaves still to be visited for a stack of nodes (top first).
pub open spec fn pending_leaves(nodes: Seq<DendrogramNode>, s: Seq<usize>) -> Seq<usize>
    decreases s.len(),
{
    if s.len() == 0 {
        seq![]
    } else {
        leaves_of(nodes, s.last() as nat) + pending_leaves(nodes, s.drop_last())
    }
}

/// The picked nodes still to be visited for a stack of nodes (top first).
pub open spec fn pending_picked(nodes: Seq<DendrogramNode>, pick: Seq<bool>, s: Seq<usize>) -> Seq<usize>
    decreases s.len(),
{
    if s.len() == 0 {
        seq![]
    } else {
        picked_under(nodes, pick, s.last() as nat) + pending_picked(nodes, pick, s.drop_last())
    }
}

/// Whether a node has two children (as the traversal tests it).
fn has_children(node: &DendrogramNode) -> (r: Option<(usize, usize)>)
    ensures
        r matches Some((l, rr)) ==> node.left == Some(l) && node.right == Some(rr),
        r is None ==> node.left is None || node.right is None,
{
    match (node.left, node.right) {
        (Some(l), Some(r)) => Some((l, r)),
        _ => None,
    }
}

/// Children point to earlier nodes.
pub open spec fn children_precede(nodes: Seq<DendrogramNode>) -> bool {
    forall|i: int|
        0 <= i < nodes.len() ==> (#[trigger] nodes[i]).left.is_some() && nodes[i].right.is_some() ==> is_internal(
            nodes,
            i,
        )
}

/// Append the leaves under `node`, left to right.
pub fn collect_leaf_points(node: usize, nodes: &Vec<DendrogramNode>, leaves: &mut Vec<usize>)
    requires
        node < nodes@.len(),
        children_precede(nodes@),
    ensures
        final(leaves)@ == old(leaves)@ + leaves_of(nodes@, node as nat),
{
    let mut stack: Vec<usize> = Vec::new();
    stack.push(node);
    proof {
        assert(stack@.drop_last() =~= Seq::<usize>::empty());
        assert(stack@.last() == node);
        assert(pending_leaves(nodes@, stack@.drop_last()) =~= Seq::<usize>::empty());
        assert(pending_leaves(nodes@, stack@) =~= leaves_of(nodes@, node as nat));
    }
    while stack.len() > 0
        invariant
            children_precede(nodes@),
            forall|k: int| 0 <= k < stack@.len() ==> stack@[k] < nodes@.len(),
            leaves@ + pending_leaves(nodes@, stack@) == old(leaves)@ + leaves_of(nodes@, node as nat),
        decreases stack_weight(nodes@, stack@),
    {
        let ghost s0 = stack@;
        let current = stack.pop().unwrap();
        proof {
            assert(stack@ =~= s0.drop_last());
        }
        match has_children(&nodes[current]) {
            Some((left, right)) => {
                proof {
                    assert(is_internal(nodes@, current as int));
                }
                stack.push(right);
                stack.push(left);
                proof {
                    let s1 = stack@;
                    assert(s1.drop_last().drop_last() =~= s0.drop_last());
                    assert(s1.drop_last().last() == right);
                    assert(s1.last() == left);
                    let rest = pending_leaves(nodes@, s0.drop_last());
                    let ll = leaves_of(nodes@, left as nat);
                    let lr = leaves_of(nodes@, right as nat);
                    assert(pending_leaves(nodes@, s1.drop_last()) == lr + rest);
                    assert(pending_leaves(nodes@, s1) == ll + (lr + rest));
                    assert(leaves_of(nodes@, current as nat) == ll + lr);
                    assert(pending_leaves(nodes@, s0) == (ll + lr) + rest);
                    assert(pending_leaves(nodes@, s1) =~= pending_leaves(nodes@, s0));
                    assert(stack_weight(nodes@, s1.drop_last()) == subtree_weight(nodes@, right as nat)
                        + stack_weight(nodes@, s0.drop_last()));
                    assert(stack_weight(nodes@, s0) == subtree_weight(nodes@, current as nat) + stack_weight(
                        nodes@,
                        s0.drop_last(),
                    ));
                }
            },
            None => {
                let ghost before = leaves@;
                leaves.push(current);
                proof {
                    assert(!is_internal(nodes@, current as int));
                    assert(leaves_of(nodes@, current as nat) == seq![current]);
                    assert(pending_leaves(nodes@, s0) == seq![current] + pending_leaves(nodes@, stack@));
                    assert(leaves@ + pending_leaves(nodes@, stack@) =~= before + pending_leaves(nodes@, s0));
                    lemma_weight_positive(nodes@, current as nat);
                }
            },
        }
    }
}

/// Append the topmost picked nodes under `node`, left to right.
pub fn collect_selected_nodes(
    node: usize,
    nodes: &Vec<DendrogramNode>,
    pick_node: &Vec<bool>,
    selected: &mut Vec<usize>,
)
    requires
        node < nodes@.len(),
        pick_node@.len() == nodes@.len(),
        children_precede(nodes@),
    ensures
        final(selected)@ == old(selected)@ + picked_under(nodes@, pick_node@, node as nat),
{
    let mut stack: Vec<usize> = Vec::new();
    stack.push(node);
    proof {
        assert(stack@.drop_last() =~= Seq::<usize>::empty());
        assert(stack@.last() == node);
        assert(pending_picked(nodes@, pick_node@, stack@.drop_last()) =~= Seq::<usize>::empty());
        assert(pending_picked(nodes@, pick_node@, stack@) =~= picked_under(nodes@, pick_node@, node as nat));
    }
    while stack.len() > 0
        invariant
            children_precede(nodes@),
            pick_node@.len() == nodes@.len(),
            forall|k: int| 0 <= k < stack@.len() ==> stack@[k] < nodes@.len(),
            selected@ + pending_picked(nodes@, pick_node@, stack@) == old(selected)@ + picked_under(
                nodes@,
                pick_node@,
                node as nat,
            ),
        decreases stack_weight(nodes@, stack@),
    {
        let ghost s0 = stack@;
        let current = stack.pop().unwrap();
        proof {
            assert(stack@ =~= s0.drop_last());
        }
        if pick_node[current] {
            let ghost before = selected@;
            selected.push(current);
            proof {
                assert(picked_under(nodes@, pick_node@, current as nat) == seq![current]);
                assert(pending_picked(nodes@, pick_node@, s0) == seq![current] + pending_picked(
                    nodes@,
                    pick_node@,
                    stack@,
                ));
                assert(selected@ + pending_picked(nodes@, pick_node@, stack@) =~= before + pending_picked(
                    nodes@,
                    pick_node@,
                    s0,
                ));
                lemma_weight_positive(nodes@, current as nat);
            }
        } else {
            match has_children(&nodes[current]) {
                Some((left, right)) => {
                    proof {
                        assert(is_internal(nodes@, current as int));
                    }
                    stack.push(right);
                    stack.push(left);
                    proof {
                        let s1 = stack@;
                        assert(s1.drop_last().drop_last() =~= s0.drop_last());
                        assert(s1.drop_last().last() == right);
                        assert(s1.last() == left);
                        let rest = pending_picked(nodes@, pick_node@, s0.drop_last());
                        let pl = picked_under(nodes@, pick_node@, left as nat);
                        let pr = picked_under(nodes@, pick_node@, right as nat);
                        assert(pending_picked(nodes@, pick_node@, s1.drop_last()) == pr + rest);
                        assert(pending_picked(nodes@, pick_node@, s1) == pl + (pr + rest));
                        assert(picked_under(nodes@, pick_node@, current as nat) == pl + pr);
                        assert(pending_picked(nodes@, pick_node@, s0) == (pl + pr) + rest);
                        assert(pending_picked(nodes@, pick_node@, s1) =~= pending_picked(nodes@, pick_node@, s0));
                        assert(stack_weight(nodes@, s1.drop_last()) == subtree_weight(nodes@, right as nat)
                            + stack_weight(nodes@, s0.drop_last()));
                        assert(stack_weight(nodes@, s0) == subtree_weight(nodes@, current as nat)
                            + stack_weight(nodes@, s0.drop_last()));
                    }
                },
                None => {
                    proof {
                        assert(!is_internal(nodes@, current as int));
                        assert(picked_under(nodes@, pick_node@, current as nat) == Seq::<usize>::empty());
                        assert(pending_picked(nodes@, pick_node@, s0) =~= pending_picked(nodes@, pick_node@, stack@));
                        lemma_weight_positive(nodes@, current as nat);
                    }
                },
            }
        }
    }
}

} // verus!
