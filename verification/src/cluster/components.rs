//! Connected components of the neighbour graph.
use vstd::prelude::*;

use crate::cluster::dsu::{DisjointSet, merged, union_root, union_ranks};
use crate::cluster::sorted::strictly_increasing;

verus! {

/// The representative function and ranks after the edges are joined in order,
/// starting from `n` singleton classes.
pub open spec fn joined(n: nat, edges: Seq<(usize, usize)>) -> (Seq<usize>, Seq<u8>)
    decreases edges.len(),
{
    if edges.len() == 0 {
        (Seq::new(n, |i: int| i as usize), Seq::new(n, |i: int| 0u8))
    } else {
        let (rep, ranks) = joined(n, edges.drop_last());
        let (u, v) = edges.last();
        let r = union_root(rep, ranks, u as int, v as int);
        (merged(rep, rep[u as int], rep[v as int], r), union_ranks(rep, ranks, u as int, v as int))
    }
}

/// Every edge endpoint is a point.
pub open spec fn edges_in_range(n: nat, edges: Seq<(usize, usize)>) -> bool {
    forall|e: int| 0 <= e < edges.len() ==> (#[trigger] edges[e]).0 < n && edges[e].1 < n
}

/// One connected component: its root, its points in increasing order and the
/// indices of its edges in input order.
pub struct GraphComponent {
    pub root: usize,
    pub points: Vec<usize>,
    pub edges: Vec<usize>,
}

/// `c` is the component of root `r` under the representative function `rep`.
pub open spec fn is_component_of(
    c: GraphComponent,
    rep: Seq<usize>,
    edges: Seq<(usize, usize)>,
    r: usize,
) -> bool {
    &&& c.root == r
    &&& strictly_increasing(c.points@)
    &&& forall|p: usize| #[trigger] c.points@.contains(p) <==> (p < rep.len() && rep[p as int] == r)
    &&& strictly_increasing(c.edges@)
    &&& forall|e: usize| #[trigger] c.edges@.contains(e) <==> (e < edges.len() && rep[edges[e as int].0 as int] == r)
}

/// Join the endpoints of every edge and return the components, ordered by
/// root.
pub fn build_components(point_count: usize, edges: &Vec<(usize, usize)>) -> (r: Vec<GraphComponent>)
    requires
        edges_in_range(point_count as nat, edges@),
    ensures
        ({
            let rep = joined(point_count as nat, edges@).0;
            &&& forall|k: int, l: int| 0 <= k < l < r@.len() ==> r@[k].root < r@[l].root
            &&& forall|x: usize| (x < point_count && rep[x as int] == x) <==> exists|k: int|
                0 <= k < r@.len() && #[trigger] r@[k].root == x
            &&& forall|k: int| 0 <= k < r@.len() ==> is_component_of(#[trigger] r@[k], rep, edges@, r@[k].root)
        }),
{
    let mut dsu = DisjointSet::new(point_count);
    let mut i: usize = 0;
    proof {
        assert(edges@.take(0) =~= Seq::<(usize, usize)>::empty());
    }
    while i < edges.len()
        invariant
            i <= edges@.len(),
            edges_in_range(point_count as nat, edges@),
            dsu.wf(),
            dsu@.len() == point_count,
            dsu@ == joined(point_count as nat, edges@.take(i as int)).0,
            dsu.ranks() == joined(point_count as nat, edges@.take(i as int)).1,
        decreases edges@.len() - i,
    {
        let (u, v) = edges[i];
        let _ = dsu.union(u, v);
        proof {
            assert(edges@.take(i + 1).drop_last() =~= edges@.take(i as int));
        }
        i = i + 1;
    }
    assert(edges@.take(i as int) =~= edges@);
    let ghost rep = dsu@;
    // The representative of each point.
    let mut roots: Vec<usize> = Vec::new();
    let mut p: usize = 0;
    while p < point_count
        invariant
            p <= point_count,
            dsu.wf(),
            dsu@ == rep,
            rep.len() == point_count,
            roots@.len() == p,
            forall|j: int| 0 <= j < p ==> roots@[j] == rep[j],
        decreases point_count - p,
    {
        let r = dsu.find(p);
        roots.push(r);
        p = p + 1;
    }
    proof {
        dsu_rep_facts(&dsu);
    }
    // One empty component per root, in root order.
    let mut slot: Vec<usize> = Vec::new();
    let mut components: Vec<GraphComponent> = Vec::new();
    let mut x: usize = 0;
    while x < point_count
        invariant
            x <= point_count,
            rep.len() == point_count,
            roots@ == rep,
            forall|j: int| 0 <= j < point_count ==> rep[j] < point_count,
            forall|j: int| 0 <= j < point_count ==> rep[rep[j] as int] == rep[j],
            slot@.len() == x,
            forall|k: int, l: int| 0 <= k < l < components@.len() ==> components@[k].root < components@[l].root,
            forall|k: int| 0 <= k < components@.len() ==> (#[trigger] components@[k]).root < x,
            forall|k: int| 0 <= k < components@.len() ==> rep[(#[trigger] components@[k]).root as int] == components@[k].root,
            forall|k: int| 0 <= k < components@.len() ==> (#[trigger] components@[k]).points@.len() == 0 && components@[k].edges@.len() == 0,
            forall|j: int| 0 <= j < x && rep[j] == j ==> slot@[j] < components@.len() && components@[slot@[j] as int].root == j,
            forall|y: usize| (y < x && rep[y as int] == y) <==> exists|k: int|
                0 <= k < components@.len() && #[trigger] components@[k].root == y,
        decreases point_count - x,
    {
        if roots[x] == x {
            slot.push(components.len());
            let ghost before = components@;
            components.push(GraphComponent { root: x, points: Vec::new(), edges: Vec::new() });
            proof {
                assert forall|y: usize| (y < x + 1 && rep[y as int] == y) <==> exists|k: int|
                    0 <= k < components@.len() && #[trigger] components@[k].root == y by {
                    if y < x && rep[y as int] == y {
                        let k = choose|k: int| 0 <= k < before.len() && #[trigger] before[k].root == y;
                        assert(components@[k].root == y);
                    }
                    if y == x {
                        assert(components@[before.len() as int].root == y);
                    }
                    if exists|k: int| 0 <= k < components@.len() && #[trigger] components@[k].root == y {
                        let k = choose|k: int| 0 <= k < components@.len() && #[trigger] components@[k].root == y;
                        if k < before.len() {
                            assert(before[k].root == y);
                        }
                    }
                }
            }
        } else {
            slot.push(0);
            proof {
                assert forall|y: usize| (y < x + 1 && rep[y as int] == y) <==> exists|k: int|
                    0 <= k < components@.len() && #[trigger] components@[k].root == y by {
                    if exists|k: int| 0 <= k < components@.len() && #[trigger] components@[k].root == y {
                        let k = choose|k: int| 0 <= k < components@.len() && #[trigger] components@[k].root == y;
                        assert(rep[components@[k].root as int] == components@[k].root);
                    }
                }
            }
        }
        x = x + 1;
    }
    // Points, in increasing order.
    let mut p: usize = 0;
    while p < point_count
        invariant
            p <= point_count,
            rep.len() == point_count,
            roots@ == rep,
            forall|j: int| 0 <= j < point_count ==> rep[j] < point_count,
            forall|j: int| 0 <= j < point_count ==> rep[rep[j] as int] == rep[j],
            slot@.len() == point_count,
            forall|j: int| 0 <= j < point_count && rep[j] == j ==> slot@[j] < components@.len() && components@[slot@[j] as int].root == j,
            forall|k: int, l: int| 0 <= k < l < components@.len() ==> components@[k].root < components@[l].root,
            forall|k: int| 0 <= k < components@.len() ==> rep[(#[trigger] components@[k]).root as int] == components@[k].root,
            forall|k: int| 0 <= k < components@.len() ==> strictly_increasing((#[trigger] components@[k]).points@),
            forall|k: int, q: int| 0 <= k < components@.len() && 0 <= q < components@[k].points@.len() ==> components@[k].points@[q] < p,
            forall|k: int, q: usize| #![trigger components@[k].points@.contains(q)] 0 <= k < components@.len() ==> (components@[k].points@.contains(q) <==> (q < p && rep[q as int] == components@[k].root)),
            forall|k: int| 0 <= k < components@.len() ==> (#[trigger] components@[k]).edges@.len() == 0,
            forall|y: usize| (y < point_count && rep[y as int] == y) <==> exists|k: int|
                0 <= k < components@.len() && #[trigger] components@[k].root == y,
        decreases point_count - p,
    {
        proof {
            let rp = rep[p as int];
            assert(rep[rp as int] == rp);
            assert(slot@[rp as int] < components@.len());
        }
        let k = slot[roots[p]];
        let ghost before = components@;
        let mut comp = GraphComponent { root: 0, points: Vec::new(), edges: Vec::new() };
        std::mem::swap(&mut comp, &mut components[k]);
        comp.points.push(p);
        std::mem::swap(&mut comp, &mut components[k]);
        proof {
            let kk = k as int;
            assert(components@ == before.update(kk, components@[kk]));
            assert(components@[kk].root == rep[p as int]);
            assert forall|j: int| 0 <= j < components@.len() && j != kk implies components@[j] == before[j] by {}
            assert forall|a: int, b: int| 0 <= a < b < components@[kk].points@.len() implies components@[kk].points@[a] < components@[kk].points@[b] by {
                if b < before[kk].points@.len() {
                    assert(components@[kk].points@[a] == before[kk].points@[a]);
                } else {
                    assert(before[kk].points@.contains(before[kk].points@[a]));
                }
            }
            assert forall|c: int, q: usize| #![trigger components@[c].points@.contains(q)] 0 <= c < components@.len() implies (components@[c].points@.contains(q) <==> (q < p + 1 && rep[q as int] == components@[c].root)) by {
                if c == kk {
                    if components@[c].points@.contains(q) && q != p {
                        let t = choose|t: int| 0 <= t < components@[c].points@.len() && components@[c].points@[t] == q;
                        assert(before[c].points@[t] == q);
                        assert(before[c].points@.contains(q));
                    }
                    if q < p && rep[q as int] == components@[c].root {
                        assert(before[c].points@.contains(q));
                        let t = choose|t: int| 0 <= t < before[c].points@.len() && before[c].points@[t] == q;
                        assert(components@[c].points@[t] == q);
                    }
                    if q == p {
                        assert(components@[c].points@[before[c].points@.len() as int] == p);
                    }
                } else {
                    assert(components@[c] == before[c]);
                    if components@[c].points@.contains(q) {
                        assert(before[c].points@.contains(q));
                    }
                    if q == p && rep[q as int] == components@[c].root {
                        assert(components@[c].root == components@[kk].root);
                    }
                }
            }
            assert forall|y: usize| (y < point_count && rep[y as int] == y) <==> exists|c: int|
                0 <= c < components@.len() && #[trigger] components@[c].root == y by {
                if y < point_count && rep[y as int] == y {
                    let c = choose|c: int| 0 <= c < before.len() && #[trigger] before[c].root == y;
                    assert(components@[c].root == y);
                }
                if exists|c: int| 0 <= c < components@.len() && #[trigger] components@[c].root == y {
                    let c = choose|c: int| 0 <= c < components@.len() && #[trigger] components@[c].root == y;
                    assert(before[c].root == y);
                }
            }
        }
        p = p + 1;
    }
    proof {
        assert forall|k: int| 0 <= k < components@.len() implies is_component_of_points(#[trigger] components@[k], rep) by {
            assert forall|q: usize| components@[k].points@.contains(q) <==> (q < rep.len() && rep[q as int] == components@[k].root) by {
                assert(components@[k].points@.contains(q) <==> (q < p && rep[q as int] == components@[k].root));
            }
        }
    }
    // Edges, in input order.
    let mut e: usize = 0;
    while e < edges.len()
        invariant
            e <= edges@.len(),
            edges_in_range(point_count as nat, edges@),
            rep.len() == point_count,
            roots@ == rep,
            forall|j: int| 0 <= j < point_count ==> rep[j] < point_count,
            forall|j: int| 0 <= j < point_count ==> rep[rep[j] as int] == rep[j],
            slot@.len() == point_count,
            forall|j: int| 0 <= j < point_count && rep[j] == j ==> slot@[j] < components@.len() && components@[slot@[j] as int].root == j,
            forall|k: int, l: int| 0 <= k < l < components@.len() ==> components@[k].root < components@[l].root,
            forall|k: int| 0 <= k < components@.len() ==> is_component_of_points(#[trigger] components@[k], rep),
            forall|k: int| 0 <= k < components@.len() ==> strictly_increasing((#[trigger] components@[k]).edges@),
            forall|k: int, q: int| 0 <= k < components@.len() && 0 <= q < components@[k].edges@.len() ==> components@[k].edges@[q] < e,
            forall|k: int, q: usize| #![trigger components@[k].edges@.contains(q)] 0 <= k < components@.len() ==> (components@[k].edges@.contains(q) <==> (q < e && rep[edges@[q as int].0 as int] == components@[k].root)),
            forall|y: usize| (y < point_count && rep[y as int] == y) <==> exists|k: int|
                0 <= k < components@.len() && #[trigger] components@[k].root == y,
        decreases edges@.len() - e,
    {
        let (u, _v) = edges[e];
        let ghost ru = rep[u as int];
        proof {
            assert(edges@[e as int].0 < point_count);
            assert(rep[ru as int] == ru);
            assert(slot@[ru as int] < components@.len());
        }
        let k = slot[roots[u]];
        let ghost before = components@;
        let mut comp = GraphComponent { root: 0, points: Vec::new(), edges: Vec::new() };
        std::mem::swap(&mut comp, &mut components[k]);
        comp.edges.push(e);
        std::mem::swap(&mut comp, &mut components[k]);
        proof {
            let kk = k as int;
            assert(components@ == before.update(kk, components@[kk]));
            assert(components@[kk].root == ru);
            assert forall|j: int| 0 <= j < components@.len() && j != kk implies components@[j] == before[j] by {}
            assert(before[kk].root == ru);
            assert(components@[kk].points == before[kk].points);
            assert(is_component_of_points(before[kk], rep));
            assert(is_component_of_points(components@[kk], rep)) by {
                assert forall|q: usize| components@[kk].points@.contains(q) <==> (q < rep.len() && rep[q as int] == components@[kk].root) by {
                    assert(before[kk].points@.contains(q) <==> (q < rep.len() && rep[q as int] == before[kk].root));
                }
            }
            assert forall|c: int| 0 <= c < components@.len() implies is_component_of_points(#[trigger] components@[c], rep) by {
                if c != kk {
                    assert(components@[c] == before[c]);
                }
            }
            assert forall|a: int, b: int| 0 <= a < b < components@[kk].edges@.len() implies components@[kk].edges@[a] < components@[kk].edges@[b] by {
                if b < before[kk].edges@.len() {
                    assert(components@[kk].edges@[a] == before[kk].edges@[a]);
                } else {
                    assert(before[kk].edges@.contains(before[kk].edges@[a]));
                }
            }
            assert forall|c: int, q: usize| #![trigger components@[c].edges@.contains(q)] 0 <= c < components@.len() implies (components@[c].edges@.contains(q) <==> (q < e + 1 && rep[edges@[q as int].0 as int] == components@[c].root)) by {
                if c == kk {
                    if components@[c].edges@.contains(q) && q != e {
                        let t = choose|t: int| 0 <= t < components@[c].edges@.len() && components@[c].edges@[t] == q;
                        assert(before[c].edges@[t] == q);
                        assert(before[c].edges@.contains(q));
                    }
                    if q < e && rep[edges@[q as int].0 as int] == components@[c].root {
                        assert(before[c].edges@.contains(q));
                        let t = choose|t: int| 0 <= t < before[c].edges@.len() && before[c].edges@[t] == q;
                        assert(components@[c].edges@[t] == q);
                    }
                    if q == e {
                        assert(components@[c].edges@[before[c].edges@.len() as int] == e);
                    }
                } else {
                    assert(components@[c] == before[c]);
                    if components@[c].edges@.contains(q) {
                        assert(before[c].edges@.contains(q));
                    }
                    if q == e && rep[edges@[q as int].0 as int] == components@[c].root {
                        assert(components@[c].root == components@[kk].root);
                    }
                }
            }
            assert forall|y: usize| (y < point_count && rep[y as int] == y) <==> exists|c: int|
                0 <= c < components@.len() && #[trigger] components@[c].root == y by {
                if y < point_count && rep[y as int] == y {
                    let c = choose|c: int| 0 <= c < before.len() && #[trigger] before[c].root == y;
                    assert(components@[c].root == y);
                }
                if exists|c: int| 0 <= c < components@.len() && #[trigger] components@[c].root == y {
                    let c = choose|c: int| 0 <= c < components@.len() && #[trigger] components@[c].root == y;
                    assert(before[c].root == y);
                }
            }
        }
        e = e + 1;
    }
    proof {
        assert forall|k: int| 0 <= k < components@.len() implies is_component_of(#[trigger] components@[k], rep, edges@, components@[k].root) by {
            assert(is_component_of_points(components@[k], rep));
            assert forall|q: usize| components@[k].edges@.contains(q) <==> (q < edges@.len() && rep[edges@[q as int].0 as int] == components@[k].root) by {
                assert(components@[k].edges@.contains(q) <==> (q < e && rep[edges@[q as int].0 as int] == components@[k].root));
                if components@[k].edges@.contains(q) {
                    let t = choose|t: int| 0 <= t < components@[k].edges@.len() && components@[k].edges@[t] == q;
                }
            }
        }
    }
    components
}

/// The points of `c` are exactly the members of its root's class, in
/// increasing order.
pub open spec fn is_component_of_points(c: GraphComponent, rep: Seq<usize>) -> bool {
    &&& rep[c.root as int] == c.root
    &&& strictly_increasing(c.points@)
    &&& forall|p: usize| #[trigger] c.points@.contains(p) <==> (p < rep.len() && rep[p as int] == c.root)
}

/// Facts about a well formed disjoint set's representatives.
proof fn dsu_rep_facts(dsu: &DisjointSet)
    requires
        dsu.wf(),
    ensures
        forall|j: int| 0 <= j < dsu@.len() ==> dsu@[j] < dsu@.len(),
        forall|j: int| 0 <= j < dsu@.len() ==> dsu@[dsu@[j] as int] == dsu@[j],
{
    crate::cluster::dsu::lemma_wf_reps(dsu);
}

/// The two endpoints of every edge end up in the same class.
pub proof fn lemma_edges_within_components(n: nat, edges: Seq<(usize, usize)>, e: int)
    requires
        edges_in_range(n, edges),
        0 <= e < edges.len(),
    ensures
        joined(n, edges).0[edges[e].0 as int] == joined(n, edges).0[edges[e].1 as int],
        joined(n, edges).0.len() == n,
    decreases edges.len(),
{
    lemma_joined_len(n, edges);
    let prev = edges.drop_last();
    assert(edges_in_range(n, prev)) by {
        assert forall|f: int| 0 <= f < prev.len() implies (#[trigger] prev[f]).0 < n && prev[f].1 < n by {
            assert(prev[f] == edges[f]);
        }
    }
    lemma_joined_len(n, prev);
    if e < edges.len() - 1 {
        lemma_edges_within_components(n, prev, e);
        assert(prev[e] == edges[e]);
    }
}

/// The representative function and the ranks keep their length, and every
/// representative is a point.
pub proof fn lemma_joined_len(n: nat, edges: Seq<(usize, usize)>)
    requires
        edges_in_range(n, edges),
    ensures
        joined(n, edges).0.len() == n,
        joined(n, edges).1.len() == n,
        forall|i: int| 0 <= i < n ==> #[trigger] joined(n, edges).0[i] < n,
    decreases edges.len(),
{
    if edges.len() > 0 {
        let prev = edges.drop_last();
        assert(edges_in_range(n, prev)) by {
            assert forall|f: int| 0 <= f < prev.len() implies (#[trigger] prev[f]).0 < n && prev[f].1 < n by {
                assert(prev[f] == edges[f]);
            }
        }
        lemma_joined_len(n, prev);
        let (u, v) = edges.last();
        assert(edges[edges.len() - 1] == edges.last());
        assert(joined(n, prev).0[u as int] < n);
        assert(joined(n, prev).0[v as int] < n);
    }
}

} // verus!
