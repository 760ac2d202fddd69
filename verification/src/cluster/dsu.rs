//! Union–find over point indices (union by rank, path compression), and the
//! Kruskal bookkeeping built on it.
//!
//! The abstract model of a `DisjointSet` is its representative function: a
//! sequence `rep` with `rep[i]` the root of the class that holds `i`.
use vstd::prelude::*;

use vstd::arithmetic::power2::{pow2, lemma_pow2_unfold, lemma_pow2_strictly_increases, lemma2_to64};
use vstd::set_lib::{set_int_range, lemma_int_range, lemma_len_subset, lemma_set_disjoint_lens};

verus! {

// ── Spec model ──────────────────────────────────────────────────────────────

/// The members of the class whose representative is `r`.
pub open spec fn class_of(rep: Seq<usize>, r: usize) -> Set<int> {
    Set::new(|j: int| 0 <= j < rep.len() && rep[j] == r)
}

/// The root that `union(a, b)` keeps: the root of higher rank, the left one
/// on a tie, and the common root when both are already joined.
pub open spec fn union_root(rep: Seq<usize>, ranks: Seq<u8>, a: int, b: int) -> usize {
    let ra = rep[a];
    let rb = rep[b];
    if ra == rb {
        ra
    } else if ranks[ra as int] < ranks[rb as int] {
        rb
    } else {
        ra
    }
}

/// The representative function after the classes of `ra` and `rb` are merged
/// under the root `r`.
pub open spec fn merged(rep: Seq<usize>, ra: usize, rb: usize, r: usize) -> Seq<usize> {
    Seq::new(rep.len(), |j: int| if rep[j] == ra || rep[j] == rb { r } else { rep[j] })
}

/// The ranks after `union(a, b)`: a link of two roots of equal rank raises the
/// rank of the kept root by one.
pub open spec fn union_ranks(rep: Seq<usize>, ranks: Seq<u8>, a: int, b: int) -> Seq<u8> {
    let ra = rep[a];
    let rb = rep[b];
    let r = union_root(rep, ranks, a, b);
    if ra != rb && ranks[ra as int] == ranks[rb as int] {
        ranks.update(r as int, (ranks[r as int] + 1) as u8)
    } else {
        ranks
    }
}

/// Every class is a finite set of at most `rep.len()` indices.
pub proof fn lemma_class_bounded(rep: Seq<usize>, r: usize)
    ensures
        class_of(rep, r).finite(),
        class_of(rep, r).len() <= rep.len(),
{
    lemma_int_range(0, rep.len() as int);
    lemma_len_subset(class_of(rep, r), set_int_range(0, rep.len() as int));
}

// ── Disjoint sets ───────────────────────────────────────────────────────────

/// Disjoint sets over `0..len` with union by rank and path compression.
pub struct DisjointSet {
    parent: Vec<usize>,
    rank: Vec<u8>,
    rep: Ghost<Seq<usize>>,
}

impl View for DisjointSet {
    type V = Seq<usize>;

    closed spec fn view(&self) -> Seq<usize> {
        self.rep@
    }
}

impl DisjointSet {
    /// The rank of each element (meaningful for roots).
    pub closed spec fn ranks(&self) -> Seq<u8> {
        self.rank@
    }

    /// The forest is well formed: parents point into range, every element
    /// reaches its representative through parents of strictly higher rank,
    /// and each root of rank `k` has at least `2^k` members.
    pub closed spec fn wf(&self) -> bool {
        let n = self.parent@.len();
        let parent = self.parent@;
        let rank = self.rank@;
        let rep = self.rep@;
        &&& rank.len() == n
        &&& rep.len() == n
        &&& forall|i: int| 0 <= i < n ==> #[trigger] parent[i] < n
        &&& forall|i: int| 0 <= i < n ==> #[trigger] rep[i] < n
        &&& forall|i: int| 0 <= i < n ==> rep[#[trigger] rep[i] as int] == rep[i]
        &&& forall|i: int| 0 <= i < n ==> parent[#[trigger] rep[i] as int] == rep[i]
        &&& forall|i: int|
            0 <= i < n && #[trigger] parent[i] != i ==> rep[parent[i] as int] == rep[i]
                && rank[parent[i] as int] > rank[i]
        &&& forall|i: int| 0 <= i < n && #[trigger] parent[i] == i ==> rep[i] == i
        &&& forall|i: int| 0 <= i < n && #[trigger] rep[i] != i ==> rank[rep[i] as int] > rank[i]
        &&& forall|i: int|
            0 <= i < n && #[trigger] parent[i] == i ==> pow2(rank[i] as nat) <= class_of(
                rep,
                i as usize,
            ).len()
    }

    /// `len` singleton classes.
    pub fn new(len: usize) -> (s: Self)
        ensures
            s.wf(),
            s@ == Seq::new(len as nat, |i: int| i as usize),
            s.ranks() == Seq::new(len as nat, |i: int| 0u8),
    {
        let mut parent: Vec<usize> = Vec::new();
        let mut rank: Vec<u8> = Vec::new();
        let mut i: usize = 0;
        while i < len
            invariant
                i <= len,
                parent@.len() == i,
                rank@.len() == i,
                forall|j: int| 0 <= j < i ==> parent@[j] == j,
                forall|j: int| 0 <= j < i ==> rank@[j] == 0,
            decreases len - i,
        {
            parent.push(i);
            rank.push(0);
            i = i + 1;
        }
        let ghost rep = Seq::new(len as nat, |i: int| i as usize);
        let s = DisjointSet { parent, rank, rep: Ghost(rep) };
        proof {
            assert forall|i: int| 0 <= i < len && #[trigger] s.parent@[i] == i implies pow2(
                s.rank@[i] as nat,
            ) <= class_of(rep, i as usize).len() by {
                assert(class_of(rep, i as usize) =~= set![i]);
                lemma2_to64();
            }
        }
        assert(s.rank@ =~= Seq::new(len as nat, |i: int| 0u8));
        s
    }

    /// Number of elements.
    pub fn len(&self) -> (n: usize)
        requires
            self.wf(),
        ensures
            n == self@.len(),
    {
        self.parent.len()
    }

    /// The representative of `value`'s class, compressing the path on the way.
    pub fn find(&mut self, value: usize) -> (r: usize)
        requires
            old(self).wf(),
            value < old(self)@.len(),
        ensures
            final(self).wf(),
            final(self)@ == old(self)@,
            final(self).ranks() == old(self).ranks(),
            r == old(self)@[value as int],
        decreases 256 - old(self).ranks()[value as int],
    {
        let p = self.parent[value];
        if p != value {
            let root = self.find(p);
            proof {
                assert(self.rep@[value as int] != value) by {
                    if self.rep@[value as int] == value {
                        assert(self.parent@[self.rep@[value as int] as int] == self.rep@[value as int]);
                    }
                }
            }
            self.parent.set(value, root);
            proof {
                let parent = self.parent@;
                let rep = self.rep@;
                let n = parent.len();
                assert forall|i: int| 0 <= i < n implies parent[#[trigger] rep[i] as int] == rep[i] by {
                    if rep[i] == value {
                        assert(rep[rep[i] as int] == rep[i]);
                    }
                }
                assert forall|i: int|
                    0 <= i < n && #[trigger] parent[i] == i implies pow2(
                        self.rank@[i] as nat,
                    ) <= class_of(rep, i as usize).len() by {
                    assert(i != value);
                }
            }
        }
        self.parent[value]
    }

    /// Join the classes of `lhs` and `rhs`; returns the root kept.
    pub fn union(&mut self, lhs: usize, rhs: usize) -> (r: usize)
        requires
            old(self).wf(),
            lhs < old(self)@.len(),
            rhs < old(self)@.len(),
        ensures
            final(self).wf(),
            r == union_root(old(self)@, old(self).ranks(), lhs as int, rhs as int),
            final(self)@ == merged(old(self)@, old(self)@[lhs as int], old(self)@[rhs as int], r),
            final(self).ranks() == union_ranks(old(self)@, old(self).ranks(), lhs as int, rhs as int),
    {
        let ghost rep0 = self.rep@;
        let mut lhs_root = self.find(lhs);
        let mut rhs_root = self.find(rhs);
        if lhs_root == rhs_root {
            assert(merged(rep0, lhs_root, rhs_root, lhs_root) =~= rep0);
            return lhs_root;
        }
        if self.rank[lhs_root] < self.rank[rhs_root] {
            std::mem::swap(&mut lhs_root, &mut rhs_root);
        }
        let n_exec = self.parent.len();
        let ghost ra = lhs_root;
        let ghost rb = rhs_root;
        let ghost rank0 = self.rank@;
        let ghost parent0 = self.parent@;
        let ghost n = parent0.len();
        proof {
            lemma_class_bounded(rep0, ra);
            lemma_class_bounded(rep0, rb);
            assert(class_of(rep0, ra).disjoint(class_of(rep0, rb)));
            lemma_set_disjoint_lens(class_of(rep0, ra), class_of(rep0, rb));
            let both = class_of(rep0, ra) + class_of(rep0, rb);
            lemma_int_range(0, n as int);
            lemma_len_subset(both, set_int_range(0, n as int));
            assert(parent0[ra as int] == ra);
            assert(parent0[rb as int] == rb);
            if rank0[ra as int] == rank0[rb as int] {
                let k = rank0[ra as int] as nat;
                lemma_pow2_unfold(k + 1);
                assert(pow2(k + 1) <= n);
                assert(n == n_exec);
                if k + 1 >= 64 {
                    lemma2_to64();
                    if k + 1 > 64 {
                        lemma_pow2_strictly_increases(64, k + 1);
                    }
                }
                assert(k + 1 < 64);
            }
        }
        self.parent.set(rhs_root, lhs_root);
        if self.rank[lhs_root] == self.rank[rhs_root] {
            let bumped = self.rank[lhs_root] + 1;
            self.rank.set(lhs_root, bumped);
        }
        proof {
            let rep1 = merged(rep0, ra, rb, ra);
            self.rep = Ghost(rep1);
            let parent = self.parent@;
            let rank = self.rank@;
            assert forall|i: int| 0 <= i < n implies rep1[#[trigger] rep1[i] as int] == rep1[i] by {
                let _a = rep0[i];
                let _b = rep0[rep0[i] as int];
            }
            assert forall|i: int| 0 <= i < n implies parent[#[trigger] rep1[i] as int] == rep1[i] by {
                let _a = rep0[i];
                let _b = parent0[rep0[i] as int];
            }
            assert forall|i: int|
                0 <= i < n && #[trigger] parent[i] != i implies rep1[parent[i] as int] == rep1[i]
                && rank[parent[i] as int] > rank[i] by {
                if i != rb {
                    assert(parent0[i] != i);
                    assert(rep0[parent0[i] as int] == rep0[i]);
                    if i == ra {
                        assert(parent0[rep0[ra as int] as int] == rep0[ra as int]);
                    }
                }
            }
            assert forall|i: int| 0 <= i < n && #[trigger] parent[i] == i implies rep1[i] == i by {
                assert(parent0[i] == i);
            }
            assert forall|i: int| 0 <= i < n && #[trigger] rep1[i] != i implies rank[rep1[i] as int]
                > rank[i] by {
                let q = rep0[i];
                if i == ra {
                    assert(parent0[rep0[ra as int] as int] == rep0[ra as int]);
                }
                if q == rb && i != rb {
                    assert(rank0[rb as int] > rank0[i]);
                }
                if q != ra && q != rb {
                    assert(rep0[i] != i);
                }
            }
            assert forall|i: int|
                0 <= i < n && #[trigger] parent[i] == i implies pow2(rank[i] as nat) <= class_of(
                    rep1,
                    i as usize,
                ).len() by {
                assert(parent0[i] == i);
                if i == ra {
                    assert(class_of(rep1, ra) =~= class_of(rep0, ra) + class_of(rep0, rb));
                    if rank0[ra as int] == rank0[rb as int] {
                        lemma_pow2_unfold(rank0[ra as int] as nat + 1);
                    } else {
                        lemma_class_bounded(rep0, rb);
                        lemma_set_disjoint_lens(class_of(rep0, ra), class_of(rep0, rb));
                    }
                } else {
                    assert(class_of(rep1, i as usize) =~= class_of(rep0, i as usize));
                }
            }
        }
        assert(self.rank@ =~= union_ranks(rep0, rank0, lhs as int, rhs as int));
        lhs_root
    }
}

/// In a well formed forest every representative is in range and is its own
/// representative.
pub proof fn lemma_wf_reps(dsu: &DisjointSet)
    requires
        dsu.wf(),
    ensures
        forall|j: int| 0 <= j < dsu@.len() ==> dsu@[j] < dsu@.len(),
        forall|j: int| 0 <= j < dsu@.len() ==> dsu@[dsu@[j] as int] == dsu@[j],
{
}

/// After `union(a, b)`, `a` and `b` have the same representative, which is
/// the root that `union` returned.
pub proof fn lemma_union_joins(rep: Seq<usize>, ranks: Seq<u8>, a: int, b: int)
    requires
        0 <= a < rep.len(),
        0 <= b < rep.len(),
    ensures
        ({
            let r = union_root(rep, ranks, a, b);
            let after = merged(rep, rep[a], rep[b], r);
            after[a] == r && after[b] == r
        }),
{
}

/// `union(a, b)` leaves every element outside the two classes with its
/// representative, and two elements that were joined stay joined.
pub proof fn lemma_union_keeps_classes(rep: Seq<usize>, ranks: Seq<u8>, a: int, b: int, i: int, j: int)
    requires
        0 <= a < rep.len(),
        0 <= b < rep.len(),
        0 <= i < rep.len(),
        0 <= j < rep.len(),
    ensures
        ({
            let r = union_root(rep, ranks, a, b);
            let after = merged(rep, rep[a], rep[b], r);
            &&& (rep[i] != rep[a] && rep[i] != rep[b] ==> after[i] == rep[i])
            &&& (rep[i] == rep[j] ==> after[i] == after[j])
        }),
{
}

// ── Kruskal bookkeeping ─────────────────────────────────────────────────────

/// Disjoint sets that also record, for each root, the size of its class and
/// the dendrogram node that stands for it.
pub struct KruskalState {
    dsu: DisjointSet,
    set_sizes: Vec<usize>,
    set_nodes: Vec<usize>,
}

impl View for KruskalState {
    type V = Seq<usize>;

    closed spec fn view(&self) -> Seq<usize> {
        self.dsu@
    }
}

impl KruskalState {
    /// The dendrogram node recorded for each root.
    pub closed spec fn nodes(&self) -> Seq<usize> {
        self.set_nodes@
    }

    /// The ranks of the underlying disjoint sets.
    pub closed spec fn ranks(&self) -> Seq<u8> {
        self.dsu.ranks()
    }

    /// Well formed: the disjoint sets are, and each root records the size of
    /// its class.
    pub closed spec fn wf(&self) -> bool {
        let n = self.dsu@.len();
        &&& self.dsu.wf()
        &&& self.set_sizes@.len() == n
        &&& self.set_nodes@.len() == n
        &&& forall|r: int|
            0 <= r < n && #[trigger] self.dsu@[r] == r ==> self.set_sizes@[r] == class_of(
                self.dsu@,
                r as usize,
            ).len()
    }

    /// One singleton class per leaf; leaf `i` is node `i`.
    pub fn new(leaves: usize) -> (s: Self)
        ensures
            s.wf(),
            s@ == Seq::new(leaves as nat, |i: int| i as usize),
            s.nodes() == Seq::new(leaves as nat, |i: int| i as usize),
            s.ranks() == Seq::new(leaves as nat, |i: int| 0u8),
    {
        let dsu = DisjointSet::new(leaves);
        let mut set_sizes: Vec<usize> = Vec::new();
        let mut set_nodes: Vec<usize> = Vec::new();
        let mut i: usize = 0;
        while i < leaves
            invariant
                i <= leaves,
                set_sizes@.len() == i,
                set_nodes@.len() == i,
                forall|j: int| 0 <= j < i ==> set_sizes@[j] == 1,
                forall|j: int| 0 <= j < i ==> set_nodes@[j] == j,
            decreases leaves - i,
        {
            set_sizes.push(1);
            set_nodes.push(i);
            i = i + 1;
        }
        let s = KruskalState { dsu, set_sizes, set_nodes };
        proof {
            assert forall|r: int| 0 <= r < leaves && #[trigger] s.dsu@[r] == r implies s.set_sizes@[r]
                == class_of(s.dsu@, r as usize).len() by {
                assert(class_of(s.dsu@, r as usize) =~= set![r]);
            }
        }
        assert(s.set_nodes@ =~= Seq::new(leaves as nat, |i: int| i as usize));
        s
    }

    /// The representative of `value`'s class.
    pub fn find(&mut self, value: usize) -> (r: usize)
        requires
            old(self).wf(),
            value < old(self)@.len(),
        ensures
            final(self).wf(),
            final(self)@ == old(self)@,
            final(self).nodes() == old(self).nodes(),
            final(self).ranks() == old(self).ranks(),
            r == old(self)@[value as int],
    {
        self.dsu.find(value)
    }

    /// The dendrogram node that stands for the class of `root`.
    pub fn node_for_root(&self, root: usize) -> (node: usize)
        requires
            self.wf(),
            root < self@.len(),
        ensures
            node == self.nodes()[root as int],
    {
        self.set_nodes[root]
    }

    /// The number of elements in the class of `root`.
    pub fn size_for_root(&self, root: usize) -> (size: usize)
        requires
            self.wf(),
            root < self@.len(),
            self@[root as int] == root,
        ensures
            size == class_of(self@, root).len(),
    {
        self.set_sizes[root]
    }

    /// Join the classes of two distinct roots and record `node` for the
    /// joined class; returns the root kept.
    pub fn merge_with_node(&mut self, lhs_root: usize, rhs_root: usize, node: usize) -> (r: usize)
        requires
            old(self).wf(),
            lhs_root < old(self)@.len(),
            rhs_root < old(self)@.len(),
            old(self)@[lhs_root as int] == lhs_root,
            old(self)@[rhs_root as int] == rhs_root,
            lhs_root != rhs_root,
        ensures
            final(self).wf(),
            r == union_root(old(self)@, old(self).ranks(), lhs_root as int, rhs_root as int),
            final(self)@ == merged(old(self)@, lhs_root, rhs_root, r),
            final(self).nodes() == old(self).nodes().update(r as int, node),
            final(self).ranks() == union_ranks(old(self)@, old(self).ranks(), lhs_root as int, rhs_root as int),
            class_of(final(self)@, r).len() == class_of(old(self)@, lhs_root).len() + class_of(
                old(self)@,
                rhs_root,
            ).len(),
    {
        let ghost rep0 = self.dsu@;
        let n_exec = self.set_sizes.len();
        let lhs_size = self.set_sizes[lhs_root];
        let rhs_size = self.set_sizes[rhs_root];
        proof {
            lemma_class_bounded(rep0, lhs_root);
            lemma_class_bounded(rep0, rhs_root);
            assert(class_of(rep0, lhs_root).disjoint(class_of(rep0, rhs_root)));
            lemma_set_disjoint_lens(class_of(rep0, lhs_root), class_of(rep0, rhs_root));
            lemma_int_range(0, rep0.len() as int);
            lemma_len_subset(
                class_of(rep0, lhs_root) + class_of(rep0, rhs_root),
                set_int_range(0, rep0.len() as int),
            );
            assert(lhs_size + rhs_size <= n_exec);
        }
        let merged_root = self.dsu.union(lhs_root, rhs_root);
        proof {
            let rep1 = self.dsu@;
            assert(class_of(rep1, merged_root) =~= class_of(rep0, lhs_root) + class_of(rep0, rhs_root));
            assert forall|r: int|
                0 <= r < rep1.len() && #[trigger] rep1[r] == r && r != merged_root implies class_of(
                    rep1,
                    r as usize,
                ) == class_of(rep0, r as usize) by {
                assert(class_of(rep1, r as usize) =~= class_of(rep0, r as usize));
            }
        }
        self.set_sizes.set(merged_root, lhs_size + rhs_size);
        self.set_nodes.set(merged_root, node);
        merged_root
    }
}

/// In a well formed Kruskal state every representative is in range and is
/// its own representative.
pub proof fn lemma_kruskal_reps(k: &KruskalState)
    requires
        k.wf(),
    ensures
        forall|j: int| 0 <= j < k@.len() ==> k@[j] < k@.len(),
        forall|j: int| 0 <= j < k@.len() ==> k@[k@[j] as int] == k@[j],
{
    lemma_wf_reps(&k.dsu);
}

} // verus!
