//! The integer side of the `cluster` command: argument checks, the sparse
//! projection layout, grouping labels into clusters, and point labels.
use vstd::prelude::*;

use crate::cluster::graph::{spec_splitmix64, splitmix64};
use crate::cluster::sorted::strictly_increasing;
use crate::embed::EMBED_DIM;
use crate::text::{append_str, append_u64, decimal, owned};

verus! {

// ── Arguments ───────────────────────────────────────────────────────────────

/// A rejected argument of the `cluster` command.
#[derive(Debug, Clone, Copy, PartialEq, Eq)]
pub enum ClusterArgError {
    MaxPoints,
    TopClusters,
    MinClusterSize,
    ProjectionDimsTooSmall,
    ProjectionDimsTooLarge,
    NotEnoughPoints { points: usize, min_cluster_size: usize },
}

impl ClusterArgError {
    /// The message shown to the user.
    pub fn message(&self) -> (s: String)
        ensures
            self matches ClusterArgError::MaxPoints ==> s@ == "--max-points must be greater than 0"@,
            self matches ClusterArgError::TopClusters ==> s@ == "--top-clusters must be greater than 0"@,
            self matches ClusterArgError::MinClusterSize ==> s@ == "--min-cluster-size must be at least 2"@,
            self matches ClusterArgError::ProjectionDimsTooSmall ==> s@ == "--projection-dims must be at least 2"@,
            self matches ClusterArgError::ProjectionDimsTooLarge ==> s@
                == "--projection-dims must be less than or equal to "@ + decimal(EMBED_DIM as nat),
            self matches ClusterArgError::NotEnoughPoints { points, min_cluster_size } ==> s@
                == "not enough points ("@ + decimal(points as nat) + ") for --min-cluster-size "@ + decimal(
                min_cluster_size as nat,
            ),
    {
        match self {
            ClusterArgError::MaxPoints => owned("--max-points must be greater than 0"),
            ClusterArgError::TopClusters => owned("--top-clusters must be greater than 0"),
            ClusterArgError::MinClusterSize => owned("--min-cluster-size must be at least 2"),
            ClusterArgError::ProjectionDimsTooSmall => owned("--projection-dims must be at least 2"),
            ClusterArgError::ProjectionDimsTooLarge => {
                let mut s = owned("--projection-dims must be less than or equal to ");
                append_u64(&mut s, EMBED_DIM as u64);
                s
            },
            ClusterArgError::NotEnoughPoints { points, min_cluster_size } => {
                let mut s = owned("not enough points (");
                append_u64(&mut s, *points as u64);
                append_str(&mut s, ") for --min-cluster-size ");
                append_u64(&mut s, *min_cluster_size as u64);
                s
            },
        }
    }
}

/// The first rule the arguments break, in the order they are checked.
pub open spec fn spec_cluster_arg_error(
    max_points: usize,
    top_clusters: usize,
    min_cluster_size: usize,
    projection_dims: usize,
) -> Option<ClusterArgError> {
    if max_points == 0 {
        Some(ClusterArgError::MaxPoints)
    } else if top_clusters == 0 {
        Some(ClusterArgError::TopClusters)
    } else if min_cluster_size < 2 {
        Some(ClusterArgError::MinClusterSize)
    } else if projection_dims < 2 {
        Some(ClusterArgError::ProjectionDimsTooSmall)
    } else if projection_dims > EMBED_DIM {
        Some(ClusterArgError::ProjectionDimsTooLarge)
    } else {
        None
    }
}

/// Check the arguments of the `cluster` command.
pub fn validate_cluster_args(
    max_points: usize,
    top_clusters: usize,
    min_cluster_size: usize,
    projection_dims: usize,
) -> (r: Result<(), ClusterArgError>)
    ensures
        r is Ok <==> spec_cluster_arg_error(max_points, top_clusters, min_cluster_size, projection_dims) is None,
        r matches Err(e) ==> Some(e) == spec_cluster_arg_error(
            max_points,
            top_clusters,
            min_cluster_size,
            projection_dims,
        ),
{
    if max_points == 0 {
        return Err(ClusterArgError::MaxPoints);
    }
    if top_clusters == 0 {
        return Err(ClusterArgError::TopClusters);
    }
    if min_cluster_size < 2 {
        return Err(ClusterArgError::MinClusterSize);
    }
    if projection_dims < 2 {
        return Err(ClusterArgError::ProjectionDimsTooSmall);
    }
    if projection_dims > EMBED_DIM {
        return Err(ClusterArgError::ProjectionDimsTooLarge);
    }
    Ok(())
}

/// Check that enough points were fetched to form one cluster.
pub fn check_point_count(points: usize, min_cluster_size: usize) -> (r: Result<(), ClusterArgError>)
    ensures
        r is Ok <==> points >= min_cluster_size,
        r is Err ==> r == Err::<(), ClusterArgError>(ClusterArgError::NotEnoughPoints { points, min_cluster_size }),
{
    if points >= min_cluster_size {
        Ok(())
    } else {
        Err(ClusterArgError::NotEnoughPoints { points, min_cluster_size })
    }
}

// ── Sparse random projection layout ─────────────────────────────────────────

/// One non-zero entry of the projection matrix: the target dimension and
/// whether the weight is negative.
#[derive(Debug, Clone, Copy, PartialEq, Eq)]
pub struct ProjectionSlot {
    pub target_index: usize,
    pub negative: bool,
}

/// The generator state after slot `k` of source dimension `source`.
pub open spec fn projection_state(seed: u64, source: usize, k: nat) -> u64
    decreases k,
{
    let start = spec_splitmix64(seed ^ (source as u64));
    if k == 0 {
        spec_splitmix64(start ^ 0u64)
    } else {
        spec_splitmix64(projection_state(seed, source, (k - 1) as nat) ^ (k as u64))
    }
}

/// The entry for slot `k` of source dimension `source`.
pub open spec fn projection_slot(seed: u64, source: usize, k: nat, target_dims: usize) -> ProjectionSlot {
    let st = projection_state(seed, source, k);
    ProjectionSlot {
        target_index: ((st as usize) as int % target_dims as int) as usize,
        negative: st & 1u64 != 0,
    }
}

/// The layout of a sparse random projection: for each source dimension,
/// `nnz` entries drawn from a SplitMix64 stream seeded by the seed and the
/// source index. The weight of an entry is `±1/sqrt(nnz)` with the sign given
/// by `negative`.
pub fn projection_layout(source_dims: usize, target_dims: usize, nnz: usize, seed: u64) -> (r: Vec<
    Vec<ProjectionSlot>,
>)
    requires
        target_dims > 0,
    ensures
        r@.len() == source_dims,
        forall|s: int| 0 <= s < source_dims ==> (#[trigger] r@[s])@.len() == nnz,
        forall|s: int, k: int|
            0 <= s < source_dims && 0 <= k < nnz ==> #[trigger] r@[s]@[k] == projection_slot(
                seed,
                s as usize,
                k as nat,
                target_dims,
            ),
{
    let mut mapping: Vec<Vec<ProjectionSlot>> = Vec::new();
    let mut source: usize = 0;
    while source < source_dims
        invariant
            source <= source_dims,
            target_dims > 0,
            mapping@.len() == source,
            forall|s: int| 0 <= s < source ==> (#[trigger] mapping@[s])@.len() == nnz,
            forall|s: int, k: int|
                0 <= s < source && 0 <= k < nnz ==> #[trigger] mapping@[s]@[k] == projection_slot(
                    seed,
                    s as usize,
                    k as nat,
                    target_dims,
                ),
        decreases source_dims - source,
    {
        let mut entries: Vec<ProjectionSlot> = Vec::new();
        let mut state = splitmix64(seed ^ (source as u64));
        let mut slot: usize = 0;
        while slot < nnz
            invariant
                slot <= nnz,
                target_dims > 0,
                entries@.len() == slot,
                slot == 0 ==> state == spec_splitmix64(seed ^ (source as u64)),
                slot > 0 ==> state == projection_state(seed, source, (slot - 1) as nat),
                forall|k: int| 0 <= k < slot ==> #[trigger] entries@[k] == projection_slot(
                    seed,
                    source,
                    k as nat,
                    target_dims,
                ),
            decreases nnz - slot,
        {
            state = splitmix64(state ^ (slot as u64));
            let target_index = (#[verifier::truncate] (state as usize)) % target_dims;
            let negative = state & 1 != 0;
            entries.push(ProjectionSlot { target_index, negative });
            slot = slot + 1;
        }
        mapping.push(entries);
        source = source + 1;
    }
    mapping
}

// ── Grouping labels ─────────────────────────────────────────────────────────

/// The points that carry one cluster label, in increasing order.
pub struct LabelGroup {
    pub label: i32,
    pub members: Vec<usize>,
}

/// Labels grouped by cluster, plus the number of noise points (label -1).
pub struct LabelGroups {
    pub noise: usize,
    pub groups: Vec<LabelGroup>,
}

/// The number of -1 labels.
pub open spec fn noise_count(labels: Seq<i32>) -> nat
    decreases labels.len(),
{
    if labels.len() == 0 {
        0
    } else {
        noise_count(labels.drop_last()) + if labels.last() == -1 { 1nat } else { 0nat }
    }
}

/// `g` groups `labels`: groups in increasing label order, each with exactly
/// the indices that carry its label, and every label but -1 has a group.
pub open spec fn groups_labels(g: Seq<LabelGroup>, labels: Seq<i32>) -> bool {
    &&& forall|a: int, b: int| 0 <= a < b < g.len() ==> g[a].label < g[b].label
    &&& forall|a: int| 0 <= a < g.len() ==> (#[trigger] g[a]).label != -1 && strictly_increasing(g[a].members@)
    &&& forall|a: int, x: usize|
        #![trigger g[a].members@.contains(x)]
        0 <= a < g.len() ==> (g[a].members@.contains(x) <==> (x < labels.len() && labels[x as int] == g[a].label))
    &&& forall|x: int| 0 <= x < labels.len() && labels[x] != -1 ==> exists|a: int|
        0 <= a < g.len() && #[trigger] g[a].label == labels[x]
}

/// Group point indices by cluster label and count the noise points.
pub fn group_labels(labels: &Vec<i32>) -> (r: LabelGroups)
    ensures
        r.noise == noise_count(labels@),
        groups_labels(r.groups@, labels@),
{
    let mut noise: usize = 0;
    let mut groups: Vec<LabelGroup> = Vec::new();
    let mut index: usize = 0;
    while index < labels.len()
        invariant
            index <= labels@.len(),
            noise == noise_count(labels@.take(index as int)),
            noise <= index,
            groups_labels(groups@, labels@.take(index as int)),
        decreases labels@.len() - index,
    {
        let label = labels[index];
        let ghost pre = labels@.take(index as int);
        let ghost post = labels@.take(index + 1);
        proof {
            assert(post.drop_last() =~= pre);
            assert(post.last() == label);
            assert(post =~= pre.push(label));
        }
        if label == -1 {
            noise = noise + 1;
            proof {
                assert forall|a: int, x: usize|
                    #![trigger groups@[a].members@.contains(x)]
                    0 <= a < groups@.len() implies (groups@[a].members@.contains(x) <==> (x < post.len() && post[x as int] == groups@[a].label)) by {
                    if x < pre.len() {
                        assert(post[x as int] == pre[x as int]);
                    }
                }
                assert forall|x: int| 0 <= x < post.len() && post[x] != -1 implies exists|a: int|
                    0 <= a < groups@.len() && #[trigger] groups@[a].label == post[x] by {
                    assert(post[x] == pre[x]);
                }
            }
        } else {
            // Find the group of `label`, or where it goes.
            let mut g: usize = 0;
            while g < groups.len() && groups[g].label < label
                invariant
                    g <= groups@.len(),
                    forall|a: int| 0 <= a < g ==> groups@[a].label < label,
                decreases groups@.len() - g,
            {
                g = g + 1;
            }
            let ghost before = groups@;
            if g < groups.len() && groups[g].label == label {
                let mut group = LabelGroup { label: 0, members: Vec::new() };
                std::mem::swap(&mut group, &mut groups[g]);
                group.members.push(index);
                std::mem::swap(&mut group, &mut groups[g]);
                proof {
                    let gg = g as int;
                    assert(groups@ == before.update(gg, groups@[gg]));
                    assert forall|a: int| 0 <= a < groups@.len() implies (#[trigger] groups@[a]).label != -1 && strictly_increasing(groups@[a].members@) by {
                        if a == gg {
                            assert forall|i: int, j: int| 0 <= i < j < groups@[a].members@.len() implies groups@[a].members@[i] < groups@[a].members@[j] by {
                                if j < before[a].members@.len() {
                                    assert(groups@[a].members@[i] == before[a].members@[i]);
                                    assert(groups@[a].members@[j] == before[a].members@[j]);
                                } else {
                                    assert(groups@[a].members@[i] == before[a].members@[i]);
                                    assert(before[a].members@.contains(before[a].members@[i]));
                                }
                            }
                        }
                    }
                    lemma_groups_add_member(before, groups@, gg, pre, post, index);
                }
            } else {
                let mut members: Vec<usize> = Vec::new();
                members.push(index);
                assert(members@ =~= seq![index]);
                groups.insert(g, LabelGroup { label, members });
                proof {
                    lemma_groups_new_group(before, groups@, g as int, pre, post, index);
                }
            }
        }
        index = index + 1;
    }
    proof {
        assert(labels@.take(index as int) =~= labels@);
    }
    LabelGroups { noise, groups }
}

/// Adding index `x` (label `post[x]`) to an existing group keeps the grouping.
proof fn lemma_groups_add_member(
    before: Seq<LabelGroup>,
    after: Seq<LabelGroup>,
    g: int,
    pre: Seq<i32>,
    post: Seq<i32>,
    x: usize,
)
    requires
        groups_labels(before, pre),
        0 <= g < before.len(),
        after.len() == before.len(),
        forall|a: int| 0 <= a < after.len() && a != g ==> after[a] == before[a],
        after[g].label == before[g].label,
        after[g].members@ == before[g].members@.push(x),
        forall|a: int| 0 <= a < after.len() ==> (#[trigger] after[a]).label != -1 && strictly_increasing(after[a].members@),
        x == pre.len(),
        post == pre.push(before[g].label),
    ensures
        groups_labels(after, post),
{
    assert forall|a: int, b: int| 0 <= a < b < after.len() implies after[a].label < after[b].label by {
        assert(before[a].label < before[b].label);
    }
    assert forall|a: int, y: usize|
        #![trigger after[a].members@.contains(y)]
        0 <= a < after.len() implies (after[a].members@.contains(y) <==> (y < post.len() && post[y as int] == after[a].label)) by {
        if y < pre.len() {
            assert(post[y as int] == pre[y as int]);
        }
        if a == g {
            if after[a].members@.contains(y) && y != x {
                let t = choose|t: int| 0 <= t < after[a].members@.len() && after[a].members@[t] == y;
                assert(before[a].members@[t] == y);
                assert(before[a].members@.contains(y));
            }
            if y < pre.len() && pre[y as int] == before[a].label {
                assert(before[a].members@.contains(y));
                let t = choose|t: int| 0 <= t < before[a].members@.len() && before[a].members@[t] == y;
                assert(after[a].members@[t] == y);
            }
            if y == x {
                assert(after[a].members@[before[a].members@.len() as int] == x);
            }
        } else {
            assert(after[a] == before[a]);
            if after[a].members@.contains(y) {
                assert(before[a].members@.contains(y));
            }
            if y == x && post[y as int] == after[a].label {
                assert(before[g].label == before[a].label);
                if a < g {
                    assert(before[a].label < before[g].label);
                } else {
                    assert(before[g].label < before[a].label);
                }
            }
        }
    }
    assert forall|y: int| 0 <= y < post.len() && post[y] != -1 implies exists|a: int|
        0 <= a < after.len() && #[trigger] after[a].label == post[y] by {
        if y < pre.len() {
            assert(post[y] == pre[y]);
            let a = choose|a: int| 0 <= a < before.len() && #[trigger] before[a].label == pre[y];
            assert(after[a].label == post[y]);
        } else {
            assert(after[g].label == post[y]);
        }
    }
}

/// Inserting a new group for index `x` at the place of its label keeps the
/// grouping.
proof fn lemma_groups_new_group(
    before: Seq<LabelGroup>,
    after: Seq<LabelGroup>,
    g: int,
    pre: Seq<i32>,
    post: Seq<i32>,
    x: usize,
)
    requires
        groups_labels(before, pre),
        0 <= g <= before.len(),
        forall|a: int| 0 <= a < g ==> before[a].label < after[g].label,
        g < before.len() ==> before[g].label != after[g].label,
        g < before.len() ==> before[g].label >= after[g].label,
        after == before.insert(g, after[g]),
        after[g].label != -1,
        after[g].members@ == seq![x],
        x == pre.len(),
        post == pre.push(after[g].label),
    ensures
        groups_labels(after, post),
{
    let l = after[g].label;
    assert forall|a: int, b: int| 0 <= a < b < after.len() implies after[a].label < after[b].label by {
        if b < g {
            assert(before[a].label < before[b].label);
        } else if b == g {
        } else if a > g {
            assert(before[a - 1].label < before[b - 1].label);
        } else if a == g {
            if b - 1 > g {
                assert(before[g].label < before[b - 1].label);
            }
        } else {
            assert(before[a].label < before[b - 1].label);
        }
    }
    assert forall|a: int| 0 <= a < after.len() implies (#[trigger] after[a]).label != -1 && strictly_increasing(after[a].members@) by {
        if a < g {
            assert(after[a] == before[a]);
        } else if a > g {
            assert(after[a] == before[a - 1]);
        }
    }
    assert forall|a: int, y: usize|
        #![trigger after[a].members@.contains(y)]
        0 <= a < after.len() implies (after[a].members@.contains(y) <==> (y < post.len() && post[y as int] == after[a].label)) by {
        if y < pre.len() {
            assert(post[y as int] == pre[y as int]);
        }
        if a == g {
            if y < pre.len() && pre[y as int] == l {
                let c = choose|c: int| 0 <= c < before.len() && #[trigger] before[c].label == pre[y as int];
                if c < g {
                    assert(before[c].label < l);
                } else {
                    if c > g {
                        assert(before[g].label < before[c].label);
                    }
                }
            }
            if after[a].members@.contains(y) {
                assert(after[a].members@[0] == x);
            }
            if y == x {
                assert(after[a].members@[0] == x);
            }
        } else {
            let b = if a < g { a } else { a - 1 };
            assert(after[a] == before[b]);
            if after[a].members@.contains(y) {
                assert(before[b].members@.contains(y));
            }
            if y == x && post[y as int] == after[a].label {
                if b < g {
                    assert(before[b].label < l);
                } else {
                    if b > g {
                        assert(before[g].label < before[b].label);
                    }
                }
            }
        }
    }
    assert forall|y: int| 0 <= y < post.len() && post[y] != -1 implies exists|a: int|
        0 <= a < after.len() && #[trigger] after[a].label == post[y] by {
        if y < pre.len() {
            assert(post[y] == pre[y]);
            let c = choose|c: int| 0 <= c < before.len() && #[trigger] before[c].label == pre[y];
            if c < g {
                assert(after[c].label == post[y]);
            } else {
                assert(after[c + 1].label == post[y]);
            }
        } else {
            assert(after[g].label == post[y]);
        }
    }
}

// ── Display helpers ─────────────────────────────────────────────────────────

/// How a clustered point is shown: its post URL, or `#` and its post ID
/// when the URL is empty.
pub fn cluster_point_label(post_id: u64, post_url: &str) -> (s: String)
    ensures
        post_url@.len() == 0 ==> s@ == "#"@ + decimal(post_id as nat),
        post_url@.len() != 0 ==> s@ == post_url@,
{
    if post_url.is_empty() {
        let mut s = owned("#");
        append_u64(&mut s, post_id);
        s
    } else {
        owned(post_url)
    }
}

/// The members shown under a cluster's representative: the first `limit`
/// ranked members other than the representative.
pub fn preview_indices(ranked: &Vec<usize>, representative: usize, limit: usize) -> (r: Vec<usize>)
    ensures
        r@ == preview_spec(ranked@, representative, limit as nat),
{
    let mut out: Vec<usize> = Vec::new();
    let mut i: usize = 0;
    while i < ranked.len() && out.len() < limit
        invariant
            i <= ranked@.len(),
            out@ == preview_spec(ranked@.take(i as int), representative, limit as nat),
        decreases ranked@.len() - i,
    {
        let x = ranked[i];
        proof {
            assert(ranked@.take(i + 1).drop_last() =~= ranked@.take(i as int));
            assert(ranked@.take(i + 1).last() == x);
        }
        if x != representative {
            out.push(x);
        }
        i = i + 1;
    }
    proof {
        if out@.len() >= limit {
            lemma_preview_full(ranked@, i as nat, representative, limit as nat);
        } else {
            assert(ranked@.take(i as int) =~= ranked@);
        }
    }
    out
}

/// The first `limit` values of `s` other than `skip`.
pub open spec fn preview_spec(s: Seq<usize>, skip: usize, limit: nat) -> Seq<usize>
    decreases s.len(),
{
    if s.len() == 0 {
        seq![]
    } else {
        let prev = preview_spec(s.drop_last(), skip, limit);
        if prev.len() < limit && s.last() != skip {
            prev.push(s.last())
        } else {
            prev
        }
    }
}

/// Once `limit` values are taken, the rest of the sequence adds nothing.
pub proof fn lemma_preview_full(s: Seq<usize>, i: nat, skip: usize, limit: nat)
    requires
        i <= s.len(),
        preview_spec(s.take(i as int), skip, limit).len() >= limit,
    ensures
        preview_spec(s, skip, limit) == preview_spec(s.take(i as int), skip, limit),
    decreases s.len() - i,
{
    if i < s.len() {
        assert(s.take((i + 1) as int).drop_last() =~= s.take(i as int));
        lemma_preview_full(s, i + 1, skip, limit);
    } else {
        assert(s.take(i as int) =~= s);
    }
}

} // verus!
