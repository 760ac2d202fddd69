//! Parameter checks, pivot sampling and candidate gathering for the
//! approximate nearest-neighbour graph.
use vstd::prelude::*;

use crate::cluster::sorted::{strictly_increasing, insert_sorted};

verus! {

// ── Parameters ──────────────────────────────────────────────────────────────

/// A rejected integer parameter of the graph clustering.
#[derive(Debug, Clone, Copy, PartialEq, Eq)]
pub enum ParamError {
    MinClusterSize,
    MinSamples,
    Neighbors,
    Pivots,
    TopPivots,
    TopPivotsAbovePivots,
    MaxCandidates,
}

impl ParamError {
    /// The message shown to the user.
    pub fn message(&self) -> (s: &'static str)
        ensures
            s@ == match self {
                ParamError::MinClusterSize => "--min-cluster-size must be at least 2 for graph-hdbscan"@,
                ParamError::MinSamples => "--min-samples must be at least 1 for graph-hdbscan"@,
                ParamError::Neighbors => "--graph-neighbors must be at least 1"@,
                ParamError::Pivots => "--graph-pivots must be at least 1"@,
                ParamError::TopPivots => "--graph-top-pivots must be at least 1"@,
                ParamError::TopPivotsAbovePivots => "--graph-top-pivots must be less than or equal to --graph-pivots"@,
                ParamError::MaxCandidates => "--graph-max-candidates must be greater than or equal to --graph-neighbors"@,
            },
    {
        match self {
            ParamError::MinClusterSize => "--min-cluster-size must be at least 2 for graph-hdbscan",
            ParamError::MinSamples => "--min-samples must be at least 1 for graph-hdbscan",
            ParamError::Neighbors => "--graph-neighbors must be at least 1",
            ParamError::Pivots => "--graph-pivots must be at least 1",
            ParamError::TopPivots => "--graph-top-pivots must be at least 1",
            ParamError::TopPivotsAbovePivots => "--graph-top-pivots must be less than or equal to --graph-pivots",
            ParamError::MaxCandidates => "--graph-max-candidates must be greater than or equal to --graph-neighbors",
        }
    }
}

/// The first rule that the integer parameters break, in the order in which
/// they are checked, or `None` when all hold.
pub open spec fn spec_param_error(
    min_cluster_size: usize,
    min_samples: usize,
    neighbors: usize,
    pivots: usize,
    top_pivots: usize,
    max_candidates: usize,
) -> Option<ParamError> {
    if min_cluster_size < 2 {
        Some(ParamError::MinClusterSize)
    } else if min_samples < 1 {
        Some(ParamError::MinSamples)
    } else if neighbors < 1 {
        Some(ParamError::Neighbors)
    } else if pivots < 1 {
        Some(ParamError::Pivots)
    } else if top_pivots < 1 {
        Some(ParamError::TopPivots)
    } else if top_pivots > pivots {
        Some(ParamError::TopPivotsAbovePivots)
    } else if max_candidates < neighbors {
        Some(ParamError::MaxCandidates)
    } else {
        None
    }
}

/// Check the integer parameters of the graph clustering (the distance
/// epsilon, a float, is checked by the caller after these).
pub fn validate_params(
    min_cluster_size: usize,
    min_samples: usize,
    neighbors: usize,
    pivots: usize,
    top_pivots: usize,
    max_candidates: usize,
) -> (r: Result<(), ParamError>)
    ensures
        r is Ok <==> spec_param_error(
            min_cluster_size,
            min_samples,
            neighbors,
            pivots,
            top_pivots,
            max_candidates,
        ) is None,
        r matches Err(e) ==> Some(e) == spec_param_error(
            min_cluster_size,
            min_samples,
            neighbors,
            pivots,
            top_pivots,
            max_candidates,
        ),
{
    if min_cluster_size < 2 {
        return Err(ParamError::MinClusterSize);
    }
    if min_samples < 1 {
        return Err(ParamError::MinSamples);
    }
    if neighbors < 1 {
        return Err(ParamError::Neighbors);
    }
    if pivots < 1 {
        return Err(ParamError::Pivots);
    }
    if top_pivots < 1 {
        return Err(ParamError::TopPivots);
    }
    if top_pivots > pivots {
        return Err(ParamError::TopPivotsAbovePivots);
    }
    if max_candidates < neighbors {
        return Err(ParamError::MaxCandidates);
    }
    Ok(())
}

/// The number of neighbours kept per point: `max(neighbors, min_samples)`,
/// capped at `point_count - 1`.
pub fn target_neighbors(neighbors: usize, min_samples: usize, point_count: usize) -> (k: usize)
    requires
        point_count >= 1,
    ensures
        k == vstd::math::min(
            vstd::math::max(neighbors as int, min_samples as int),
            point_count - 1,
        ),
{
    let wanted = if neighbors >= min_samples { neighbors } else { min_samples };
    if wanted <= point_count - 1 { wanted } else { point_count - 1 }
}

// ── Pseudo-random numbers ───────────────────────────────────────────────────

/// The SplitMix64 output function.
pub open spec fn spec_splitmix64(x: u64) -> u64 {
    let a = x.wrapping_add(0x9E37_79B9_7F4A_7C15u64);
    let b = (a ^ (a >> 30u64)).wrapping_mul(0xBF58_476D_1CE4_E5B9u64);
    let c = (b ^ (b >> 27u64)).wrapping_mul(0x94D0_49BB_1331_11EBu64);
    c ^ (c >> 31u64)
}

/// One step of the SplitMix64 generator.
pub fn splitmix64(x: u64) -> (r: u64)
    ensures
        r == spec_splitmix64(x),
{
    let a = x.wrapping_add(0x9E37_79B9_7F4A_7C15u64);
    let b = (a ^ (a >> 30u64)).wrapping_mul(0xBF58_476D_1CE4_E5B9u64);
    let c = (b ^ (b >> 27u64)).wrapping_mul(0x94D0_49BB_1331_11EBu64);
    c ^ (c >> 31u64)
}

// ── Pivot sampling ──────────────────────────────────────────────────────────

/// Mixed into the seed before pivot sampling.
pub const PIVOT_SEED_MASK: u64 = 0xA5A5_A5A5_A5A5_A5A5;

/// The generator state after `k` steps of pivot sampling.
pub open spec fn pivot_state(seed: u64, k: nat) -> u64
    decreases k,
{
    if k == 0 {
        spec_splitmix64(seed ^ PIVOT_SEED_MASK)
    } else {
        spec_splitmix64(pivot_state(seed, (k - 1) as nat))
    }
}

/// The `k`-th pivot index drawn (from 0).
pub open spec fn pivot_draw(seed: u64, count: usize, k: nat) -> int {
    (pivot_state(seed, k + 1) as usize) as int % (count as int)
}

/// The indices drawn in the first `m` draws.
pub open spec fn pivots_drawn(seed: u64, count: usize, m: nat) -> Set<int> {
    Set::new(|v: int| exists|k: nat| k < m && #[trigger] pivot_draw(seed, count, k) == v)
}

/// `r` holds the distinct indices of the first `m` draws, and `m` is the
/// draw at which the `pivot_count`-th distinct index came up (or the draw
/// budget ran out first).
pub open spec fn sampled_after(r: Seq<usize>, seed: u64, count: usize, pivot_count: usize, m: nat) -> bool {
    &&& forall|v: usize| r.contains(v) <==> pivots_drawn(seed, count, m).contains(v as int)
    &&& ((r.len() == pivot_count && (m == 0 || !pivots_drawn(seed, count, (m - 1) as nat).contains(
        pivot_draw(seed, count, (m - 1) as nat),
    ))) || (m == MAX_PIVOT_DRAWS && r.len() < pivot_count))
}

/// The largest number of draws pivot sampling makes before it gives up.
pub const MAX_PIVOT_DRAWS: u64 = 0xFFFF_FFFF_FFFF_FFFF;

/// Choose `pivot_count` distinct point indices below `count`, sorted.
///
/// With `pivot_count >= count` every index is a pivot. Otherwise indices are
/// drawn from a SplitMix64 stream seeded by `seed` until `pivot_count`
/// distinct ones have come up; the draws stop after `MAX_PIVOT_DRAWS`, a
/// number of steps that no run reaches.
pub fn choose_pivots(count: usize, pivot_count: usize, seed: u64) -> (r: Vec<usize>)
    ensures
        strictly_increasing(r@),
        forall|i: int| 0 <= i < r@.len() ==> r@[i] < count,
        pivot_count >= count ==> r@ == Seq::new(count as nat, |i: int| i as usize),
        pivot_count < count ==> exists|m: nat| #[trigger] sampled_after(r@, seed, count, pivot_count, m),
{
    if pivot_count >= count {
        let mut all: Vec<usize> = Vec::new();
        let mut i: usize = 0;
        while i < count
            invariant
                i <= count,
                all@ == Seq::new(i as nat, |j: int| j as usize),
            decreases count - i,
        {
            all.push(i);
            i = i + 1;
        }
        return all;
    }
    let mut selected: Vec<usize> = Vec::new();
    let mut state = splitmix64(seed ^ PIVOT_SEED_MASK);
    let mut draws: u64 = 0;
    proof {
        assert(pivot_state(seed, 0) == state);
        assert forall|v: usize| selected@.contains(v) <==> pivots_drawn(seed, count, 0).contains(
            v as int,
        ) by {}
    }
    while selected.len() < pivot_count && draws < MAX_PIVOT_DRAWS
        invariant
            pivot_count < count,
            strictly_increasing(selected@),
            forall|i: int| 0 <= i < selected@.len() ==> selected@[i] < count,
            state == pivot_state(seed, draws as nat),
            forall|v: usize| selected@.contains(v) <==> pivots_drawn(seed, count, draws as nat).contains(
                v as int,
            ),
            selected@.len() <= pivot_count,
            draws == 0 || !pivots_drawn(seed, count, (draws - 1) as nat).contains(
                pivot_draw(seed, count, (draws - 1) as nat),
            ) || selected@.len() < pivot_count,
        decreases MAX_PIVOT_DRAWS - draws,
    {
        let ghost before = selected@;
        state = splitmix64(state);
        let index = (#[verifier::truncate] (state as usize)) % count;
        let added = insert_sorted(&mut selected, index);
        proof {
            let k = draws as nat;
            assert(pivot_draw(seed, count, k) == index as int);
            assert forall|v: usize| selected@.contains(v) <==> pivots_drawn(
                seed,
                count,
                k + 1,
            ).contains(v as int) by {
                if pivots_drawn(seed, count, k + 1).contains(v as int) {
                    let j = choose|j: nat| j < k + 1 && #[trigger] pivot_draw(seed, count, j) == v as int;
                    if j < k {
                        assert(pivots_drawn(seed, count, k).contains(v as int));
                    }
                }
                if before.contains(v) {
                    let j = choose|j: nat| j < k && #[trigger] pivot_draw(seed, count, j) == v as int;
                    assert(pivots_drawn(seed, count, k + 1).contains(v as int));
                }
                if v == index {
                    assert(pivots_drawn(seed, count, k + 1).contains(v as int));
                }
            }
            assert forall|i: int| 0 <= i < selected@.len() implies selected@[i] < count by {
                let y = selected@[i];
                assert(selected@.contains(y));
                if before.contains(y) {
                    let j = choose|j: int| 0 <= j < before.len() && before[j] == y;
                }
            }
            if added {
                assert(!pivots_drawn(seed, count, k).contains(index as int));
            }
        }
        draws = draws + 1;
    }
    assert(sampled_after(selected@, seed, count, pivot_count, draws as nat));
    selected
}

} // verus!
