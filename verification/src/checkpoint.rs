//! Per-site resume checkpoints: the last processed post ID of each site.
//!
//! Reading and writing the checkpoint file is done by the application; this
//! module holds the map itself and its laws.
use vstd::prelude::*;

use crate::strmap::StrMap;

verus! {

/// A map from site name to the last successfully processed post ID.
pub type CheckpointMap = StrMap<u64>;

/// The last processed post ID recorded for `site`, or 0 when none is recorded.
pub open spec fn spec_get(map: Map<Seq<char>, u64>, site: Seq<char>) -> u64 {
    if map.contains_key(site) {
        map[site]
    } else {
        0
    }
}

/// Get the last processed post ID for a site, defaulting to 0.
pub fn get(map: &CheckpointMap, site: &str) -> (id: u64)
    ensures
        id == spec_get(map@, site@),
{
    match map.get(site) {
        Some(v) => *v,
        None => 0,
    }
}

/// Set the last processed post ID for a site in the checkpoint map.
pub fn set(map: &mut CheckpointMap, site: &str, id: u64)
    ensures
        final(map)@ == old(map)@.insert(site@, id),
        final(map)@.dom().finite(),
{
    map.insert(site, id);
}

/// Reading a site back after setting it gives the value that was set, and
/// setting one site leaves every other site's checkpoint unchanged.
pub proof fn lemma_get_after_set(map: Map<Seq<char>, u64>, site: Seq<char>, id: u64, other: Seq<char>)
    ensures
        spec_get(map.insert(site, id), site) == id,
        other != site ==> spec_get(map.insert(site, id), other) == spec_get(map, other),
{
}

/// Setting a site adds an entry only when the site had none: the number of
/// sites grows by one for a new site and stays the same for a known one.
pub proof fn lemma_set_len(map: Map<Seq<char>, u64>, site: Seq<char>, id: u64)
    requires
        map.dom().finite(),
    ensures
        map.insert(site, id).dom().finite(),
        map.insert(site, id).dom().len() == map.dom().len() + (if map.contains_key(site) { 0int } else { 1int }),
{
    if map.contains_key(site) {
        assert(map.insert(site, id).dom() =~= map.dom());
    }
}

/// A site that was never set reads as 0.
pub proof fn lemma_get_missing(map: Map<Seq<char>, u64>, site: Seq<char>)
    requires
        !map.contains_key(site),
    ensures
        spec_get(map, site) == 0,
{
}

} // verus!
