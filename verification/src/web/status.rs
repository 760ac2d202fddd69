//! The ingest status that the API reports, and how ingest events change it.
use vstd::prelude::*;

use crate::checkpoint::CheckpointMap;
use crate::strmap::StrMap;
use crate::strmap::{lemma_seq_lt_asymmetric, lemma_seq_lt_total, lemma_seq_lt_transitive, lemma_seq_lt_irreflexive};
use crate::text::{owned, seq_lt, str_eq, str_lt, views};

verus! {

/// Current ingest status.
pub struct IngestStatus {
    pub is_running: bool,
    pub active_sites: Vec<String>,
    /// The last checkpoint of each site, when one is known.
    pub last_checkpoint: Option<StrMap<u64>>,
}

/// What an ingest event tells the status.
pub enum StatusEvent {
    /// A full snapshot.
    StatusSnapshot { is_running: bool, active_sites: Vec<String>, last_checkpoint: Option<StrMap<u64>> },
    /// A cycle of a site completed, failed, or its loop went to sleep.
    SiteActivity { site: String },
    /// A site's checkpoint was updated and persisted.
    CheckpointUpdated { site: String, last_id: u64 },
}

/// `s` is in non-decreasing code-point order.
pub open spec fn names_sorted(s: Seq<Seq<char>>) -> bool {
    forall|i: int, j: int| 0 <= i < j < s.len() ==> !seq_lt(#[trigger] s[j], #[trigger] s[i])
}

/// Sort names in code-point order (the order of `String`'s `Ord`).
pub fn sort_names(v: &Vec<String>) -> (r: Vec<String>)
    ensures
        names_sorted(views(r@)),
        views(r@).to_multiset() == views(v@).to_multiset(),
{
    let mut out: Vec<String> = Vec::new();
    let mut i: usize = 0;
    proof {
        assert(views(v@.take(0)) =~= Seq::<Seq<char>>::empty());
        assert(views(out@) =~= Seq::<Seq<char>>::empty());
    }
    while i < v.len()
        invariant
            i <= v@.len(),
            names_sorted(views(out@)),
            views(out@).to_multiset() == views(v@.take(i as int)).to_multiset(),
        decreases v@.len() - i,
    {
        let x = v[i].as_str();
        let mut p: usize = 0;
        while p < out.len() && !str_lt(x, out[p].as_str())
            invariant
                p <= out@.len(),
                forall|k: int| 0 <= k < p ==> !seq_lt(x@, #[trigger] out@[k]@),
            decreases out@.len() - p,
        {
            p = p + 1;
        }
        let ghost before = views(out@);
        out.insert(p, owned(x));
        proof {
            assert(views(out@) =~= before.insert(p as int, x@));
            vstd::seq_lib::to_multiset_insert(before, p as int, x@);
            let t1 = v@.take(i + 1);
            assert(views(t1) =~= views(v@.take(i as int)).push(x@));
            vstd::seq_lib::to_multiset_build(views(v@.take(i as int)), x@);
            let s = views(out@);
            assert forall|a: int, b: int| 0 <= a < b < s.len() implies !seq_lt(#[trigger] s[b], #[trigger] s[a]) by {
                if a < p && b == p {
                    assert(!seq_lt(x@, before[a]));
                } else if a == p && b > p {
                    if p < before.len() {
                        // x < before[p] <= before[b - 1]
                        assert(seq_lt(x@, before[p as int]));
                        if b - 1 > p {
                            assert(!seq_lt(before[b - 1], before[p as int]));
                            if seq_lt(before[b - 1], x@) {
                                lemma_seq_lt_transitive(before[b - 1], x@, before[p as int]);
                            }
                        } else if seq_lt(before[b - 1], x@) {
                            lemma_seq_lt_asymmetric(x@, before[p as int]);
                        }
                    }
                } else if a < p && b > p {
                    assert(!seq_lt(before[b - 1], before[a]));
                } else if b < p {
                    assert(!seq_lt(before[b], before[a]));
                } else {
                    assert(!seq_lt(before[b - 1], before[a - 1]));
                }
            }
        }
        i = i + 1;
    }
    proof {
        assert(v@.take(i as int) =~= v@);
    }
    out
}

/// Whether `name` is in `names`.
fn contains_name(names: &Vec<String>, name: &str) -> (b: bool)
    ensures
        b == views(names@).contains(name@),
{
    let mut i: usize = 0;
    while i < names.len()
        invariant
            i <= names@.len(),
            forall|k: int| 0 <= k < i ==> names@[k]@ != name@,
        decreases names@.len() - i,
    {
        if str_eq(names[i].as_str(), name) {
            proof {
                assert(views(names@)[i as int] == name@);
            }
            return true;
        }
        i = i + 1;
    }
    proof {
        if views(names@).contains(name@) {
            let k = choose|k: int| 0 <= k < views(names@).len() && views(names@)[k] == name@;
            assert(names@[k]@ == name@);
        }
    }
    false
}

/// Record `site` as active: unchanged when it is listed already, else added
/// and the list sorted.
pub fn mark_site_active(status: &mut IngestStatus, site: &str)
    ensures
        final(status).is_running == old(status).is_running,
        final(status).last_checkpoint == old(status).last_checkpoint,
        views(old(status).active_sites@).contains(site@) ==> final(status).active_sites == old(status).active_sites,
        !views(old(status).active_sites@).contains(site@) ==> {
            &&& names_sorted(views(final(status).active_sites@))
            &&& views(final(status).active_sites@).to_multiset() == views(old(status).active_sites@).to_multiset().insert(site@)
        },
{
    if contains_name(&status.active_sites, site) {
        return;
    }
    let ghost before = views(status.active_sites@);
    status.active_sites.push(owned(site));
    proof {
        assert(views(status.active_sites@) =~= before.push(site@));
        vstd::seq_lib::to_multiset_build(before, site@);
    }
    let sorted = sort_names(&status.active_sites);
    status.active_sites = sorted;
}

/// Record `last_id` as `site`'s checkpoint, on top of the known checkpoints.
pub fn update_checkpoint_site(status: &mut IngestStatus, site: &str, last_id: u64)
    ensures
        final(status).is_running == old(status).is_running,
        final(status).active_sites == old(status).active_sites,
        final(status).last_checkpoint matches Some(m) && m@ == (match old(status).last_checkpoint {
            Some(o) => o@,
            None => Map::empty(),
        }).insert(site@, last_id),
{
    let mut map = match status.last_checkpoint.take() {
        Some(m) => m,
        None => StrMap::new(),
    };
    map.insert(site, last_id);
    status.last_checkpoint = Some(map);
}

impl IngestStatus {
    /// Not running, nothing known.
    pub fn new() -> (s: Self)
        ensures
            !s.is_running,
            s.active_sites@.len() == 0,
            s.last_checkpoint is None,
    {
        IngestStatus { is_running: false, active_sites: Vec::new(), last_checkpoint: None }
    }
}

/// Apply an ingest event to the status: a snapshot replaces it; any other
/// event marks ingest running and its site active, and a checkpoint update
/// also records the site's checkpoint.
pub fn update_status_from_event(status: &mut IngestStatus, event: StatusEvent)
    ensures
        match event {
            StatusEvent::StatusSnapshot { is_running, active_sites, last_checkpoint } => {
                &&& final(status).is_running == is_running
                &&& final(status).active_sites == active_sites
                &&& final(status).last_checkpoint == last_checkpoint
            },
            StatusEvent::SiteActivity { site } => {
                &&& final(status).is_running
                &&& final(status).last_checkpoint == old(status).last_checkpoint
                &&& views(final(status).active_sites@).contains(site@)
                &&& (views(old(status).active_sites@).contains(site@) ==> final(status).active_sites == old(status).active_sites)
                &&& (!views(old(status).active_sites@).contains(site@) ==> names_sorted(views(final(status).active_sites@))
                    && views(final(status).active_sites@).to_multiset() == views(old(status).active_sites@).to_multiset().insert(site@))
            },
            StatusEvent::CheckpointUpdated { site, last_id } => {
                &&& final(status).is_running
                &&& views(final(status).active_sites@).contains(site@)
                &&& (views(old(status).active_sites@).contains(site@) ==> final(status).active_sites == old(status).active_sites)
                &&& (!views(old(status).active_sites@).contains(site@) ==> names_sorted(views(final(status).active_sites@))
                    && views(final(status).active_sites@).to_multiset() == views(old(status).active_sites@).to_multiset().insert(site@))
                &&& final(status).last_checkpoint matches Some(m) && m@ == (match old(status).last_checkpoint {
                    Some(o) => o@,
                    None => Map::empty(),
                }).insert(site@, last_id)
            },
        },
{
    match event {
        StatusEvent::StatusSnapshot { is_running, active_sites, last_checkpoint } => {
            status.is_running = is_running;
            status.active_sites = active_sites;
            status.last_checkpoint = last_checkpoint;
        },
        StatusEvent::SiteActivity { site } => {
            status.is_running = true;
            mark_site_active(status, site.as_str());
            proof {
                lemma_marked_contains(views(old(status).active_sites@), views(status.active_sites@), site@);
            }
        },
        StatusEvent::CheckpointUpdated { site, last_id } => {
            status.is_running = true;
            mark_site_active(status, site.as_str());
            proof {
                lemma_marked_contains(views(old(status).active_sites@), views(status.active_sites@), site@);
            }
            update_checkpoint_site(status, site.as_str(), last_id);
        },
    }
}

/// After marking, the site is listed.
proof fn lemma_marked_contains(before: Seq<Seq<char>>, after: Seq<Seq<char>>, site: Seq<char>)
    requires
        before.contains(site) ==> after == before,
        !before.contains(site) ==> after.to_multiset() == before.to_multiset().insert(site),
    ensures
        after.contains(site),
{
    if !before.contains(site) {
        broadcast use vstd::multiset::group_multiset_axioms;
        vstd::seq_lib::to_multiset_contains(after, site);
        assert(after.to_multiset().count(site) > 0);
    }
}

// ── Checkpoint file monitoring ──────────────────────────────────────────────

/// The value of `k` in `m`, if any.
pub open spec fn lookup(m: Map<Seq<char>, u64>, k: Seq<char>) -> Option<u64> {
    if m.contains_key(k) { Some(m[k]) } else { None }
}

/// The entries whose ID differs from the one `previous` holds for the site
/// (or that `previous` lacks), in order.
pub open spec fn changed_entries(entries: Seq<(Seq<char>, u64)>, previous: Map<Seq<char>, u64>) -> Seq<(Seq<char>, u64)>
    decreases entries.len(),
{
    if entries.len() == 0 {
        seq![]
    } else {
        let prev = changed_entries(entries.drop_last(), previous);
        let e = entries.last();
        if lookup(previous, e.0) != Some(e.1) {
            prev.push(e)
        } else {
            prev
        }
    }
}

/// The checkpoint updates between two reads of the checkpoint file: each site
/// of the new read whose ID differs from the old read (or is new), in site
/// order.
pub fn checkpoint_changes(previous: &CheckpointMap, current: &CheckpointMap) -> (r: Vec<(String, u64)>)
    ensures
        r@.map_values(|e: (String, u64)| (e.0@, e.1)) == changed_entries(current.sorted_entries(), previous@),
{
    let entries = current.entries();
    let ghost f = |e: (String, u64)| (e.0@, e.1);
    let mut out: Vec<(String, u64)> = Vec::new();
    let mut i: usize = 0;
    while i < entries.len()
        invariant
            i <= entries@.len(),
            f == (|e: (String, u64)| (e.0@, e.1)),
            entries@.map_values(f) == current.sorted_entries(),
            out@.map_values(f) == changed_entries(entries@.map_values(f).take(i as int), previous@),
        decreases entries@.len() - i,
    {
        let name = entries[i].0.as_str();
        let id = entries[i].1;
        proof {
            let es = entries@.map_values(f);
            assert(es.take(i + 1).drop_last() =~= es.take(i as int));
            assert(es.take(i + 1).last() == (name@, id));
        }
        let changed = match previous.get(name) {
            Some(old_id) => *old_id != id,
            None => true,
        };
        if changed {
            let ghost before = out@;
            out.push((owned(name), id));
            proof {
                assert(out@.map_values(f) =~= before.map_values(f).push((name@, id)));
            }
        }
        i = i + 1;
    }
    proof {
        assert(entries@.map_values(f).take(i as int) =~= entries@.map_values(f));
    }
    out
}

/// Every reported change names a site of the new read with its new ID, and
/// the changes come in strictly increasing site order.
pub proof fn lemma_changes_are_current(entries: Seq<(Seq<char>, u64)>, previous: Map<Seq<char>, u64>)
    requires
        forall|a: int, b: int| 0 <= a < b < entries.len() ==> seq_lt(#[trigger] entries[a].0, #[trigger] entries[b].0),
    ensures
        forall|a: int| 0 <= a < changed_entries(entries, previous).len() ==> entries.contains(
            #[trigger] changed_entries(entries, previous)[a],
        ) && lookup(previous, changed_entries(entries, previous)[a].0) != Some(changed_entries(entries, previous)[a].1),
        forall|a: int, b: int| 0 <= a < b < changed_entries(entries, previous).len() ==> seq_lt(
            #[trigger] changed_entries(entries, previous)[a].0,
            #[trigger] changed_entries(entries, previous)[b].0,
        ),
    decreases entries.len(),
{
    if entries.len() > 0 {
        let init = entries.drop_last();
        lemma_changes_are_current(init, previous);
        let c0 = changed_entries(init, previous);
        let c = changed_entries(entries, previous);
        assert forall|a: int| 0 <= a < c.len() implies entries.contains(#[trigger] c[a]) && lookup(previous, c[a].0) != Some(c[a].1) by {
            if a < c0.len() {
                assert(c[a] == c0[a]);
                assert(init.contains(c0[a]));
                let k = choose|k: int| 0 <= k < init.len() && init[k] == c0[a];
                assert(entries[k] == c0[a]);
            } else {
                assert(c[a] == entries.last());
                assert(entries[entries.len() - 1] == entries.last());
            }
        }
        assert forall|a: int, b: int| 0 <= a < b < c.len() implies seq_lt(#[trigger] c[a].0, #[trigger] c[b].0) by {
            if b < c0.len() {
                assert(c[a] == c0[a] && c[b] == c0[b]);
            } else {
                assert(c[a] == c0[a]);
                assert(init.contains(c0[a]));
                let k = choose|k: int| 0 <= k < init.len() && init[k] == c0[a];
                assert(entries[k] == c0[a]);
                assert(c[b] == entries[entries.len() - 1]);
            }
        }
    }
}

/// The status snapshot published for a checkpoint read: running when any
/// site has a checkpoint, the sites in order, and the checkpoints themselves
/// (none for an empty map).
pub fn checkpoint_snapshot(map: &CheckpointMap) -> (e: StatusEvent)
    ensures
        e matches StatusEvent::StatusSnapshot { is_running, active_sites, last_checkpoint } && {
            &&& is_running == (map@.dom().len() > 0)
            &&& views(active_sites@) == map.sorted_entries().map_values(|p: (Seq<char>, u64)| p.0)
            &&& (map@.dom().len() == 0 ==> last_checkpoint is None)
            &&& (map@.dom().len() > 0 ==> (last_checkpoint matches Some(m) && m@ == map@))
        },
{
    let entries = map.entries();
    let mut sites: Vec<String> = Vec::new();
    let mut copy: StrMap<u64> = StrMap::new();
    let mut i: usize = 0;
    while i < entries.len()
        invariant
            i <= entries@.len(),
            entries@.map_values(|e: (String, u64)| (e.0@, e.1)) == map.sorted_entries(),
            forall|k: int| 0 <= k < entries@.len() ==> #[trigger] map@.contains_key(entries@[k].0@) && map@[entries@[k].0@] == entries@[k].1,
            forall|k: Seq<char>| #[trigger] map@.contains_key(k) ==> exists|t: int| 0 <= t < entries@.len() && entries@[t].0@ == k,
            sites@.len() == i,
            views(sites@) == entries@.take(i as int).map_values(|e: (String, u64)| e.0@),
            forall|k: Seq<char>| #[trigger] copy@.contains_key(k) <==> exists|t: int| 0 <= t < i && entries@[t].0@ == k,
            forall|k: Seq<char>| #[trigger] copy@.contains_key(k) ==> copy@[k] == map@[k],
        decreases entries@.len() - i,
    {
        let name = entries[i].0.as_str();
        let ghost before = views(sites@);
        let ghost copy0 = copy@;
        sites.push(owned(name));
        copy.insert(name, entries[i].1);
        proof {
            let f = |e: (String, u64)| e.0@;
            assert forall|k: int| 0 <= k < i + 1 implies views(sites@)[k] == entries@.take(i + 1).map_values(f)[k] by {
                if k < i {
                    assert(before[k] == entries@.take(i as int).map_values(f)[k]);
                    assert(views(sites@)[k] == before[k]);
                }
            }
            assert(views(sites@) =~= entries@.take(i + 1).map_values(f));
            assert(map@.contains_key(entries@[i as int].0@));
            assert forall|k: Seq<char>| #[trigger] copy@.contains_key(k) <==> exists|t: int| 0 <= t < i + 1 && entries@[t].0@ == k by {
                if copy@.contains_key(k) && k != name@ {
                    assert(copy0.contains_key(k));
                }
                if exists|t: int| 0 <= t < i + 1 && entries@[t].0@ == k {
                    let t = choose|t: int| 0 <= t < i + 1 && entries@[t].0@ == k;
                    if t < i {
                        assert(copy0.contains_key(k));
                    }
                }
            }
            assert forall|k: Seq<char>| #[trigger] copy@.contains_key(k) implies copy@[k] == map@[k] by {
                if k != name@ {
                    assert(copy0.contains_key(k));
                }
            }
        }
        i = i + 1;
    }
    proof {
        assert(entries@.take(i as int) =~= entries@);
        assert(views(sites@) =~= map.sorted_entries().map_values(|p: (Seq<char>, u64)| p.0));
        assert(copy@ =~= map@) by {
            assert forall|k: Seq<char>| copy@.contains_key(k) <==> map@.contains_key(k) by {
                if map@.contains_key(k) {
                    let t = choose|t: int| 0 <= t < entries@.len() && entries@[t].0@ == k;
                }
                if copy@.contains_key(k) {
                    let t = choose|t: int| 0 <= t < i && entries@[t].0@ == k;
                    assert(map@.contains_key(entries@[t].0@));
                }
            }
        }
    }
    let n = map.len();
    let last_checkpoint = if n == 0 { None } else { Some(copy) };
    StatusEvent::StatusSnapshot { is_running: n > 0, active_sites: sites, last_checkpoint }
}

} // verus!
