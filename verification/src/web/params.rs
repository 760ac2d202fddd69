//! Query parameters of the API endpoints, their defaults and bounds, and the
//! data transfer objects built from store results.
use vstd::prelude::*;

use crate::store::stats::{SiteDistribution, SiteInfo};
use crate::text::{owned, trim, trim_str};

verus! {

/// Query parameters of the plain search endpoint.
pub struct SearchQuery {
    /// Text query for semantic search.
    pub q: Option<String>,
    /// Optional site filter (e.g. `"rule34"`).
    pub site: Option<String>,
    /// Maximum number of results to return (default 10).
    pub limit: Option<u64>,
}

/// Query parameters of `/api/activity`.
pub struct ActivityParams {
    /// Number of days to look back (default 90, max 365).
    pub days: Option<u64>,
    /// Sites to restrict results to.
    pub site: Vec<String>,
}

/// Query parameters of `/api/recent`.
pub struct RecentParams {
    /// Number of results to return (default 20, max 100).
    pub limit: Option<u64>,
    /// Sites to restrict results to.
    pub site: Vec<String>,
    /// Pagination offset (default 0).
    pub offset: Option<u64>,
}

/// Query parameters of `/api/search/similar/{site}/{post_id}`.
pub struct SimilarParams {
    /// Maximum results to return (default 10, max 100).
    pub limit: Option<u64>,
}

/// Metadata about an indexed site.
pub struct SiteDto {
    pub name: String,
    pub namespace: u64,
    pub count: u64,
    pub earliest_ingestion: i64,
    pub latest_ingestion: i64,
}

/// Site statistics returned to the client.
pub struct SiteStatsDto {
    pub total_points: u64,
    pub per_site: Vec<(String, u64)>,
    pub missing_site_payload: u64,
}

/// `v`, or `default` when absent, clamped to `lo..=hi`.
pub open spec fn clamp_or(v: Option<u64>, default: u64, lo: u64, hi: u64) -> u64 {
    let x = match v { Some(x) => x, None => default };
    if x < lo { lo } else if x > hi { hi } else { x }
}

/// `v` or `default`, clamped to `lo..=hi` (`unwrap_or(default).clamp(lo, hi)`).
pub fn clamp_param(v: Option<u64>, default: u64, lo: u64, hi: u64) -> (r: u64)
    requires
        lo <= hi,
    ensures
        r == clamp_or(v, default, lo, hi),
{
    let x = match v {
        Some(x) => x,
        None => default,
    };
    if x < lo {
        lo
    } else if x > hi {
        hi
    } else {
        x
    }
}

impl RecentParams {
    /// The page size: default 20, between 1 and 100.
    pub fn page_limit(&self) -> (r: u64)
        ensures
            r == clamp_or(self.limit, 20, 1, 100),
    {
        clamp_param(self.limit, 20, 1, 100)
    }

    /// The page offset: default 0.
    pub fn page_offset(&self) -> (r: u64)
        ensures
            r == match self.offset { Some(o) => o, None => 0 },
    {
        match self.offset {
            Some(o) => o,
            None => 0,
        }
    }
}

impl ActivityParams {
    /// The look-back window: default 90 days, between 1 and 365.
    pub fn window_days(&self) -> (r: u64)
        ensures
            r == clamp_or(self.days, 90, 1, 365),
    {
        clamp_param(self.days, 90, 1, 365)
    }
}

impl SimilarParams {
    /// The result count: default 10, between 1 and 100.
    pub fn result_limit(&self) -> (r: u64)
        ensures
            r == clamp_or(self.limit, 10, 1, 100),
    {
        clamp_param(self.limit, 10, 1, 100)
    }
}

impl SearchQuery {
    /// The result count of the plain search endpoint: default 10.
    pub fn result_limit(&self) -> (r: u64)
        ensures
            r == match self.limit { Some(l) => l, None => 10 },
    {
        match self.limit {
            Some(l) => l,
            None => 10,
        }
    }

    /// The trimmed text query, or `None` when it is missing or blank.
    pub fn query_text(&self) -> (r: Option<String>)
        ensures
            r matches Some(t) ==> self.q matches Some(q) && t@ == trim(q@) && t@.len() > 0,
            r is None ==> (self.q is None || trim(self.q.unwrap()@).len() == 0),
    {
        non_blank(&self.q)
    }
}

/// The trimmed text of `v`, or `None` when it is missing or blank.
pub fn non_blank(v: &Option<String>) -> (r: Option<String>)
    ensures
        r matches Some(t) ==> v matches Some(q) && t@ == trim(q@) && t@.len() > 0,
        r is None ==> (v is None || trim(v.unwrap()@).len() == 0),
{
    match v {
        Some(q) => {
            let t = trim_str(q.as_str());
            if t.as_str().is_empty() {
                None
            } else {
                Some(t)
            }
        },
        None => None,
    }
}

/// The result count of the full search endpoint: default 10, between 1 and
/// 100.
pub fn search_limit(limit: Option<u64>) -> (r: u64)
    ensures
        r == clamp_or(limit, 10, 1, 100),
{
    clamp_param(limit, 10, 1, 100)
}

/// The offset of the next page: `offset + limit` when there are more
/// results, else none.
pub fn next_offset(has_more: bool, offset: u64, limit: u64) -> (r: Option<u64>)
    requires
        has_more ==> offset + limit <= u64::MAX,
    ensures
        r == (if has_more { Some((offset + limit) as u64) } else { None }),
{
    if has_more {
        Some(offset + limit)
    } else {
        None
    }
}

/// The sum of the counts.
pub open spec fn total_count(data: Seq<(String, u64)>) -> int
    decreases data.len(),
{
    if data.len() == 0 {
        0
    } else {
        total_count(data.drop_last()) + data.last().1
    }
}

/// The largest count, 0 for no data.
pub open spec fn peak_count(data: Seq<(String, u64)>) -> u64
    decreases data.len(),
{
    if data.len() == 0 {
        0
    } else {
        let p = peak_count(data.drop_last());
        if data.last().1 > p { data.last().1 } else { p }
    }
}

/// The peak and the total of daily activity counts.
pub fn activity_totals(data: &Vec<(String, u64)>) -> (r: (u64, u64))
    requires
        total_count(data@) <= u64::MAX,
    ensures
        r.0 == peak_count(data@),
        r.1 == total_count(data@),
{
    let mut peak: u64 = 0;
    let mut total: u64 = 0;
    let mut i: usize = 0;
    while i < data.len()
        invariant
            i <= data@.len(),
            total_count(data@) <= u64::MAX,
            peak == peak_count(data@.take(i as int)),
            total == total_count(data@.take(i as int)),
        decreases data@.len() - i,
    {
        let c = data[i].1;
        proof {
            assert(data@.take(i + 1).drop_last() =~= data@.take(i as int));
            assert(data@.take(i + 1).last() == data@[i as int]);
            lemma_total_prefix(data@, i + 1);
        }
        if c > peak {
            peak = c;
        }
        total = total + c;
        i = i + 1;
    }
    proof {
        assert(data@.take(i as int) =~= data@);
    }
    (peak, total)
}

/// A prefix's total is at most the whole total.
pub proof fn lemma_total_prefix(data: Seq<(String, u64)>, k: int)
    requires
        0 <= k <= data.len(),
    ensures
        total_count(data.take(k)) <= total_count(data),
        total_count(data.take(k)) >= 0,
    decreases data.len() - k,
{
    if k < data.len() {
        lemma_total_prefix(data, k + 1);
        assert(data.take(k + 1).drop_last() =~= data.take(k));
    } else {
        assert(data.take(k) =~= data);
    }
    lemma_total_nonneg(data.take(k));
}

/// Totals are never negative.
pub proof fn lemma_total_nonneg(data: Seq<(String, u64)>)
    ensures
        total_count(data) >= 0,
    decreases data.len(),
{
    if data.len() > 0 {
        lemma_total_nonneg(data.drop_last());
    }
}

impl SiteDto {
    /// The transfer object of a site's metadata.
    pub fn from_info(s: SiteInfo) -> (d: Self)
        ensures
            d.name == s.name,
            d.namespace == s.namespace,
            d.count == s.count,
            d.earliest_ingestion == s.earliest_ingestion,
            d.latest_ingestion == s.latest_ingestion,
    {
        SiteDto {
            name: s.name,
            namespace: s.namespace,
            count: s.count,
            earliest_ingestion: s.earliest_ingestion,
            latest_ingestion: s.latest_ingestion,
        }
    }
}

impl SiteStatsDto {
    /// The statistics response: the totals and the per-site counts in name
    /// order.
    pub fn from_distribution(dist: &SiteDistribution) -> (d: Self)
        ensures
            d.total_points == dist.total_points,
            d.missing_site_payload == dist.missing_site_payload,
            d.per_site@.map_values(|e: (String, u64)| (e.0@, e.1)) == dist.per_site.sorted_entries(),
    {
        let entries = dist.per_site.entries();
        let mut per_site: Vec<(String, u64)> = Vec::new();
        let mut i: usize = 0;
        while i < entries.len()
            invariant
                i <= entries@.len(),
                per_site@.len() == i,
                per_site@.map_values(|e: (String, u64)| (e.0@, e.1)) == entries@.take(i as int).map_values(
                    |e: (String, u64)| (e.0@, e.1),
                ),
            decreases entries@.len() - i,
        {
            let name = owned(entries[i].0.as_str());
            let ghost before = per_site@;
            per_site.push((name, entries[i].1));
            proof {
                let f = |e: (String, u64)| (e.0@, e.1);
                assert forall|k: int| 0 <= k < i + 1 implies per_site@.map_values(f)[k] == entries@.take(i + 1).map_values(f)[k] by {
                    if k < i {
                        assert(per_site@[k] == before[k]);
                        assert(before.map_values(f)[k] == entries@.take(i as int).map_values(f)[k]);
                    }
                }
                assert(per_site@.map_values(f) =~= entries@.take(i + 1).map_values(f));
            }
            i = i + 1;
        }
        proof {
            assert(entries@.take(i as int) =~= entries@);
        }
        SiteStatsDto {
            total_points: dist.total_points,
            per_site,
            missing_site_payload: dist.missing_site_payload,
        }
    }
}

} // verus!
