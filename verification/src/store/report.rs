//! The integer side of the `stats` command and of store searches: argument
//! checks, the ranking of sites by count, candidate limits, site filters and
//! the image URL fallback.
use vstd::prelude::*;

use crate::store::stats::SiteDistribution;
use crate::text::{owned, seq_lt};

verus! {

// ── `stats` command ─────────────────────────────────────────────────────────

/// A rejected argument of the `stats` command.
#[derive(Debug, Clone, Copy, PartialEq, Eq, Structural)]
pub enum StatsArgError {
    PageSize,
    Width,
}

impl StatsArgError {
    /// The message shown to the user.
    pub fn message(&self) -> (s: &'static str)
        ensures
            s@ == match self {
                StatsArgError::PageSize => "--page-size must be greater than 0"@,
                StatsArgError::Width => "--width must be greater than 0"@,
            },
    {
        match self {
            StatsArgError::PageSize => "--page-size must be greater than 0",
            StatsArgError::Width => "--width must be greater than 0",
        }
    }
}

/// The page size must be positive, then the bar width.
pub fn validate_stats_args(page_size: u32, width: usize) -> (r: Result<(), StatsArgError>)
    ensures
        page_size == 0 ==> r == Err::<(), StatsArgError>(StatsArgError::PageSize),
        page_size > 0 && width == 0 ==> r == Err::<(), StatsArgError>(StatsArgError::Width),
        page_size > 0 && width > 0 ==> r is Ok,
{
    if page_size == 0 {
        return Err(StatsArgError::PageSize);
    }
    if width == 0 {
        return Err(StatsArgError::Width);
    }
    Ok(())
}

/// Row `a` is listed before row `b`: more posts first, then by name.
pub open spec fn ranks_before(a: (Seq<char>, u64), b: (Seq<char>, u64)) -> bool {
    a.1 > b.1 || (a.1 == b.1 && seq_lt(a.0, b.0))
}

/// The views of (name, count) rows.
pub open spec fn row_views(rows: Seq<(String, u64)>) -> Seq<(Seq<char>, u64)> {
    Seq::new(rows.len(), |i: int| (rows[i].0@, rows[i].1))
}

/// Each row ranks strictly before every later row.
pub open spec fn ranked(rows: Seq<(Seq<char>, u64)>) -> bool {
    forall|i: int, j: int| 0 <= i < j < rows.len() ==> ranks_before(#[trigger] rows[i], #[trigger] rows[j])
}

/// The per-site rows of the `stats` report: every site with its count, most
/// posts first and ties by name.
pub fn stats_rows(dist: &SiteDistribution) -> (r: Vec<(String, u64)>)
    ensures
        ranked(row_views(r@)),
        row_views(r@).to_multiset() == dist.per_site.sorted_entries().to_multiset(),
{
    let entries = dist.per_site.entries();
    let ghost all = row_views(entries@);
    proof {
        assert(all =~= dist.per_site.sorted_entries());
    }
    let mut out: Vec<(String, u64)> = Vec::new();
    let mut i: usize = 0;
    proof {
        assert(row_views(out@) =~= all.take(0));
    }
    while i < entries.len()
        invariant
            i <= entries@.len(),
            all == row_views(entries@),
            forall|a: int, b: int| 0 <= a < b < entries@.len() ==> seq_lt(#[trigger] entries@[a].0@, #[trigger] entries@[b].0@),
            ranked(row_views(out@)),
            row_views(out@).to_multiset() == all.take(i as int).to_multiset(),
            forall|k: int| 0 <= k < out@.len() ==> exists|t: int| 0 <= t < i && #[trigger] out@[k].0@ == entries@[t].0@,
        decreases entries@.len() - i,
    {
        let name = entries[i].0.as_str();
        let count = entries[i].1;
        let ghost x = (name@, count);
        let mut p: usize = 0;
        while p < out.len() && ranks_before_exec(out[p].0.as_str(), out[p].1, name, count)
            invariant
                p <= out@.len(),
                x == (name@, count),
                forall|k: int| 0 <= k < p ==> ranks_before(#[trigger] row_views(out@)[k], x),
            decreases out@.len() - p,
        {
            proof {
                assert(row_views(out@)[p as int] == (out@[p as int].0@, out@[p as int].1));
            }
            p = p + 1;
        }
        let ghost before = row_views(out@);
        let ghost out0 = out@;
        out.insert(p, (owned(name), count));
        proof {
            assert(row_views(out@) =~= before.insert(p as int, x));
            vstd::seq_lib::to_multiset_insert(before, p as int, x);
            assert(all.take(i + 1) =~= all.take(i as int).push(x));
            vstd::seq_lib::to_multiset_build(all.take(i as int), x);
            // The new name differs from every earlier one.
            assert forall|k: int| 0 <= k < before.len() implies before[k].0 != x.0 by {
                let t = choose|t: int| 0 <= t < i && #[trigger] out0[k].0@ == entries@[t].0@;
                assert(seq_lt(entries@[t].0@, entries@[i as int].0@));
                crate::strmap::lemma_seq_lt_irreflexive(x.0);
            }
            if p < before.len() {
                let y = before[p as int];
                assert(!ranks_before(y, x));
                assert(y.0 != x.0);
                if y.1 == x.1 {
                    crate::strmap::lemma_seq_lt_total(y.0, x.0);
                }
                assert(ranks_before(x, y));
            }
            let s = row_views(out@);
            assert forall|a: int, b: int| 0 <= a < b < s.len() implies ranks_before(#[trigger] s[a], #[trigger] s[b]) by {
                if b < p {
                    assert(ranks_before(before[a], before[b]));
                } else if b == p {
                    assert(ranks_before(before[a], x));
                } else if a < p {
                    assert(ranks_before(before[a], before[b - 1]));
                } else if a == p {
                    assert(ranks_before(x, before[p as int]));
                    if b - 1 > p {
                        assert(ranks_before(before[p as int], before[b - 1]));
                        lemma_ranks_transitive(x, before[p as int], before[b - 1]);
                    }
                } else {
                    assert(ranks_before(before[a - 1], before[b - 1]));
                }
            }
            assert forall|k: int| 0 <= k < out@.len() implies exists|t: int| 0 <= t < i + 1 && #[trigger] out@[k].0@ == entries@[t].0@ by {
                if k < p {
                    assert(out@[k] == out0[k]);
                    let t = choose|t: int| 0 <= t < i && #[trigger] out0[k].0@ == entries@[t].0@;
                } else if k == p {
                    assert(out@[k].0@ == entries@[i as int].0@);
                } else {
                    assert(out@[k] == out0[k - 1]);
                    let t = choose|t: int| 0 <= t < i && #[trigger] out0[k - 1].0@ == entries@[t].0@;
                }
            }
        }
        i = i + 1;
    }
    proof {
        assert(all.take(i as int) =~= all);
    }
    out
}

/// Whether row `(a_name, a_count)` ranks before `(b_name, b_count)`.
fn ranks_before_exec(a_name: &str, a_count: u64, b_name: &str, b_count: u64) -> (r: bool)
    ensures
        r == ranks_before((a_name@, a_count), (b_name@, b_count)),
{
    a_count > b_count || (a_count == b_count && crate::text::str_lt(a_name, b_name))
}

/// The ranking order is transitive.
pub proof fn lemma_ranks_transitive(a: (Seq<char>, u64), b: (Seq<char>, u64), c: (Seq<char>, u64))
    requires
        ranks_before(a, b),
        ranks_before(b, c),
    ensures
        ranks_before(a, c),
{
    if a.1 == b.1 && b.1 == c.1 {
        crate::strmap::lemma_seq_lt_transitive(a.0, b.0, c.0);
    }
}

// ── Searches ────────────────────────────────────────────────────────────────

/// How many more candidates a search fetches than it returns, to leave room
/// for filtering.
pub const SEARCH_FETCH_LIMIT_MULTIPLIER: u64 = 3;

/// The number of candidates fetched for `limit` results (saturating).
pub fn fetch_limit(limit: u64) -> (n: u64)
    ensures
        n == if limit * SEARCH_FETCH_LIMIT_MULTIPLIER > u64::MAX { u64::MAX } else { (limit * SEARCH_FETCH_LIMIT_MULTIPLIER) as u64 },
{
    match limit.checked_mul(SEARCH_FETCH_LIMIT_MULTIPLIER) {
        Some(n) => n,
        None => u64::MAX,
    }
}

/// How a site filter restricts a query.
#[derive(Debug, Clone, Copy, PartialEq, Eq, Structural)]
pub enum SiteFilterShape {
    /// No filter: every site.
    AllSites,
    /// The one site must match.
    MustMatch,
    /// Any of the sites may match.
    AnyOf,
}

/// The filter shape for a list of `n` sites.
pub fn site_filter_shape(n: usize) -> (s: SiteFilterShape)
    ensures
        s == if n == 0 { SiteFilterShape::AllSites } else if n == 1 { SiteFilterShape::MustMatch } else { SiteFilterShape::AnyOf },
{
    if n == 0 {
        SiteFilterShape::AllSites
    } else if n == 1 {
        SiteFilterShape::MustMatch
    } else {
        SiteFilterShape::AnyOf
    }
}

/// The image URL of a result: the direct URL, or the thumbnail when that is
/// empty.
pub fn image_url_or_thumbnail(direct: &str, thumbnail: &str) -> (s: String)
    ensures
        s@ == if direct@.len() == 0 { thumbnail@ } else { direct@ },
{
    if direct.is_empty() {
        owned(thumbnail)
    } else {
        owned(direct)
    }
}

/// The results that are not the post `target` itself, in order: a
/// similarity search leaves out the post it started from.
pub fn drop_post<T>(items: Vec<(u64, T)>, target: u64) -> (r: Vec<(u64, T)>)
    ensures
        r@ == items@.filter(|e: (u64, T)| e.0 != target),
{
    let ghost all = items@;
    let ghost f = |e: (u64, T)| e.0 != target;
    let n = items.len();
    let mut rest = items;
    let mut out: Vec<(u64, T)> = Vec::new();
    let mut i: usize = 0;
    assert(all.take(0).filter(f) =~= Seq::<(u64, T)>::empty());
    while i < n
        invariant
            i <= n,
            n == all.len(),
            rest@ == all.skip(i as int),
            out@ == all.take(i as int).filter(f),
            f == (|e: (u64, T)| e.0 != target),
        decreases n - i,
    {
        let e = rest.remove(0);
        assert(e == all[i as int]);
        assert(rest@ =~= all.skip(i + 1));
        assert(all.take(i + 1).drop_last() =~= all.take(i as int));
        reveal_with_fuel(Seq::filter, 1);
        if e.0 != target {
            out.push(e);
        }
        i += 1;
    }
    assert(all.take(n as int) =~= all);
    out
}

} // verus!
