//! Site distribution, ingestion activity and per-site metadata, tallied from
//! the payloads that the application scrolls out of the vector store.
use vstd::prelude::*;

use crate::strmap::StrMap;
use crate::text::{owned, append_str, append_u64, decimal};

verus! {

// ── Site distribution ───────────────────────────────────────────────────────

/// How the indexed points are distributed over sites.
pub struct SiteDistribution {
    pub total_points: u64,
    pub per_site: StrMap<u64>,
    pub missing_site_payload: u64,
}

/// The site a payload value counts for: a non-empty name, or none.
pub open spec fn site_key(v: Option<Seq<char>>) -> Option<Seq<char>> {
    match v {
        Some(s) => if s.len() > 0 { Some(s) } else { None },
        None => None,
    }
}

/// The views of optional strings.
pub open spec fn opt_strs(v: Seq<Option<String>>) -> Seq<Option<Seq<char>>> {
    Seq::new(v.len(), |i: int| match v[i] { Some(s) => Some(s@), None => None })
}

/// How many payload values count for `site`.
pub open spec fn count_site(vals: Seq<Option<Seq<char>>>, site: Seq<char>) -> nat
    decreases vals.len(),
{
    if vals.len() == 0 {
        0
    } else {
        count_site(vals.drop_last(), site) + if site_key(vals.last()) == Some(site) { 1nat } else { 0nat }
    }
}

/// How many payload values name no site.
pub open spec fn count_missing(vals: Seq<Option<Seq<char>>>) -> nat
    decreases vals.len(),
{
    if vals.len() == 0 {
        0
    } else {
        count_missing(vals.drop_last()) + if site_key(vals.last()) is None { 1nat } else { 0nat }
    }
}

/// The value of `k` in a count map, 0 when absent.
pub open spec fn count_of(m: Map<Seq<char>, u64>, k: Seq<char>) -> int {
    if m.contains_key(k) { m[k] as int } else { 0 }
}

/// The per-site counts after tallying `vals` onto `m`.
pub open spec fn tallied(m: Map<Seq<char>, u64>, vals: Seq<Option<Seq<char>>>) -> Map<Seq<char>, u64>
    decreases vals.len(),
{
    if vals.len() == 0 {
        m
    } else {
        let prev = tallied(m, vals.drop_last());
        match site_key(vals.last()) {
            Some(s) => prev.insert(s, (count_of(prev, s) + 1) as u64),
            None => prev,
        }
    }
}

impl SiteDistribution {
    /// No points counted.
    pub fn empty() -> (d: Self)
        ensures
            d.total_points == 0,
            d.missing_site_payload == 0,
            d.per_site@ == Map::<Seq<char>, u64>::empty(),
    {
        SiteDistribution { total_points: 0, per_site: StrMap::new(), missing_site_payload: 0 }
    }

    /// Count one page of points by their `site` payload value: every point
    /// adds to the total, and to its site's count when the site is a
    /// non-empty string, else to the missing count.
    pub fn tally_sites(&mut self, sites: &Vec<Option<String>>)
        requires
            old(self).total_points + sites@.len() <= u64::MAX,
            old(self).missing_site_payload + sites@.len() <= u64::MAX,
            forall|k: Seq<char>| #[trigger] old(self).per_site@.contains_key(k) ==> old(self).per_site@[k] + sites@.len() <= u64::MAX,
        ensures
            final(self).total_points == old(self).total_points + sites@.len(),
            final(self).missing_site_payload == old(self).missing_site_payload + count_missing(opt_strs(sites@)),
            final(self).per_site@ == tallied(old(self).per_site@, opt_strs(sites@)),
    {
        let ghost m0 = self.per_site@;
        let mut i: usize = 0;
        while i < sites.len()
            invariant
                i <= sites@.len(),
                old(self).total_points + sites@.len() <= u64::MAX,
                old(self).missing_site_payload + sites@.len() <= u64::MAX,
                forall|k: Seq<char>| #[trigger] m0.contains_key(k) ==> m0[k] + sites@.len() <= u64::MAX,
                self.total_points == old(self).total_points + i,
                self.missing_site_payload == old(self).missing_site_payload + count_missing(opt_strs(sites@).take(i as int)),
                self.per_site@ == tallied(m0, opt_strs(sites@).take(i as int)),
                forall|k: Seq<char>| #[trigger] self.per_site@.contains_key(k) ==> count_of(self.per_site@, k) <= count_of(m0, k) + i,
            decreases sites@.len() - i,
        {
            let ghost vals = opt_strs(sites@);
            proof {
                assert(vals.take(i + 1).drop_last() =~= vals.take(i as int));
                lemma_count_missing_bound(vals.take(i as int));
            }
            self.total_points = self.total_points.saturating_add(1);
            match &sites[i] {
                Some(site) if !site.as_str().is_empty() => {
                    let ghost before = self.per_site@;
                    let current = match self.per_site.get(site.as_str()) {
                        Some(c) => *c,
                        None => 0,
                    };
                    self.per_site.insert(site.as_str(), current + 1);
                    proof {
                        assert(vals.take(i + 1).last() == Some(site@));
                        assert forall|k: Seq<char>| #[trigger] self.per_site@.contains_key(k) implies count_of(self.per_site@, k) <= count_of(m0, k) + i + 1 by {
                            if k != site@ {
                                assert(before.contains_key(k));
                            }
                        }
                    }
                },
                _ => {
                    self.missing_site_payload = self.missing_site_payload + 1;
                    proof {
                        assert(site_key(vals.take(i + 1).last()) is None);
                    }
                },
            }
            i = i + 1;
        }
        proof {
            assert(opt_strs(sites@).take(i as int) =~= opt_strs(sites@));
        }
    }
}

/// At most every value is missing.
pub proof fn lemma_count_missing_bound(vals: Seq<Option<Seq<char>>>)
    ensures
        count_missing(vals) <= vals.len(),
    decreases vals.len(),
{
    if vals.len() > 0 {
        lemma_count_missing_bound(vals.drop_last());
    }
}

/// Tallying from no counts gives each site the number of values that count
/// for it, and every value counts either for one site or as missing.
pub proof fn lemma_tally_counts(vals: Seq<Option<Seq<char>>>, site: Seq<char>)
    requires
        vals.len() <= u64::MAX,
    ensures
        count_of(tallied(Map::empty(), vals), site) == count_site(vals, site),
        site_key(Some(site)) is Some ==> count_site(vals, site) + count_missing(vals) <= vals.len(),
    decreases vals.len(),
{
    if vals.len() > 0 {
        lemma_tally_counts(vals.drop_last(), site);
    }
}

/// The sum of the counts of `keys` in a count map.
pub open spec fn sum_counts(m: Map<Seq<char>, u64>, keys: Set<Seq<char>>) -> int
    decreases keys.len(),
    when keys.finite()
{
    if keys.len() == 0 {
        0
    } else {
        let k = keys.choose();
        count_of(m, k) + sum_counts(m, keys.remove(k))
    }
}

/// The sum of all counts of a count map.
pub open spec fn total_of(m: Map<Seq<char>, u64>) -> int {
    sum_counts(m, m.dom())
}

/// Any key of the set can be taken out of the sum first.
proof fn lemma_sum_remove(m: Map<Seq<char>, u64>, keys: Set<Seq<char>>, k: Seq<char>)
    requires
        keys.finite(),
        keys.contains(k),
    ensures
        sum_counts(m, keys) == count_of(m, k) + sum_counts(m, keys.remove(k)),
    decreases keys.len(),
{
    let c = keys.choose();
    if c != k {
        assert(keys.remove(c).contains(k));
        lemma_sum_remove(m, keys.remove(c), k);
        assert(keys.remove(k).contains(c));
        lemma_sum_remove(m, keys.remove(k), c);
        assert(keys.remove(c).remove(k) =~= keys.remove(k).remove(c));
    }
}

/// Maps that agree on the counts of `keys` have the same sum over them.
proof fn lemma_sum_agree(m1: Map<Seq<char>, u64>, m2: Map<Seq<char>, u64>, keys: Set<Seq<char>>)
    requires
        keys.finite(),
        forall|k: Seq<char>| keys.contains(k) ==> count_of(m1, k) == count_of(m2, k),
    ensures
        sum_counts(m1, keys) == sum_counts(m2, keys),
    decreases keys.len(),
{
    if keys.len() > 0 {
        let c = keys.choose();
        lemma_sum_agree(m1, m2, keys.remove(c));
    }
}

/// Tallying from no counts, the per-site counts and the missing count add up
/// to the number of values: every point counts once, for its site or as
/// missing.
pub proof fn lemma_tally_total(vals: Seq<Option<Seq<char>>>)
    requires
        vals.len() <= u64::MAX,
    ensures
        tallied(Map::empty(), vals).dom().finite(),
        total_of(tallied(Map::empty(), vals)) + count_missing(vals) == vals.len(),
    decreases vals.len(),
{
    if vals.len() == 0 {
        assert(Map::<Seq<char>, u64>::empty().dom() =~= Set::<Seq<char>>::empty());
    } else {
        let rest = vals.drop_last();
        lemma_tally_total(rest);
        let prev = tallied(Map::empty(), rest);
        let d = prev.dom();
        match site_key(vals.last()) {
            Some(s) => {
                lemma_tally_counts(rest, s);
                let next = prev.insert(s, (count_of(prev, s) + 1) as u64);
                assert(count_of(next, s) == count_of(prev, s) + 1);
                if d.contains(s) {
                    assert(next.dom() =~= d);
                    lemma_sum_remove(prev, d, s);
                    lemma_sum_remove(next, d, s);
                    lemma_sum_agree(prev, next, d.remove(s));
                } else {
                    assert(next.dom() =~= d.insert(s));
                    assert(d.insert(s).remove(s) =~= d);
                    lemma_sum_remove(next, d.insert(s), s);
                    lemma_sum_agree(prev, next, d);
                    assert(count_of(prev, s) == 0);
                }
            },
            None => {},
        }
    }
}

/// Tallying page by page gives the counts of tallying all the values at
/// once.
pub proof fn lemma_tally_pages(m: Map<Seq<char>, u64>, a: Seq<Option<Seq<char>>>, b: Seq<Option<Seq<char>>>)
    ensures
        tallied(tallied(m, a), b) == tallied(m, a + b),
        count_missing(a) + count_missing(b) == count_missing(a + b),
    decreases b.len(),
{
    if b.len() == 0 {
        assert(a + b =~= a);
    } else {
        lemma_tally_pages(m, a, b.drop_last());
        assert((a + b).drop_last() =~= a + b.drop_last());
        assert((a + b).last() == b.last());
    }
}

// ── Site namespaces ─────────────────────────────────────────────────────────

/// The point-ID namespace of each site.
pub open spec fn spec_site_namespaces() -> Map<Seq<char>, u64> {
    map![
        "rule34"@ => 1u64,
        "e621"@ => 2u64,
        "safebooru"@ => 3u64,
        "gelbooru"@ => 4u64,
        "danbooru"@ => 5u64,
        "xbooru"@ => 6u64,
        "kemono"@ => 7u64,
        "aibooru"@ => 8u64,
        "e6ai"@ => 9u64,
        "konachan"@ => 10u64,
        "yandere"@ => 11u64,
        "civitai"@ => 12u64,
    ]
}

/// Map site names to their point-ID namespaces.
pub fn site_namespace_map() -> (m: StrMap<u64>)
    ensures
        m@ == spec_site_namespaces(),
{
    let mut m: StrMap<u64> = StrMap::new();
    m.insert("rule34", 1);
    m.insert("e621", 2);
    m.insert("safebooru", 3);
    m.insert("gelbooru", 4);
    m.insert("danbooru", 5);
    m.insert("xbooru", 6);
    m.insert("kemono", 7);
    m.insert("aibooru", 8);
    m.insert("e6ai", 9);
    m.insert("konachan", 10);
    m.insert("yandere", 11);
    m.insert("civitai", 12);
    assert(m@ =~= spec_site_namespaces());
    m
}

// ── Calendar dates ──────────────────────────────────────────────────────────

/// Gregorian leap years.
pub open spec fn is_leap(year: int) -> bool {
    (year % 4 == 0 && year % 100 != 0) || year % 400 == 0
}

/// Whether `year` is a leap year in the Gregorian calendar.
#[verifier::spinoff_prover]
pub fn is_leap_year(year: i64) -> (b: bool)
    ensures
        b == is_leap(year as int),
{
    (year % 4 == 0 && year % 100 != 0) || year % 400 == 0
}

/// Days in a year.
pub open spec fn year_length(year: int) -> int {
    if is_leap(year) { 366 } else { 365 }
}

/// Days in month `m` (0 = January).
pub open spec fn month_length(leap: bool, m: int) -> int {
    if m == 1 {
        if leap { 29 } else { 28 }
    } else if m == 3 || m == 5 || m == 8 || m == 10 {
        30
    } else {
        31
    }
}

/// The Gregorian month lengths, January (0) to December (11): April, June,
/// September and November have 30 days, February 28 (29 in a leap year),
/// the others 31.
pub proof fn lemma_gregorian_months(leap: bool)
    ensures
        month_length(leap, 0) == 31,
        month_length(leap, 1) == (if leap { 29int } else { 28int }),
        month_length(leap, 2) == 31,
        month_length(leap, 3) == 30,
        month_length(leap, 4) == 31,
        month_length(leap, 5) == 30,
        month_length(leap, 6) == 31,
        month_length(leap, 7) == 31,
        month_length(leap, 8) == 30,
        month_length(leap, 9) == 31,
        month_length(leap, 10) == 30,
        month_length(leap, 11) == 31,
{
}

/// The year and the day within it (from 0) of day `d` counted from
/// 1 January of `year`.
pub open spec fn year_and_day(d: nat, year: int) -> (int, nat)
    decreases d,
{
    if d < year_length(year) {
        (year, d)
    } else {
        year_and_day((d - year_length(year)) as nat, year + 1)
    }
}

/// The month (from 0) and the day within it (from 0) of day `d` of a year,
/// counting from month `m`.
pub open spec fn month_and_day(d: nat, leap: bool, m: int) -> (int, nat)
    decreases 12 - m,
{
    if m >= 11 || d < month_length(leap, m) {
        (m, d)
    } else {
        month_and_day((d - month_length(leap, m)) as nat, leap, m + 1)
    }
}

/// The days of a year before month `m` (from 0).
pub open spec fn days_before(leap: bool, m: nat) -> int
    decreases m,
{
    if m == 0 {
        0
    } else {
        days_before(leap, (m - 1) as nat) + month_length(leap, m - 1)
    }
}

proof fn lemma_month_and_day_from(d: nat, leap: bool, m0: nat)
    requires
        m0 <= 11,
        days_before(leap, m0) + d < days_before(leap, 12),
    ensures
        m0 <= month_and_day(d, leap, m0 as int).0 <= 11,
        month_and_day(d, leap, m0 as int).1 < month_length(leap, month_and_day(d, leap, m0 as int).0),
        days_before(leap, m0) + d == days_before(leap, month_and_day(d, leap, m0 as int).0 as nat)
            + month_and_day(d, leap, m0 as int).1,
    decreases 12 - m0,
{
    if m0 >= 11 {
        assert(days_before(leap, 12) == days_before(leap, 11) + month_length(leap, 11));
    } else if d >= month_length(leap, m0 as int) {
        let next = (d - month_length(leap, m0 as int)) as nat;
        assert(days_before(leap, m0 + 1) == days_before(leap, m0) + month_length(leap, m0 as int));
        lemma_month_and_day_from(next, leap, m0 + 1);
    }
}

/// Every day of a year falls on a real calendar date: day `d` (from 0) of a
/// year of 365 days, or 366 in a leap year, is day `dd` (from 0) of month
/// `m`, with `dd` below the length of that month and `d` the days of the
/// months before `m` plus `dd`.
pub proof fn lemma_day_of_year_is_a_date(d: nat, leap: bool)
    requires
        d < (if leap { 366int } else { 365int }),
    ensures
        0 <= month_and_day(d, leap, 0).0 <= 11,
        month_and_day(d, leap, 0).1 < month_length(leap, month_and_day(d, leap, 0).0),
        d == days_before(leap, month_and_day(d, leap, 0).0 as nat) + month_and_day(d, leap, 0).1,
{
    reveal_with_fuel(days_before, 13);
    lemma_gregorian_months(leap);
    assert(days_before(leap, 12) == (if leap { 366int } else { 365int }));
    lemma_month_and_day_from(d, leap, 0);
}

/// `n` in decimal, left-padded with zeros to `width` digits.
pub open spec fn zero_padded(n: nat, width: nat) -> Seq<char> {
    let digits = decimal(n);
    if digits.len() >= width {
        digits
    } else {
        Seq::new((width - digits.len()) as nat, |i: int| '0') + digits
    }
}

/// The `YYYY-MM-DD` date (UTC) of a Unix timestamp; negative timestamps
/// read as 0.
pub open spec fn spec_date(ts: i64) -> Seq<char> {
    let secs: nat = if ts < 0 { 0 } else { ts as nat };
    let (year, yd) = year_and_day(secs / 86400, 1970);
    let (month, md) = month_and_day(yd, is_leap(year), 0);
    zero_padded(year as nat, 4) + "-"@ + zero_padded((month + 1) as nat, 2) + "-"@ + zero_padded(
        md + 1,
        2,
    )
}

/// Append `n` in decimal, left-padded with zeros to `width` digits.
fn append_padded(s: &mut String, n: u64, width: usize)
    ensures
        final(s)@ == old(s)@ + zero_padded(n as nat, width as nat),
{
    let digits = crate::text::u64_to_string(n);
    let len = digits.as_str().unicode_len();
    let mut k: usize = len;
    let ghost start = s@;
    while k < width
        invariant
            len == decimal(n as nat).len(),
            len <= k,
            k <= width || k == len,
            s@ == start + Seq::new((k - len) as nat, |i: int| '0'),
        decreases width - k,
    {
        append_str(s, "0");
        proof {
            reveal_strlit("0");
            assert(Seq::new((k + 1 - len) as nat, |i: int| '0') =~= Seq::new((k - len) as nat, |i: int| '0').push('0'));
        }
        k = k + 1;
    }
    append_str(s, digits.as_str());
    proof {
        if len >= width {
            assert(Seq::new((k - len) as nat, |i: int| '0') =~= Seq::<char>::empty());
            assert(s@ =~= start + zero_padded(n as nat, width as nat));
        } else {
            assert(s@ =~= start + zero_padded(n as nat, width as nat));
        }
    }
}

/// Year length as executable code.
fn year_len(year: u64) -> (r: u64)
    requires
        year <= i64::MAX,
    ensures
        r == year_length(year as int),
{
    if is_leap_year(year as i64) { 366 } else { 365 }
}

/// Month length as executable code.
fn month_len(leap: bool, m: u64) -> (r: u64)
    ensures
        r == month_length(leap, m as int),
{
    if m == 1 {
        if leap { 29 } else { 28 }
    } else if m == 3 || m == 5 || m == 8 || m == 10 {
        30
    } else {
        31
    }
}

/// Convert a Unix timestamp to an ISO 8601 date (`YYYY-MM-DD`, UTC).
pub fn unix_ts_to_date(ts: i64) -> (s: String)
    ensures
        s@ == spec_date(ts),
{
    let secs: u64 = if ts < 0 { 0 } else { ts as u64 };
    let d0: u64 = secs / 86400;
    let mut days: u64 = d0;
    let mut year: u64 = 1970;
    while days >= year_len(year)
        invariant
            days <= d0,
            d0 <= u64::MAX / 86400,
            1970 <= year <= 1970 + (d0 - days),
            year_and_day(d0 as nat, 1970) == year_and_day(days as nat, year as int),
        decreases days,
    {
        days = days - year_len(year);
        year = year + 1;
    }
    let leap = is_leap_year(year as i64);
    proof {
        assert(year_and_day(days as nat, year as int) == (year as int, days as nat));
    }
    let ghost yd = days;
    let mut month: u64 = 0;
    while month < 11 && days >= month_len(leap, month)
        invariant
            month <= 11,
            leap == is_leap(year as int),
            days <= yd,
            month_and_day(yd as nat, leap, 0) == month_and_day(days as nat, leap, month as int),
        decreases 11 - month,
    {
        days = days - month_len(leap, month);
        month = month + 1;
    }
    proof {
        assert(month_and_day(days as nat, leap, month as int) == (month as int, days as nat));
    }
    let mut out = String::new();
    append_padded(&mut out, year, 4);
    append_str(&mut out, "-");
    append_padded(&mut out, month + 1, 2);
    append_str(&mut out, "-");
    append_padded(&mut out, days + 1, 2);
    proof {
        assert(out@ =~= spec_date(ts));
    }
    out
}

// ── Activity ────────────────────────────────────────────────────────────────

/// The largest look-back window, in days, that activity is computed for.
pub const MAX_ACTIVITY_DAYS: u64 = 3650;

/// Seconds in a day.
pub const SECS_PER_DAY: i64 = 86400;

/// Whether activity is computed for a window of `days`: at least one day and
/// at most `MAX_ACTIVITY_DAYS`.
pub fn activity_window_ok(days: u64) -> (b: bool)
    ensures
        b <==> (days != 0 && days <= MAX_ACTIVITY_DAYS),
{
    days != 0 && days <= MAX_ACTIVITY_DAYS
}

/// The oldest ingestion timestamp counted: `days` days before `now`.
pub fn activity_cutoff(now: i64, days: u64) -> (c: i64)
    requires
        days <= MAX_ACTIVITY_DAYS,
        now >= i64::MIN + MAX_ACTIVITY_DAYS * 86400,
    ensures
        c == now - days * 86400,
{
    now - (days as i64) * SECS_PER_DAY
}

/// The keys of the empty activity buckets: the dates of `now`, `now - 1 day`,
/// …, `now - (days - 1) days`.
pub open spec fn bucket_dates(now: i64, days: nat) -> Set<Seq<char>> {
    Set::new(|k: Seq<char>| exists|i: int| 0 <= i < days && #[trigger] spec_date((now - i * 86400) as i64) == k)
}

/// One zero bucket per day of the window, keyed by date.
pub fn empty_activity(now: i64, days: u64) -> (m: StrMap<u64>)
    requires
        days <= MAX_ACTIVITY_DAYS,
        now >= i64::MIN + MAX_ACTIVITY_DAYS * 86400,
    ensures
        m@.dom() == bucket_dates(now, days as nat),
        forall|k: Seq<char>| #[trigger] m@.contains_key(k) ==> m@[k] == 0,
{
    let mut m: StrMap<u64> = StrMap::new();
    let mut j: u64 = 0;
    while j < days
        invariant
            j <= days,
            days <= MAX_ACTIVITY_DAYS,
            now >= i64::MIN + MAX_ACTIVITY_DAYS * 86400,
            forall|k: Seq<char>| #[trigger] m@.contains_key(k) ==> m@[k] == 0,
            forall|k: Seq<char>| #[trigger] m@.contains_key(k) <==> exists|i: int|
                days - j <= i < days && #[trigger] spec_date((now - i * 86400) as i64) == k,
        decreases days - j,
    {
        let i = days - 1 - j;
        let ts = now - (i as i64) * SECS_PER_DAY;
        let date = unix_ts_to_date(ts);
        let ghost before = m@;
        m.insert(date.as_str(), 0);
        proof {
            assert forall|k: Seq<char>| #[trigger] m@.contains_key(k) <==> exists|t: int|
                days - (j + 1) <= t < days && #[trigger] spec_date((now - t * 86400) as i64) == k by {
                if m@.contains_key(k) && k != date@ {
                    assert(before.contains_key(k));
                }
                if exists|t: int| days - (j + 1) <= t < days && #[trigger] spec_date((now - t * 86400) as i64) == k {
                    let t = choose|t: int| days - (j + 1) <= t < days && #[trigger] spec_date((now - t * 86400) as i64) == k;
                    if t != i {
                        assert(before.contains_key(k));
                    }
                }
            }
        }
        j = j + 1;
    }
    proof {
        assert(m@.dom() =~= bucket_dates(now, days as nat));
    }
    m
}

/// The activity counts after counting `stamps` at or after `cutoff`, each by
/// its date.
pub open spec fn activity_after(m: Map<Seq<char>, u64>, cutoff: i64, stamps: Seq<i64>) -> Map<Seq<char>, u64>
    decreases stamps.len(),
{
    if stamps.len() == 0 {
        m
    } else {
        let prev = activity_after(m, cutoff, stamps.drop_last());
        let t = stamps.last();
        if t >= cutoff {
            prev.insert(spec_date(t), (count_of(prev, spec_date(t)) + 1) as u64)
        } else {
            prev
        }
    }
}

/// Count a page of ingestion timestamps into the daily buckets.
pub fn tally_activity(m: &mut StrMap<u64>, cutoff: i64, stamps: &Vec<i64>)
    requires
        forall|k: Seq<char>| #[trigger] old(m)@.contains_key(k) ==> old(m)@[k] + stamps@.len() <= u64::MAX,
    ensures
        final(m)@ == activity_after(old(m)@, cutoff, stamps@),
{
    let ghost m0 = m@;
    let mut i: usize = 0;
    while i < stamps.len()
        invariant
            i <= stamps@.len(),
            forall|k: Seq<char>| #[trigger] m0.contains_key(k) ==> m0[k] + stamps@.len() <= u64::MAX,
            m@ == activity_after(m0, cutoff, stamps@.take(i as int)),
            forall|k: Seq<char>| #[trigger] m@.contains_key(k) ==> count_of(m@, k) <= count_of(m0, k) + i,
        decreases stamps@.len() - i,
    {
        let t = stamps[i];
        proof {
            assert(stamps@.take(i + 1).drop_last() =~= stamps@.take(i as int));
            assert(stamps@.take(i + 1).last() == t);
        }
        if t >= cutoff {
            let date = unix_ts_to_date(t);
            let ghost before = m@;
            let current = match m.get(date.as_str()) {
                Some(c) => *c,
                None => 0,
            };
            m.insert(date.as_str(), current + 1);
            proof {
                assert forall|k: Seq<char>| #[trigger] m@.contains_key(k) implies count_of(m@, k) <= count_of(m0, k) + i + 1 by {
                    if k != date@ {
                        assert(before.contains_key(k));
                    }
                }
            }
        }
        i = i + 1;
    }
    proof {
        assert(stamps@.take(i as int) =~= stamps@);
    }
}

// ── Per-site metadata ───────────────────────────────────────────────────────

/// Metadata about an indexed site.
pub struct SiteInfo {
    pub name: String,
    pub namespace: u64,
    pub count: u64,
    pub earliest_ingestion: i64,
    pub latest_ingestion: i64,
}

/// Count, earliest and latest ingestion timestamp of a site so far.
pub type SiteTally = StrMap<(u64, i64, i64)>;

/// The tally after one point of `site` ingested at `t`; points without a
/// site are skipped.
pub open spec fn tally_step(m: Map<Seq<char>, (u64, i64, i64)>, site: Seq<char>, t: i64) -> Map<
    Seq<char>,
    (u64, i64, i64),
> {
    if site.len() == 0 {
        m
    } else {
        let (c, lo, hi) = if m.contains_key(site) { m[site] } else { (0u64, i64::MAX, i64::MIN) };
        m.insert(
            site,
            ((c + 1) as u64, if t < lo { t } else { lo }, if t > hi { t } else { hi }),
        )
    }
}

/// The tally after a page of (site, ingestion timestamp) points.
pub open spec fn site_tally_after(m: Map<Seq<char>, (u64, i64, i64)>, points: Seq<(Seq<char>, i64)>) -> Map<
    Seq<char>,
    (u64, i64, i64),
>
    decreases points.len(),
{
    if points.len() == 0 {
        m
    } else {
        let p = points.last();
        tally_step(site_tally_after(m, points.drop_last()), p.0, p.1)
    }
}

/// The views of (site, timestamp) pairs.
pub open spec fn point_views(v: Seq<(String, i64)>) -> Seq<(Seq<char>, i64)> {
    Seq::new(v.len(), |i: int| (v[i].0@, v[i].1))
}

/// Count a page of points into the per-site tally.
pub fn tally_site_info(m: &mut SiteTally, points: &Vec<(String, i64)>)
    requires
        forall|k: Seq<char>| #[trigger] old(m)@.contains_key(k) ==> old(m)@[k].0 + points@.len() <= u64::MAX,
    ensures
        final(m)@ == site_tally_after(old(m)@, point_views(points@)),
{
    let ghost m0 = m@;
    let mut i: usize = 0;
    while i < points.len()
        invariant
            i <= points@.len(),
            forall|k: Seq<char>| #[trigger] m0.contains_key(k) ==> m0[k].0 + points@.len() <= u64::MAX,
            m@ == site_tally_after(m0, point_views(points@).take(i as int)),
            forall|k: Seq<char>| #[trigger] m@.contains_key(k) ==> m@[k].0 <= (if m0.contains_key(k) { m0[k].0 as int } else { 0 }) + i,
        decreases points@.len() - i,
    {
        let (site, t) = (&points[i].0, points[i].1);
        proof {
            let pv = point_views(points@);
            assert(pv.take(i + 1).drop_last() =~= pv.take(i as int));
            assert(pv.take(i + 1).last() == (site@, t));
        }
        if !site.as_str().is_empty() {
            let ghost before = m@;
            let (c, lo, hi) = match m.get(site.as_str()) {
                Some(e) => *e,
                None => (0u64, i64::MAX, i64::MIN),
            };
            let lo2 = if t < lo { t } else { lo };
            let hi2 = if t > hi { t } else { hi };
            m.insert(site.as_str(), (c + 1, lo2, hi2));
            proof {
                assert forall|k: Seq<char>| #[trigger] m@.contains_key(k) implies m@[k].0 <= (if m0.contains_key(k) { m0[k].0 as int } else { 0 }) + i + 1 by {
                    if k != site@ {
                        assert(before.contains_key(k));
                    }
                }
            }
        }
        i = i + 1;
    }
    proof {
        assert(point_views(points@).take(i as int) =~= point_views(points@));
    }
}

/// The site list: one entry per tallied site, in name order, with its
/// namespace (0 for an unknown site).
pub fn site_infos(m: &SiteTally) -> (r: Vec<SiteInfo>)
    ensures
        r@.len() == m@.dom().len(),
        forall|i: int| 0 <= i < r@.len() ==> {
            let e = #[trigger] r@[i];
            &&& m@.contains_key(e.name@)
            &&& e.count == m@[e.name@].0
            &&& e.earliest_ingestion == m@[e.name@].1
            &&& e.latest_ingestion == m@[e.name@].2
            &&& e.namespace == count_of(spec_site_namespaces(), e.name@)
        },
        forall|i: int, j: int| 0 <= i < j < r@.len() ==> crate::text::seq_lt(#[trigger] r@[i].name@, #[trigger] r@[j].name@),
{
    let namespaces = site_namespace_map();
    let entries = m.entries();
    let mut out: Vec<SiteInfo> = Vec::new();
    let mut i: usize = 0;
    assert forall|k: int| 0 <= k < entries@.len() implies #[trigger] m@.contains_key(entries@[k].0@) && m@[entries@[k].0@] == entries@[k].1 by {
        assert(m@.contains_key(entries@[k].0@));
    }
    while i < entries.len()
        invariant
            i <= entries@.len(),
            namespaces@ == spec_site_namespaces(),
            entries@.len() == m@.dom().len(),
            forall|k: int| 0 <= k < entries@.len() ==> #[trigger] m@.contains_key(entries@[k].0@) && m@[entries@[k].0@] == entries@[k].1,
            forall|a: int, b: int| 0 <= a < b < entries@.len() ==> crate::text::seq_lt(#[trigger] entries@[a].0@, #[trigger] entries@[b].0@),
            out@.len() == i,
            forall|k: int| 0 <= k < i ==> (#[trigger] out@[k]).name@ == entries@[k].0@,
            forall|k: int| 0 <= k < i ==> {
                let e = #[trigger] out@[k];
                &&& m@.contains_key(e.name@)
                &&& e.count == m@[e.name@].0
                &&& e.earliest_ingestion == m@[e.name@].1
                &&& e.latest_ingestion == m@[e.name@].2
                &&& e.namespace == count_of(spec_site_namespaces(), e.name@)
            },
        decreases entries@.len() - i,
    {
        let (name, (count, earliest, latest)) = (&entries[i].0, entries[i].1);
        let namespace = match namespaces.get(name.as_str()) {
            Some(n) => *n,
            None => 0,
        };
        out.push(SiteInfo {
            name: owned(name.as_str()),
            namespace,
            count,
            earliest_ingestion: earliest,
            latest_ingestion: latest,
        });
        proof {
            assert(m@.contains_key(entries@[i as int].0@));
        }
        i = i + 1;
    }
    out
}

} // verus!
