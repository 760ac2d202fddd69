use roobu::store::report::{
    fetch_limit, image_url_or_thumbnail, site_filter_shape, stats_rows, validate_stats_args, SiteFilterShape,
    StatsArgError,
};
use roobu::store::stats::{
    activity_cutoff, activity_window_ok, empty_activity, is_leap_year, site_infos, site_namespace_map,
    tally_activity, tally_site_info, unix_ts_to_date, SiteDistribution, SiteTally,
};
use roobu::strmap::StrMap;

fn site(s: &str) -> Option<String> {
    Some(s.to_string())
}

#[test]
fn site_counts_split_named_and_missing() {
    let mut dist = SiteDistribution::empty();
    dist.tally_sites(&vec![site("e621"), None, site("rule34"), site(""), site("e621")]);
    dist.tally_sites(&vec![site("kemono")]);
    assert_eq!(dist.total_points, 6);
    assert_eq!(dist.missing_site_payload, 2);
    assert_eq!(dist.per_site.get("e621"), Some(&2));
    assert_eq!(dist.per_site.get("rule34"), Some(&1));
    assert_eq!(dist.per_site.get("kemono"), Some(&1));
    assert_eq!(dist.per_site.len(), 3);
}

#[test]
fn namespace_map_matches_site_constants() {
    let m = site_namespace_map();
    assert_eq!(m.len(), 12);
    assert_eq!(m.get("rule34"), Some(&1));
    assert_eq!(m.get("kemono"), Some(&7));
    assert_eq!(m.get("civitai"), Some(&12));
    assert_eq!(m.get("unknown"), None);
}

#[test]
fn dates_follow_the_gregorian_calendar() {
    assert_eq!(unix_ts_to_date(0), "1970-01-01");
    assert_eq!(unix_ts_to_date(-5), "1970-01-01");
    assert_eq!(unix_ts_to_date(86_399), "1970-01-01");
    assert_eq!(unix_ts_to_date(31_536_000), "1971-01-01");
    assert_eq!(unix_ts_to_date(951_782_400), "2000-02-29");
    assert_eq!(unix_ts_to_date(1_709_164_800), "2024-02-29");
    assert_eq!(unix_ts_to_date(1_735_689_599), "2024-12-31");
    assert!(is_leap_year(2000));
    assert!(!is_leap_year(1900));
    assert!(is_leap_year(2024));
    assert!(!is_leap_year(2023));
}

#[test]
fn activity_buckets_count_recent_days() {
    assert!(activity_window_ok(1));
    assert!(activity_window_ok(3650));
    assert!(!activity_window_ok(0));
    assert!(!activity_window_ok(3651));
    let now = 3 * 86_400;
    let mut m = empty_activity(now, 3);
    let keys: Vec<String> = m.entries().iter().map(|(k, _)| k.clone()).collect();
    assert_eq!(keys, vec!["1970-01-02", "1970-01-03", "1970-01-04"]);
    let cutoff = activity_cutoff(now, 3);
    assert_eq!(cutoff, 0);
    tally_activity(&mut m, cutoff, &vec![now + 5, 86_400, -5]);
    assert_eq!(m.get("1970-01-04"), Some(&1));
    assert_eq!(m.get("1970-01-02"), Some(&1));
    assert_eq!(m.get("1970-01-03"), Some(&0));
}

#[test]
fn site_infos_track_count_and_range() {
    let mut t: SiteTally = StrMap::new();
    tally_site_info(&mut t, &vec![("e621".to_string(), 50), ("".to_string(), 1), ("e621".to_string(), 10), ("mystery".to_string(), 7)]);
    let infos = site_infos(&t);
    assert_eq!(infos.len(), 2);
    assert_eq!(infos[0].name, "e621");
    assert_eq!((infos[0].namespace, infos[0].count, infos[0].earliest_ingestion, infos[0].latest_ingestion), (2, 2, 10, 50));
    assert_eq!(infos[1].name, "mystery");
    assert_eq!(infos[1].namespace, 0);
}

#[test]
fn stats_rows_rank_by_count_then_name() {
    let mut dist = SiteDistribution::empty();
    dist.tally_sites(&vec![site("b"), site("a"), site("c"), site("c"), site("a"), site("d")]);
    let rows = stats_rows(&dist);
    let view: Vec<(&str, u64)> = rows.iter().map(|(n, c)| (n.as_str(), *c)).collect();
    assert_eq!(view, vec![("a", 2), ("c", 2), ("b", 1), ("d", 1)]);
    assert_eq!(validate_stats_args(0, 10), Err(StatsArgError::PageSize));
    assert_eq!(validate_stats_args(10, 0), Err(StatsArgError::Width));
    assert_eq!(validate_stats_args(10, 10), Ok(()));
}

#[test]
fn search_helpers() {
    assert_eq!(fetch_limit(10), 30);
    assert_eq!(fetch_limit(u64::MAX), u64::MAX);
    assert_eq!(site_filter_shape(0), SiteFilterShape::AllSites);
    assert_eq!(site_filter_shape(1), SiteFilterShape::MustMatch);
    assert_eq!(site_filter_shape(3), SiteFilterShape::AnyOf);
    assert_eq!(image_url_or_thumbnail("", "t.jpg"), "t.jpg");
    assert_eq!(image_url_or_thumbnail("d.jpg", "t.jpg"), "d.jpg");
}
