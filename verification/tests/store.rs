use roobu::store::report::drop_post;
use roobu::store::scan::{PageScan, split_page};
use roobu::checkpoint::{get, CheckpointMap};
use roobu::store::schema::{decode_point_id, encode_point_id};

#[test]
fn checkpoint_get_and_set_are_site_scoped() {
    let mut map = CheckpointMap::new();
    roobu::checkpoint::set(&mut map, "rule34", 100);
    roobu::checkpoint::set(&mut map, "e621", 200);

    assert_eq!(get(&map, "rule34"), 100);
    assert_eq!(get(&map, "e621"), 200);
    assert_eq!(get(&map, "missing"), 0);
}

#[test]
fn store_point_id_roundtrip_preserves_site_and_post_id() {
    let encoded = encode_point_id(2, 6_290_764);
    let (site_ns, post_id) = decode_point_id(encoded);
    assert_eq!(site_ns, 2);
    assert_eq!(post_id, 6_290_764);
}

#[test]
fn store_different_site_namespaces_produce_unique_ids() {
    let rule34 = encode_point_id(1, 42);
    let e621 = encode_point_id(2, 42);
    assert_ne!(rule34, e621);
}

#[test]
fn schema_point_id_roundtrip_preserves_site_and_post_id() {
    let encoded = encode_point_id(2, 6_290_764);
    let (site_ns, post_id) = decode_point_id(encoded);
    assert_eq!(site_ns, 2);
    assert_eq!(post_id, 6_290_764);
}

#[test]
fn schema_different_site_namespaces_produce_unique_ids() {
    let rule34 = encode_point_id(1, 42);
    let e621 = encode_point_id(2, 42);
    assert_ne!(rule34, e621);
}

#[test]
fn page_scan_skips_offset_and_stops_when_enough() {
    let mut scan: PageScan<u32> = PageScan::new(2, 3);
    assert_eq!(scan.next_request(100), 3);
    assert!(!scan.take_page(vec![Some(1), None, Some(3), None]));
    assert!(!scan.done());
    assert_eq!(scan.next_request(100), 2);
    assert_eq!(scan.next_request(1), 1);
    assert!(scan.take_page(vec![Some(4), Some(5), Some(6), Some(7)]));
    assert!(scan.done());
    assert_eq!(scan.into_kept(), vec![3, 4, 5]);
}

#[test]
fn page_scan_without_offset_keeps_readable_points() {
    let mut scan: PageScan<&str> = PageScan::new(0, 10);
    assert!(!scan.take_page(vec![None, Some("a"), None, Some("b")]));
    assert!(!scan.take_page(Vec::new()));
    assert_eq!(scan.into_kept(), vec!["a", "b"]);
}

#[test]
fn split_page_reports_more_only_past_the_limit() {
    assert_eq!(split_page(vec![1, 2, 3], 2), (vec![1, 2], true));
    assert_eq!(split_page(vec![1, 2], 2), (vec![1, 2], false));
    assert_eq!(split_page(Vec::<u8>::new(), 0), (Vec::new(), false));
    assert_eq!(split_page(vec![9], 0), (Vec::new(), true));
}

#[test]
fn setting_a_site_adds_an_entry_only_once() {
    let mut map = CheckpointMap::new();
    roobu::checkpoint::set(&mut map, "rule34", 1);
    assert_eq!(map.len(), 1);
    roobu::checkpoint::set(&mut map, "e621", 2);
    assert_eq!(map.len(), 2);
    roobu::checkpoint::set(&mut map, "rule34", 3);
    assert_eq!(map.len(), 2);
    assert_eq!(get(&map, "rule34"), 3);
    assert_eq!(get(&map, "e621"), 2);
}

#[test]
fn similar_results_leave_out_the_target_post() {
    let found = vec![(7u64, "a"), (3, "b"), (7, "c"), (9, "d")];
    assert_eq!(drop_post(found, 7), vec![(3, "b"), (9, "d")]);
    assert_eq!(drop_post(vec![(1u64, 'x')], 2), vec![(1, 'x')]);
    assert_eq!(drop_post(Vec::<(u64, u8)>::new(), 2), Vec::new());
}
