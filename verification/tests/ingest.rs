use roobu::checkpoint::{get, CheckpointMap};
use roobu::ingest::cycle::{
    advance_checkpoint, batch_count, check_cycle_config, fetch_timeout_secs, into_batches, newest_id,
    post_record, queue_depth, skipped_count, CycleConfigError, CycleStats, IngestConfig, UpsertTotals,
    finish_batch, plan_cycle, CyclePlan,
};
use roobu::ingest::plan::build_all_sites_clients;
use roobu::sites::{Post, SiteClient, SiteCredentials};

fn no_credentials() -> SiteCredentials {
    SiteCredentials {
        rule34_api_key: None,
        rule34_user_id: None,
        e621_login: None,
        e621_api_key: None,
        gelbooru_api_key: None,
        gelbooru_user_id: None,
        kemono_session: None,
        kemono_base_url: None,
    }
}

fn post(id: u64) -> Post {
    Post {
        id,
        tags: "a b".to_string(),
        thumbnail_url: format!("https://img.test/{id}.jpg"),
        direct_image_url: None,
        width: 100,
        height: 100,
        rating: "s".to_string(),
        site: "e621",
        site_namespace: 2,
        canonical_post_url: None,
    }
}

fn config(batch_size: usize, download_concurrency: usize, timeout: u64) -> IngestConfig {
    IngestConfig { poll_interval_secs: 60, batch_size, download_concurrency, site_fetch_timeout_secs: timeout }
}

#[test]
fn all_sites_mode_includes_e621_and_safebooru_without_rule34_credentials() {
    let (clients, skipped) = build_all_sites_clients(&no_credentials()).expect("all-sites clients should build");
    let site_names: Vec<&str> = clients.iter().map(|client| client.site_name()).collect();
    assert_eq!(site_names, vec!["e621", "safebooru", "xbooru", "kemono"]);
    assert!(skipped);
}

#[test]
fn all_sites_mode_includes_rule34_when_credentials_are_present() {
    let mut creds = no_credentials();
    creds.rule34_api_key = Some("api-key".to_string());
    creds.rule34_user_id = Some("user-id".to_string());
    let (clients, skipped) = build_all_sites_clients(&creds).expect("all-sites clients should build");
    let site_names: Vec<&str> = clients.iter().map(|client| client.site_name()).collect();
    assert_eq!(site_names, vec!["rule34", "e621", "safebooru", "xbooru", "kemono"]);
    assert!(!skipped);
}

#[test]
fn all_sites_mode_rejects_partial_rule34_credentials() {
    let mut creds = no_credentials();
    creds.rule34_api_key = Some("api-key".to_string());
    let err = build_all_sites_clients(&creds).err().expect("partial credentials are refused");
    assert_eq!(
        err.message(),
        "RULE34_API_KEY and RULE34_USER_ID must both be set to include rule34 in all-sites mode"
    );
}

#[test]
fn all_sites_mode_rejects_partial_e621_credentials() {
    let mut creds = no_credentials();
    creds.e621_login = Some("user".to_string());
    let err = build_all_sites_clients(&creds).err().expect("partial e621 credentials are refused");
    assert!(err.message().contains("both login and api key"));
}

#[test]
fn batches_split_in_order_with_short_tail() {
    let posts: Vec<Post> = (1..=7).map(post).collect();
    let batches = into_batches(posts, 3);
    let ids: Vec<Vec<u64>> = batches.iter().map(|b| b.iter().map(|p| p.id).collect()).collect();
    assert_eq!(ids, vec![vec![1, 2, 3], vec![4, 5, 6], vec![7]]);
    assert_eq!(batch_count(7, 3), 3);
    assert_eq!(batch_count(6, 3), 2);
    assert_eq!(batch_count(0, 3), 0);
    assert!(into_batches(Vec::new(), 4).is_empty());
}

#[test]
fn queue_depth_is_clamped() {
    assert_eq!(queue_depth(0), 1);
    assert_eq!(queue_depth(3), 3);
    assert_eq!(queue_depth(9), 4);
}

#[test]
fn cycle_config_checks_in_order() {
    assert_eq!(check_cycle_config(&config(0, 0, 5)), Err(CycleConfigError::ZeroBatchSize));
    assert_eq!(check_cycle_config(&config(8, 0, 5)), Err(CycleConfigError::ZeroDownloadConcurrency));
    assert_eq!(check_cycle_config(&config(8, 8, 5)), Ok(()));
    assert_eq!(CycleConfigError::ZeroBatchSize.message("e621"), "e621: batch size must be greater than 0");
    assert_eq!(fetch_timeout_secs(&config(8, 8, 0)), 1);
    assert_eq!(fetch_timeout_secs(&config(8, 8, 20)), 20);
}

#[test]
fn checkpoint_only_moves_forward() {
    let mut ckpt = CheckpointMap::new();
    let mut last = 10u64;
    assert!(!advance_checkpoint(&mut last, &mut ckpt, "e621", 9));
    assert_eq!(last, 10);
    assert_eq!(get(&ckpt, "e621"), 0);
    assert!(advance_checkpoint(&mut last, &mut ckpt, "e621", 42));
    assert_eq!(last, 42);
    assert_eq!(get(&ckpt, "e621"), 42);
}

#[test]
fn newest_id_and_counts() {
    let posts = vec![post(5), post(17), post(3)];
    assert_eq!(newest_id(&posts), 17);
    assert_eq!(newest_id(&Vec::new()), 0);
    assert_eq!(skipped_count(8, 5), 3);
    let mut totals = UpsertTotals::new();
    totals.add_batch(5, 3);
    totals.add_batch(2, 0);
    assert_eq!((totals.valid_images, totals.skipped_images, totals.upserted_posts), (7, 3, 7));
    let stats = CycleStats::empty(2, 500);
    assert_eq!((stats.fetched_posts, stats.batch_count, stats.elapsed_secs, stats.elapsed_nanos), (0, 0, 2, 500));
}

#[test]
fn post_record_uses_site_url_and_thumbnail_fallback() {
    let record = post_record(&post(77), 1_700_000_000);
    assert_eq!(record.post_url, "https://e621.net/posts/77");
    assert_eq!(record.direct_image_url, "https://img.test/77.jpg");
    assert_eq!(record.ingestion_date, 1_700_000_000);
    assert_eq!(record.site_namespace, 2);
}

#[test]
fn cycle_plan_filters_checks_and_batches() {
    let mut no_thumb = post(9);
    no_thumb.thumbnail_url = String::new();
    assert!(matches!(plan_cycle(vec![no_thumb], &config(2, 1, 5)), CyclePlan::NoNewPosts));
    assert!(matches!(plan_cycle(Vec::new(), &config(0, 0, 5)), CyclePlan::NoNewPosts));
    assert!(matches!(
        plan_cycle(vec![post(1)], &config(0, 1, 5)),
        CyclePlan::Invalid(CycleConfigError::ZeroBatchSize)
    ));
    assert!(matches!(
        plan_cycle(vec![post(1)], &config(2, 0, 5)),
        CyclePlan::Invalid(CycleConfigError::ZeroDownloadConcurrency)
    ));
    let mut wide = post(4);
    wide.width = 1000;
    match plan_cycle(vec![post(1), post(2), wide, post(3), post(5), post(6)], &config(2, 1, 5)) {
        CyclePlan::Run { batches, fetched_posts, batch_count, queue_depth } => {
            let ids: Vec<Vec<u64>> = batches.iter().map(|b| b.iter().map(|p| p.id).collect()).collect();
            assert_eq!(ids, vec![vec![1, 2], vec![3, 5], vec![6]]);
            assert_eq!((fetched_posts, batch_count, queue_depth), (5, 3, 3));
        }
        _ => panic!("expected a run"),
    }
}

#[test]
fn finishing_a_batch_counts_it_and_moves_the_checkpoint() {
    let mut totals = UpsertTotals::new();
    let mut last_id = 10u64;
    let mut ckpt = CheckpointMap::new();
    assert!(finish_batch(&mut totals, &mut last_id, &mut ckpt, "e621", 3, 1, 15));
    assert_eq!((last_id, get(&ckpt, "e621")), (15, 15));
    assert!(!finish_batch(&mut totals, &mut last_id, &mut ckpt, "e621", 2, 0, 12));
    assert_eq!((last_id, get(&ckpt, "e621")), (15, 15));
    assert_eq!((totals.valid_images, totals.skipped_images, totals.upserted_posts), (5, 1, 5));
}

#[test]
fn all_sites_clients_carry_the_given_credentials() {
    let mut creds = no_credentials();
    creds.rule34_api_key = Some("the-key".to_string());
    creds.rule34_user_id = Some("the-user".to_string());
    creds.e621_login = Some("login".to_string());
    creds.e621_api_key = Some("secret".to_string());
    creds.kemono_session = Some("  token  ".to_string());
    let (clients, _) = build_all_sites_clients(&creds).expect("all-sites clients should build");
    match &clients[0] {
        SiteClient::Rule34(r) => assert_eq!((r.api_key.as_str(), r.user_id.as_str()), ("the-key", "the-user")),
        _ => panic!("rule34 comes first"),
    }
    match &clients[1] {
        SiteClient::E621(e) => assert_eq!((e.login.as_deref(), e.api_key.as_deref()), (Some("login"), Some("secret"))),
        _ => panic!("e621 comes second"),
    }
    match &clients[4] {
        SiteClient::Kemono(k) => assert_eq!(k.session.as_deref(), Some("token")),
        _ => panic!("kemono comes last"),
    }
}
