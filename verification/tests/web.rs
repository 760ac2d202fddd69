use roobu::checkpoint::CheckpointMap;
use roobu::strmap::StrMap;
use roobu::web::common::{parse_sites, ApiResponse};
use roobu::web::params::{activity_totals, next_offset, search_limit, ActivityParams, RecentParams, SearchQuery, SimilarParams};
use roobu::web::status::{
    checkpoint_changes, checkpoint_snapshot, mark_site_active, sort_names, update_status_from_event, IngestStatus,
    StatusEvent,
};
use roobu::web::upload::{field_kind, has_content, FieldKind, UploadError, UploadForm};
use roobu::web::ws::{socket_step, SocketAction, SocketInput};

#[test]
fn sites_split_on_commas_and_trimmed() {
    let raw = vec![" e621, rule34 ,".to_string(), "".to_string(), "kemono".to_string()];
    assert_eq!(parse_sites(&raw), vec!["e621", "rule34", "kemono"]);
    assert!(parse_sites(&vec![" , ,".to_string()]).is_empty());
}

#[test]
fn envelope_carries_meta_only_for_lists() {
    let ok = ApiResponse::ok(5u32);
    assert!(ok.meta.is_none());
    let list = ApiResponse::list(vec![1, 2], 2, Some(40));
    let meta = list.meta.expect("list responses carry metadata");
    assert_eq!((meta.count, meta.next_offset), (2, Some(40)));
}

#[test]
fn parameter_defaults_and_bounds() {
    let recent = RecentParams { limit: None, site: vec![], offset: None };
    assert_eq!((recent.page_limit(), recent.page_offset()), (20, 0));
    let recent = RecentParams { limit: Some(500), site: vec![], offset: Some(7) };
    assert_eq!((recent.page_limit(), recent.page_offset()), (100, 7));
    assert_eq!(RecentParams { limit: Some(0), site: vec![], offset: None }.page_limit(), 1);
    assert_eq!(ActivityParams { days: None, site: vec![] }.window_days(), 90);
    assert_eq!(ActivityParams { days: Some(1000), site: vec![] }.window_days(), 365);
    assert_eq!(SimilarParams { limit: Some(0) }.result_limit(), 1);
    assert_eq!(SimilarParams { limit: None }.result_limit(), 10);
    let q = SearchQuery { q: Some("  cat  ".to_string()), site: None, limit: None };
    assert_eq!(q.query_text(), Some("cat".to_string()));
    assert_eq!(q.result_limit(), 10);
    assert_eq!(SearchQuery { q: Some("   ".to_string()), site: None, limit: Some(3) }.query_text(), None);
    assert_eq!(search_limit(Some(250)), 100);
    assert_eq!(search_limit(None), 10);
    assert_eq!(search_limit(Some(0)), 1);
    assert_eq!(search_limit(Some(42)), 42);
    assert_eq!(next_offset(true, 20, 20), Some(40));
    assert_eq!(next_offset(false, 20, 20), None);
}

#[test]
fn activity_peak_and_total() {
    let data = vec![("2024-01-01".to_string(), 3), ("2024-01-02".to_string(), 9), ("2024-01-03".to_string(), 0)];
    assert_eq!(activity_totals(&data), (9, 12));
    assert_eq!(activity_totals(&Vec::new()), (0, 0));
}

#[test]
fn status_follows_events() {
    let mut status = IngestStatus::new();
    update_status_from_event(&mut status, StatusEvent::SiteActivity { site: "kemono".to_string() });
    update_status_from_event(&mut status, StatusEvent::SiteActivity { site: "e621".to_string() });
    update_status_from_event(&mut status, StatusEvent::SiteActivity { site: "kemono".to_string() });
    assert!(status.is_running);
    assert_eq!(status.active_sites, vec!["e621", "kemono"]);
    update_status_from_event(&mut status, StatusEvent::CheckpointUpdated { site: "aibooru".to_string(), last_id: 12 });
    assert_eq!(status.active_sites, vec!["aibooru", "e621", "kemono"]);
    let ckpt = status.last_checkpoint.as_ref().expect("checkpoint recorded");
    assert_eq!(ckpt.get("aibooru"), Some(&12));
    update_status_from_event(
        &mut status,
        StatusEvent::StatusSnapshot { is_running: false, active_sites: vec![], last_checkpoint: None },
    );
    assert!(!status.is_running);
    assert!(status.active_sites.is_empty());
    assert!(status.last_checkpoint.is_none());
}

#[test]
fn marking_an_unsorted_list_sorts_it() {
    let mut status = IngestStatus::new();
    status.active_sites = vec!["zeta".to_string(), "alpha".to_string()];
    mark_site_active(&mut status, "mid");
    assert_eq!(status.active_sites, vec!["alpha", "mid", "zeta"]);
    assert_eq!(sort_names(&vec!["b".to_string(), "a".to_string(), "b".to_string()]), vec!["a", "b", "b"]);
}

#[test]
fn checkpoint_monitor_reports_changed_sites() {
    let mut before = CheckpointMap::new();
    roobu::checkpoint::set(&mut before, "e621", 10);
    roobu::checkpoint::set(&mut before, "kemono", 5);
    let mut after = CheckpointMap::new();
    roobu::checkpoint::set(&mut after, "e621", 10);
    roobu::checkpoint::set(&mut after, "kemono", 6);
    roobu::checkpoint::set(&mut after, "aibooru", 1);
    let changes = checkpoint_changes(&before, &after);
    assert_eq!(changes, vec![("aibooru".to_string(), 1), ("kemono".to_string(), 6)]);
    match checkpoint_snapshot(&after) {
        StatusEvent::StatusSnapshot { is_running, active_sites, last_checkpoint } => {
            assert!(is_running);
            assert_eq!(active_sites, vec!["aibooru", "e621", "kemono"]);
            assert_eq!(last_checkpoint.expect("snapshot has checkpoints").get("kemono"), Some(&6));
        }
        _ => panic!("a snapshot was expected"),
    }
    match checkpoint_snapshot(&StrMap::new()) {
        StatusEvent::StatusSnapshot { is_running, active_sites, last_checkpoint } => {
            assert!(!is_running);
            assert!(active_sites.is_empty());
            assert!(last_checkpoint.is_none());
        }
        _ => panic!("a snapshot was expected"),
    }
}

#[test]
fn upload_form_fields_and_checks() {
    assert_eq!(field_kind("q"), FieldKind::Query);
    assert_eq!(field_kind("image"), FieldKind::Image);
    assert_eq!(field_kind("other"), FieldKind::Ignored);
    let mut form = UploadForm::new();
    assert_eq!(form.set_limit(" 25 "), Ok(()));
    assert_eq!(form.limit, Some(25));
    assert_eq!(form.set_limit("abc"), Err(UploadError::InvalidLimit));
    assert_eq!(form.limit, Some(25));
    assert_eq!(form.set_image(Vec::new()), Err(UploadError::EmptyImage));
    assert_eq!(form.set_image(vec![0u8; 20_971_521]), Err(UploadError::ImageTooLarge));
    assert_eq!(UploadError::ImageTooLarge.message(), "image upload exceeds 20971520 bytes");
    match UploadForm::new().finish() {
        Err(e) => assert_eq!(e, UploadError::NoQuery),
        Ok(_) => panic!("an empty form is refused"),
    }
    let mut form = UploadForm::new();
    form.set_query("  cat ".to_string());
    form.add_site("e621, kemono".to_string());
    let req = form.finish().ok().expect("a text query suffices");
    assert_eq!(req.text_query, Some("cat".to_string()));
    assert_eq!(req.site_filter, vec!["e621", "kemono"]);
    assert_eq!(req.limit, 10);
    assert!(has_content(&Some(" x ".to_string())));
    assert!(!has_content(&Some("  ".to_string())));
}

#[test]
fn socket_loop_decisions() {
    assert!(matches!(socket_step(SocketInput::ClientPing(vec![1, 2])), SocketAction::SendPong(d) if d == vec![1, 2]));
    assert!(matches!(socket_step(SocketInput::ClientClose), SocketAction::Stop));
    assert!(matches!(socket_step(SocketInput::Lagged(3)), SocketAction::SendLagged(3)));
    assert!(matches!(socket_step(SocketInput::Heartbeat), SocketAction::SendPing));
    assert!(matches!(socket_step(SocketInput::ClientText), SocketAction::Continue));
    assert!(matches!(socket_step(SocketInput::Event), SocketAction::ForwardEvent));
}
