use roobu::embed::{expect_shape, frame_token_ids, text_fallback_levels, tokenizer_input, GraphLevel, ModelLoad, OnnxOptimizationIntensity};
use roobu::error::RoobuError;
use roobu::search::{plan_search, query_summary, QueryMode, SearchPlanError, WeightSource};
use roobu::sites::retry::{RetryAction, RetryPolicy, RetryState};

#[test]
fn shape_checks_report_the_first_mismatch() {
    assert!(expect_shape(&[2, 1024], 2, 1024).is_ok());
    match expect_shape(&[1], 2, 1024) {
        Err(RoobuError::DimensionMismatch { expected, actual }) => assert_eq!((expected, actual), (2, 1)),
        _ => panic!("rank mismatch expected"),
    }
    match expect_shape(&[3, 1024], 2, 1024) {
        Err(RoobuError::DimensionMismatch { expected, actual }) => assert_eq!((expected, actual), (2, 3)),
        _ => panic!("row mismatch expected"),
    }
    match expect_shape(&[2, 768], 2, 1024) {
        Err(e) => assert_eq!(e.message(), "dimension mismatch: expected 1024, got 768"),
        _ => panic!("column mismatch expected"),
    }
}

#[test]
fn model_load_and_fallback_levels() {
    assert!(ModelLoad::TextAndVision.loads_text() && ModelLoad::TextAndVision.loads_vision());
    assert!(!ModelLoad::TextOnly.loads_vision());
    assert!(!ModelLoad::VisionOnly.loads_text());
    assert_eq!(
        text_fallback_levels(OnnxOptimizationIntensity::Aggressive),
        vec![GraphLevel::All, GraphLevel::Level2, GraphLevel::Level1]
    );
    assert_eq!(text_fallback_levels(OnnxOptimizationIntensity::Safe), vec![GraphLevel::Level1]);
    assert_eq!(OnnxOptimizationIntensity::Balanced.graph_level(), GraphLevel::Level2);
}

#[test]
fn token_framing_pads_and_cuts() {
    let short = frame_token_ids(&vec![5, 6]);
    assert_eq!(short.len(), 64);
    assert_eq!(&short[..3], &[5, 6, 0]);
    let long: Vec<u32> = (0..100).collect();
    let framed = frame_token_ids(&long);
    assert_eq!(framed.len(), 64);
    assert_eq!(framed[63], 63);
    assert_eq!(tokenizer_input("   "), "unknown");
    assert_eq!(tokenizer_input(" cat "), " cat ");
}

#[test]
fn search_plan_picks_mode_and_weight() {
    assert_eq!(plan_search(true, false, false), Ok(QueryMode::Text));
    assert_eq!(plan_search(false, true, false), Ok(QueryMode::Image));
    assert_eq!(plan_search(true, false, true), Ok(QueryMode::TextAndImage));
    assert_eq!(plan_search(false, false, false), Err(SearchPlanError::NoQuery));
    assert_eq!(plan_search(true, true, true), Err(SearchPlanError::TwoImageSources));
    assert_eq!(QueryMode::Text.image_weight_source(), WeightSource::Zero);
    assert_eq!(QueryMode::Image.image_weight_source(), WeightSource::One);
    assert_eq!(QueryMode::TextAndImage.image_weight_source(), WeightSource::Requested);
    assert_eq!(QueryMode::TextAndImage.label(), "text+image");
    assert_eq!(query_summary(Some("cat"), None, true), "\"cat\" + [remote image]");
    assert_eq!(query_summary(Some("cat"), None, false), "\"cat\"");
    assert_eq!(query_summary(None, Some("a.png"), false), "a.png");
}

#[test]
fn retries_back_off_and_give_up() {
    let policy = RetryPolicy::standard();
    let mut state = RetryState::start(&policy);
    assert_eq!(state.on_status(503, &policy), RetryAction::Retry { sleep_secs: 5 });
    assert_eq!(state.on_status(429, &policy), RetryAction::Retry { sleep_secs: 10 });
    assert_eq!(state.on_status(200, &policy), RetryAction::Success);
    assert_eq!(state.on_status(404, &policy), RetryAction::Fail { status: 404 });
    let strict = RetryPolicy::gelbooru();
    let mut s2 = RetryState::start(&strict);
    assert_eq!(s2.on_status(401, &strict), RetryAction::Unauthorized);
}
