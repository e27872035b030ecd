use nightshift_core::headless_persist::{now_rfc3339, ExitReasonTag, HeadlessRunState};

fn sample_state(tag: ExitReasonTag) -> HeadlessRunState {
    HeadlessRunState {
        current_state: "scan".to_string(),
        iteration: 7,
        exit_reason: tag,
        exit_detail: None,
        timestamp: "2026-03-22T06:00:00Z".to_string(),
    }
}

#[test]
fn exit_reason_tag_as_str_covers_all_variants() {
    assert_eq!(ExitReasonTag::Terminal.as_str(), "terminal");
    assert_eq!(ExitReasonTag::Interrupted.as_str(), "interrupted");
    assert_eq!(ExitReasonTag::Error.as_str(), "error");
    assert_eq!(ExitReasonTag::StepLimitReached.as_str(), "step_limit_reached");
}

#[test]
fn exit_reason_tag_display_matches_as_str() {
    for tag in [
        ExitReasonTag::Terminal,
        ExitReasonTag::Interrupted,
        ExitReasonTag::Error,
        ExitReasonTag::StepLimitReached,
    ] {
        assert_eq!(tag.to_string(), tag.as_str());
    }
}

#[test]
fn default_path_returns_calypso_subdir() {
    let path = HeadlessRunState::default_path("/tmp/my-project");
    assert_eq!(path, "/tmp/my-project/.calypso/headless-state.json");
}

#[test]
fn default_path_with_trailing_slash() {
    assert_eq!(HeadlessRunState::default_path("/repo/"), "/repo/.calypso/headless-state.json");
    assert_eq!(HeadlessRunState::default_path(""), ".calypso/headless-state.json");
}

#[test]
fn now_rfc3339_produces_nonempty_string() {
    let ts = now_rfc3339();
    assert!(!ts.is_empty());
    assert!(ts.contains('T'), "expected 'T' in RFC 3339 timestamp: {ts}");
}

#[test]
fn headless_run_state_derives_debug_and_clone() {
    let state = sample_state(ExitReasonTag::Error);
    let cloned = state.clone();
    assert_eq!(state, cloned);
    let debug = format!("{state:?}");
    assert!(debug.contains("HeadlessRunState"));
}
