use nightshift_core::blueprint_workflows::ExecutionTarget;
use nightshift_core::interpreter_scheduler::SchedulerOutcome;
use nightshift_core::orchestrator::{LogFormat, LogLevel, OrchestratorConfig, OrchestratorOutcome};
use nightshift_core::pinned_prompt::{
    classify_key, format_initial_prompt, format_transition_prompt, Confirmation, KeyMods, KeyPress,
};
use nightshift_core::timefmt::{format_epoch_seconds, now_rfc3339};
use nightshift_core::{render_help, render_version, BuildInfo};

fn sample_info() -> BuildInfo<'static> {
    BuildInfo {
        version: "0.1.0+abc123",
        git_hash: "abc123",
        build_time: "2026-03-13T12:00:00Z",
        git_tags: "v0.1.0",
    }
}

#[test]
fn version_output_contains_required_build_metadata() {
    let output = render_version(sample_info());
    assert!(output.contains("0.1.0+abc123"), "missing semver+hash");
    assert!(output.contains("abc123"), "missing git hash");
    assert!(output.contains("2026-03-13T12:00:00Z"), "missing timestamp");
    assert!(output.contains("v0.1.0"), "missing git tag");
}

#[test]
fn version_output_is_a_single_line() {
    let output = render_version(sample_info());
    assert_eq!(output.lines().count(), 1, "version output must be one line");
}

#[test]
fn version_output_exact_text() {
    assert_eq!(
        render_version(sample_info()),
        "calypso-cli 0.1.0+abc123 git:abc123 built:2026-03-13T12:00:00Z tags:v0.1.0"
    );
}

#[test]
fn help_output_exposes_version_information() {
    let output = render_help(sample_info());
    assert!(output.contains("calypso-cli"));
    assert!(output.contains("0.1.0+abc123"));
    assert!(output.contains("Git hash: abc123"));
    assert!(output.contains("Commands:"));
    assert!(output.contains("--path"));
    assert!(output.contains("-h, --help"));
}

#[test]
fn help_output_documents_json_flag() {
    let output = render_help(sample_info());
    assert!(output.contains("--json"), "missing --json flag");
}

#[test]
fn execution_target_default_is_local() {
    assert_eq!(ExecutionTarget::default(), ExecutionTarget::Local);
}

#[test]
fn scheduler_outcome_debug_format() {
    let o = SchedulerOutcome::NoCronEntries { user_action_workflows: vec![] };
    assert!(format!("{o:?}").contains("NoCronEntries"));

    let o2 = SchedulerOutcome::LoadError("oops".to_string());
    assert!(format!("{o2:?}").contains("oops"));

    let o3 = SchedulerOutcome::Fired { workflow: "wf".to_string(), initial_state: "start".to_string() };
    assert!(format!("{o3:?}").contains("wf"));
}

#[test]
fn orchestrator_outcome_debug_and_equality() {
    let a = OrchestratorOutcome { exit_code: 0 };
    let b = a.clone();
    assert_eq!(a, b);
    assert_eq!(format!("{a:?}"), "OrchestratorOutcome { exit_code: 0 }");
}

#[test]
fn orchestrator_config_debug_and_equality() {
    let a = OrchestratorConfig { verbosity: LogLevel::Warn, log_format: LogFormat::Json, env_log_override: None };
    let b = a.clone();
    assert_eq!(a, b);
    let debug = format!("{a:?}");
    assert!(debug.contains("OrchestratorConfig"));
}

#[test]
fn confirmation_variants_are_distinct() {
    assert_ne!(Confirmation::Yes, Confirmation::No);
    assert_ne!(Confirmation::Yes, Confirmation::Quit);
    assert_ne!(Confirmation::No, Confirmation::Quit);
}

#[test]
fn format_initial_prompt_format_is_stable() {
    assert_eq!(format_initial_prompt("draft"), "  state: draft  [Y/n] step?");
}

#[test]
fn format_transition_prompt_format_is_stable() {
    assert_eq!(format_transition_prompt("draft", "review"), "  state: draft \u{2192} review  [Y/n]");
}

#[test]
fn enter_returns_yes() {
    assert_eq!(classify_key(KeyPress::Enter, KeyMods::Plain), Some(Confirmation::Yes));
}

#[test]
fn y_returns_yes() {
    assert_eq!(classify_key(KeyPress::Char('y'), KeyMods::Plain), Some(Confirmation::Yes));
}

#[test]
fn uppercase_y_returns_yes() {
    assert_eq!(classify_key(KeyPress::Char('Y'), KeyMods::Shift), Some(Confirmation::Yes));
}

#[test]
fn n_returns_no() {
    assert_eq!(classify_key(KeyPress::Char('n'), KeyMods::Plain), Some(Confirmation::No));
}

#[test]
fn q_returns_quit() {
    assert_eq!(classify_key(KeyPress::Char('q'), KeyMods::Plain), Some(Confirmation::Quit));
}

#[test]
fn ctrl_c_returns_quit() {
    assert_eq!(classify_key(KeyPress::Char('c'), KeyMods::Control), Some(Confirmation::Quit));
}

#[test]
fn unrecognised_keys_are_skipped() {
    assert_eq!(classify_key(KeyPress::Char('x'), KeyMods::Plain), None);
    assert_eq!(classify_key(KeyPress::Char('z'), KeyMods::Plain), None);
    assert_eq!(classify_key(KeyPress::Other, KeyMods::Plain), None);
}

#[test]
fn now_rfc3339_uses_utc_shape() {
    let ts = now_rfc3339();
    assert!(ts.contains('T'), "timestamp should contain 'T': {ts}");
    assert!(ts.ends_with('Z'), "timestamp should end with 'Z': {ts}");
    assert_eq!(ts.len(), 20, "timestamp should be second-precision UTC");
}

#[test]
fn format_epoch_zero_is_unix_epoch() {
    assert_eq!(format_epoch_seconds(0), "1970-01-01T00:00:00Z");
}

#[test]
fn format_epoch_known_dates() {
    assert_eq!(format_epoch_seconds(951_782_400), "2000-02-29T00:00:00Z");
    assert_eq!(format_epoch_seconds(1_774_137_600), "2026-03-22T00:00:00Z");
    assert_eq!(format_epoch_seconds(86_399), "1970-01-01T23:59:59Z");
}

// ── Pinned prompt control sequences ──────────────────────────────────────────

use nightshift_core::pinned_prompt::{
    cleanup_sequence, clear_prompt_sequence, log_sequence, prompt_sequence, scroll_region_sequence,
};

#[test]
fn new_prompt_writes_scroll_region_and_clears_prompt_line() {
    let output = scroll_region_sequence(24) + &clear_prompt_sequence(24);
    assert!(output.contains("\x1b[1;23r"), "missing DECSTBM");
    assert!(output.contains("\x1b[23;1H"), "missing cursor position");
    assert!(output.contains("\x1b[24;1H\x1b[2K"), "missing clear");
}

#[test]
fn tiny_terminal_skips_scroll_region() {
    let output = scroll_region_sequence(1);
    assert!(!output.contains("\x1b[1;0r"), "should skip DECSTBM for height 1");
    assert!(output.is_empty());
}

#[test]
fn log_writes_line_in_scroll_region() {
    let output = log_sequence(24, "hello world");
    assert!(output.contains("hello world"));
    assert!(output.contains("\x1b[23;1H"));
    assert_eq!(output, "\x1b[23;1H\r\nhello world");
}

#[test]
fn show_prompt_writes_on_last_line() {
    let output = prompt_sequence(24, 80, "step? [Y/n]");
    assert!(output.contains("step? [Y/n]"));
    assert!(output.contains("\x1b[24;1H\x1b[2K"));
}

#[test]
fn show_prompt_truncates_to_terminal_width() {
    let output = prompt_sequence(24, 10, "this is a very long prompt that exceeds width");
    assert!(output.contains("this is a "));
    assert!(!output.contains("very long"));
}

#[test]
fn resize_event_updates_dimensions() {
    let output = scroll_region_sequence(40);
    assert!(output.contains("\x1b[1;39r"), "should set new scroll region");
}

#[test]
fn cleanup_resets_scroll_region() {
    let output = cleanup_sequence(24);
    assert!(output.contains("\x1b[r"), "should reset scroll region");
    assert_eq!(output, "\x1b[r\x1b[24;1H\r\n");
}
