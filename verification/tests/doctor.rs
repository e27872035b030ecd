use nightshift_core::doctor::{doctor_exit_code, doctor_status_label, render_fix_results, DoctorStatus, FixAttemptResult};

#[test]
fn render_fix_results_empty_shows_all_passing() {
    let output = render_fix_results(&[]);
    assert!(output.contains("nothing to fix"), "expected 'nothing to fix' in output: {output}");
}

#[test]
fn render_fix_results_shows_fixed_status() {
    let results = vec![FixAttemptResult {
        check_label: "git-initialized".to_string(),
        applied: true,
        output: "Initialized empty Git repository".to_string(),
        validated: Some(true),
    }];
    let output = render_fix_results(&results);
    assert!(output.contains("[FIXED]"), "expected FIXED tag: {output}");
    assert!(output.contains("git-initialized"), "expected check label: {output}");
}

#[test]
fn render_fix_results_shows_failed_status() {
    let results = vec![FixAttemptResult {
        check_label: "gh-authenticated".to_string(),
        applied: true,
        output: "attempted auth".to_string(),
        validated: Some(false),
    }];
    let output = render_fix_results(&results);
    assert!(output.contains("[FAILED]"), "expected FAILED tag: {output}");
}

#[test]
fn render_fix_results_shows_skip_for_manual() {
    let results = vec![FixAttemptResult {
        check_label: "gh-installed".to_string(),
        applied: false,
        output: "manual fix: Install gh from https://cli.github.com".to_string(),
        validated: None,
    }];
    let output = render_fix_results(&results);
    assert!(output.contains("[SKIP]"), "expected SKIP tag: {output}");
}

#[test]
fn render_fix_results_shows_pass_for_already_passing() {
    let results = vec![FixAttemptResult {
        check_label: "git-initialized".to_string(),
        applied: false,
        output: "already passing".to_string(),
        validated: Some(true),
    }];
    let output = render_fix_results(&results);
    assert!(output.contains("[PASS]"), "expected PASS tag: {output}");
}

#[test]
fn render_fix_results_shows_applied_when_no_validation() {
    let results = vec![FixAttemptResult {
        check_label: "some-check".to_string(),
        applied: true,
        output: "did something".to_string(),
        validated: None,
    }];
    let output = render_fix_results(&results);
    assert!(output.contains("[APPLIED]"), "expected APPLIED tag: {output}");
}

#[test]
fn doctor_exit_code_is_one_when_any_check_fails() {
    assert_eq!(doctor_exit_code(&vec![]), 0);
    assert_eq!(doctor_exit_code(&vec![DoctorStatus::Passing, DoctorStatus::Warning]), 0);
    assert_eq!(doctor_exit_code(&vec![DoctorStatus::Passing, DoctorStatus::Failing]), 1);
}

#[test]
fn doctor_status_labels() {
    assert_eq!(doctor_status_label(DoctorStatus::Passing), "pass");
    assert_eq!(doctor_status_label(DoctorStatus::Failing), "fail");
}
