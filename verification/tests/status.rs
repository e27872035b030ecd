use nightshift_core::state::{
    EvidenceStatus, GateStatus, GithubMergeability, GithubPullRequestSnapshot, GithubReviewStatus, PullRequestRef,
};
use nightshift_core::status::{
    render_dev_status, render_feature_status, render_state_status, state_status_json_report, ChecklistItem,
    DevStatusView, FeatureStatusView, GateGroupStatus, GateGroupView, GateLine, PhaseTransition, StateFeatureView,
    StateGate, StateGateGroup,
};

fn new_dev_state() -> DevStatusView {
    DevStatusView { phase: "init".to_string(), init_step: None, last_transition_at: None, transition_log: vec![] }
}

fn transitioned_dev_state() -> DevStatusView {
    DevStatusView {
        phase: "development".to_string(),
        init_step: None,
        last_transition_at: Some("2026-03-15T00:00:00Z".to_string()),
        transition_log: vec![PhaseTransition {
            from: "init".to_string(),
            to: "development".to_string(),
            timestamp: "2026-03-15T00:00:00Z".to_string(),
        }],
    }
}

fn minimal_feature() -> FeatureStatusView {
    FeatureStatusView {
        workflow_state: "New".to_string(),
        gate_groups: vec![],
        checklist: vec![],
        blocking_gate_ids: vec![],
        github_snapshot: None,
        github_error: None,
    }
}

#[test]
fn render_dev_status_shows_phase() {
    let output = render_dev_status(&new_dev_state());
    assert!(output.contains("Development phase: init"), "expected phase line: {output}");
}

#[test]
fn render_dev_status_shows_init_step_when_present() {
    let mut state = new_dev_state();
    state.init_step = Some("verify-setup".to_string());
    let output = render_dev_status(&state);
    assert!(output.contains("Init sub-state:    verify-setup"), "expected init step: {output}");
}

#[test]
fn render_dev_status_hides_init_step_when_absent() {
    let output = render_dev_status(&new_dev_state());
    assert!(!output.contains("Init sub-state"), "should not contain init sub-state: {output}");
}

#[test]
fn render_dev_status_shows_last_transition_timestamp() {
    let output = render_dev_status(&transitioned_dev_state());
    assert!(output.contains("Last transition:   2026-03-15T00:00:00Z"), "expected timestamp: {output}");
}

#[test]
fn render_dev_status_shows_transition_history() {
    let output = render_dev_status(&transitioned_dev_state());
    assert!(output.contains("Transition history"), "expected history header: {output}");
    assert!(output.contains("init -> development"), "expected transition entry: {output}");
}

#[test]
fn render_dev_status_no_history_when_empty() {
    let output = render_dev_status(&new_dev_state());
    assert!(!output.contains("Transition history"), "should not contain history section: {output}");
}

#[test]
fn render_dev_status_full_text() {
    let output = render_dev_status(&transitioned_dev_state());
    let expected = format!(
        "Development phase: development\nLast transition:   2026-03-15T00:00:00Z\n\nTransition history\n  {}\n  init -> development (2026-03-15T00:00:00Z)",
        "─".repeat(40)
    );
    assert_eq!(output, expected);
}

#[test]
fn render_feature_status_shows_unknown_dev_phase_when_no_state_file() {
    let output = render_feature_status("/tmp/project", "main", None, None, &minimal_feature());
    assert!(output.contains("Development phase: unknown"), "expected unknown phase: {output}");
}

#[test]
fn render_feature_status_shows_dev_phase_from_state_file() {
    let output = render_feature_status("/tmp/project", "feat-branch", None, Some("development"), &minimal_feature());
    assert!(output.contains("Development phase: development"), "expected development phase: {output}");
}

#[test]
fn render_feature_status_minimal_text() {
    let output = render_feature_status("/repo", "main", None, None, &minimal_feature());
    assert_eq!(
        output,
        "Feature status\nRepo: /repo\nBranch: main\nDevelopment phase: unknown\nPull request: missing\nWorkflow state: New\n\nPR checklist\n\nBlocking gates: none"
    );
}

#[test]
fn render_feature_status_full_text() {
    let feature = FeatureStatusView {
        workflow_state: "Implementation".to_string(),
        gate_groups: vec![GateGroupView {
            label: "Quality".to_string(),
            gates: vec![
                GateLine { label: "Tests pass".to_string(), status: GateStatus::Passing },
                GateLine { label: "Ready".to_string(), status: GateStatus::Failing },
            ],
        }],
        checklist: vec![
            ChecklistItem { label: "PR exists".to_string(), checked: true },
            ChecklistItem { label: "Merged".to_string(), checked: false },
        ],
        blocking_gate_ids: vec!["ready".to_string(), "ci".to_string()],
        github_snapshot: Some(GithubPullRequestSnapshot {
            is_draft: true,
            review_status: GithubReviewStatus::ChangesRequested,
            checks: EvidenceStatus::Pending,
            mergeability: GithubMergeability::Conflicting,
        }),
        github_error: None,
    };
    let pr = PullRequestRef { number: 42, url: "https://github.com/o/r/pull/42".to_string() };
    let output = render_feature_status("/repo", "feat", Some(&pr), Some("development"), &feature);
    let expected = [
        "Feature status",
        "Repo: /repo",
        "Branch: feat",
        "Development phase: development",
        "Pull request: #42 https://github.com/o/r/pull/42",
        "Workflow state: Implementation",
        "",
        "Quality",
        "- [passing] Tests pass",
        "- [failing] Ready",
        "",
        "PR checklist",
        "- [x] PR exists",
        "- [ ] Merged",
        "",
        "GitHub",
        "- PR state: draft",
        "- Review: changes-requested",
        "- Checks: pending",
        "- Mergeability: conflicting",
        "",
        "Blocking gates: ready, ci",
    ]
    .join("\n");
    assert_eq!(output, expected);
}

#[test]
fn render_feature_status_shows_github_error() {
    let mut feature = minimal_feature();
    feature.github_error = Some("gh not found".to_string());
    let output = render_feature_status("/repo", "main", None, None, &feature);
    assert!(output.contains("GitHub\n- Error: gh not found\n\nBlocking gates: none"), "{output}");
}

fn state_feature(pr_number: u64) -> StateFeatureView {
    StateFeatureView {
        feature_id: "feat-7".to_string(),
        branch: "feat/seven".to_string(),
        pr_number,
        workflow_state: "implementation".to_string(),
        gate_groups: vec![
            StateGateGroup {
                id: "quality".to_string(),
                label: "Quality".to_string(),
                rollup_status: GateGroupStatus::Blocked,
                rollup_blocking_gate_ids: vec!["lint".to_string(), "tests".to_string()],
                gates: vec![
                    StateGate { id: "fmt".to_string(), label: "Formatted".to_string(), status: GateStatus::Passing },
                    StateGate { id: "lint".to_string(), label: "Lint".to_string(), status: GateStatus::Failing },
                    StateGate { id: "tests".to_string(), label: "Tests".to_string(), status: GateStatus::Pending },
                ],
            },
            StateGateGroup {
                id: "review".to_string(),
                label: "Review".to_string(),
                rollup_status: GateGroupStatus::Passing,
                rollup_blocking_gate_ids: vec![],
                gates: vec![StateGate {
                    id: "approved".to_string(),
                    label: "Approved".to_string(),
                    status: GateStatus::Passing,
                }],
            },
        ],
        blocking_gate_ids: vec!["lint".to_string(), "tests".to_string()],
        active_session_count: 2,
    }
}

#[test]
fn render_state_status_full_text() {
    let output = render_state_status(&state_feature(12));
    let expected = [
        "feature: feat-7".to_string(),
        "branch:  feat/seven  PR: #12".to_string(),
        "state:   implementation".to_string(),
        "".to_string(),
        "  Gates".to_string(),
        format!("  {}", "─".repeat(33)),
        "  ✗ Quality  2 blocking".to_string(),
        "    ✓ Formatted".to_string(),
        "    ✗ Lint".to_string(),
        "    ✗ Tests".to_string(),
        "  ✓ Review".to_string(),
        "    ✓ Approved".to_string(),
    ]
    .join("\n");
    assert_eq!(output, expected);
}

#[test]
fn render_state_status_without_pr_or_gates() {
    let mut feature = state_feature(0);
    feature.gate_groups.clear();
    assert_eq!(render_state_status(&feature), "feature: feat-7\nbranch:  feat/seven\nstate:   implementation");
}

#[test]
fn state_status_json_report_maps_rollups_and_pr_number() {
    let report = state_status_json_report(&state_feature(12));
    assert_eq!(report.feature_id, "feat-7");
    assert_eq!(report.branch, "feat/seven");
    assert_eq!(report.pr_number, Some(12));
    assert_eq!(report.workflow_state, "implementation");
    assert_eq!(report.gate_groups.len(), 2);
    assert_eq!(report.gate_groups[0].status, "failing");
    assert_eq!(report.gate_groups[0].gates[1].status, "failing");
    assert_eq!(report.gate_groups[0].gates[2].status, "pending");
    assert_eq!(report.gate_groups[1].status, "passing");
    assert_eq!(report.blocking_gate_ids, vec!["lint".to_string(), "tests".to_string()]);
    assert_eq!(report.active_session_count, 2);
    assert_eq!(state_status_json_report(&state_feature(0)).pr_number, None);
}
