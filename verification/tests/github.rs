use nightshift_core::github::{
    checks_from_snapshot, derive_review_decision, parse_legacy_checks_status,
    parse_mergeability_graphql, parse_mergeability_rest, parse_owner_repo_from_pr_url,
    parse_owner_repo_from_url, parse_pr_view, parse_rest_check_runs, parse_rest_pull_request,
    parse_review_status, report_from_result, GithubCheckId, GithubSnapshotError, LegacyCheckRollup,
    PrView, RestCheckRun, RestPullRequest, RestPullRequestHead, RestReview, RestUser,
};
use nightshift_core::state::{
    EvidenceStatus, GithubMergeability, GithubPullRequestSnapshot, GithubReviewStatus,
};

fn review(login: &str, state: &str) -> RestReview {
    RestReview { user: RestUser { login: login.to_string() }, state: state.to_string() }
}

fn run(status: &str, conclusion: Option<&str>) -> RestCheckRun {
    RestCheckRun { status: status.to_string(), conclusion: conclusion.map(|c| c.to_string()) }
}

#[test]
fn parse_owner_repo_from_url_handles_https() {
    let (owner, repo) = parse_owner_repo_from_url("https://github.com/org/repo.git").unwrap();
    assert_eq!(owner, "org");
    assert_eq!(repo, "repo");
}

#[test]
fn parse_owner_repo_from_url_handles_ssh() {
    let (owner, repo) = parse_owner_repo_from_url("git@github.com:org/repo.git").unwrap();
    assert_eq!(owner, "org");
    assert_eq!(repo, "repo");
}

#[test]
fn derive_review_decision_with_no_reviews_is_review_required() {
    assert_eq!(derive_review_decision(&[]), GithubReviewStatus::ReviewRequired);
}

#[test]
fn derive_review_decision_approved() {
    let reviews = vec![review("alice", "APPROVED")];
    assert_eq!(derive_review_decision(&reviews), GithubReviewStatus::Approved);
}

#[test]
fn derive_review_decision_changes_requested_overrides_approval() {
    let reviews = vec![review("alice", "APPROVED"), review("bob", "CHANGES_REQUESTED")];
    assert_eq!(derive_review_decision(&reviews), GithubReviewStatus::ChangesRequested);
}

#[test]
fn parse_rest_check_runs_empty_is_pending() {
    assert_eq!(parse_rest_check_runs(&[]), EvidenceStatus::Pending);
}

#[test]
fn parse_rest_check_runs_all_success_is_passing() {
    let runs = vec![run("completed", Some("success"))];
    assert_eq!(parse_rest_check_runs(&runs), EvidenceStatus::Passing);
}

#[test]
fn parse_rest_check_runs_failure_is_failing() {
    let runs = vec![run("completed", Some("failure"))];
    assert_eq!(parse_rest_check_runs(&runs), EvidenceStatus::Failing);
}

#[test]
fn parse_owner_repo_from_url_falls_through_when_https_missing_repo() {
    let result = parse_owner_repo_from_url("https://github.com/owner-only");
    assert!(result.is_err(), "expected error for missing repo component");
}

#[test]
fn parse_owner_repo_from_url_falls_through_when_ssh_missing_repo() {
    let result = parse_owner_repo_from_url("git@github.com:owner-only");
    assert!(result.is_err(), "expected error for missing repo in SSH URL");
}

#[test]
fn parse_rest_pull_request_errors_on_unknown_state() {
    let pr = RestPullRequest {
        state: "MERGED".to_string(),
        draft: None,
        mergeable_state: None,
        head: RestPullRequestHead { sha: "abc123".to_string() },
    };
    let result = parse_rest_pull_request(&pr, &[], &[]);
    assert!(result.is_err(), "expected error for unknown PR state 'MERGED'");
}

#[test]
fn derive_review_decision_dismissed_without_approved_is_review_required() {
    let reviews = vec![review("alice", "DISMISSED")];
    assert_eq!(derive_review_decision(&reviews), GithubReviewStatus::ReviewRequired);
}

#[test]
fn parse_rest_check_runs_pending_is_pending() {
    let runs = vec![run("queued", None)];
    assert_eq!(parse_rest_check_runs(&runs), EvidenceStatus::Pending);
}

#[test]
fn parse_rest_check_runs_unknown_status_is_pending() {
    let runs = vec![run("waiting", None)];
    assert_eq!(parse_rest_check_runs(&runs), EvidenceStatus::Pending);
}

#[test]
fn parse_mergeability_rest_maps_correctly() {
    assert_eq!(parse_mergeability_rest(Some("clean")).unwrap(), GithubMergeability::Mergeable);
    assert_eq!(parse_mergeability_rest(Some("dirty")).unwrap(), GithubMergeability::Conflicting);
    assert_eq!(parse_mergeability_rest(Some("blocked")).unwrap(), GithubMergeability::Blocked);
    assert_eq!(parse_mergeability_rest(None).unwrap(), GithubMergeability::Unknown);
}

#[test]
fn parse_rest_pull_request_open_pr_with_uppercase_state() {
    let pr = RestPullRequest {
        state: "Open".to_string(),
        draft: Some(true),
        mergeable_state: Some("clean".to_string()),
        head: RestPullRequestHead { sha: "abc".to_string() },
    };
    let reviews = vec![review("alice", "APPROVED")];
    let runs = vec![run("completed", Some("success"))];
    let snap = parse_rest_pull_request(&pr, &reviews, &runs).unwrap();
    assert_eq!(
        snap,
        GithubPullRequestSnapshot {
            is_draft: true,
            review_status: GithubReviewStatus::Approved,
            checks: EvidenceStatus::Passing,
            mergeability: GithubMergeability::Mergeable,
        }
    );
}

#[test]
fn latest_review_per_user_wins() {
    let reviews = vec![review("alice", "CHANGES_REQUESTED"), review("alice", "APPROVED")];
    assert_eq!(derive_review_decision(&reviews), GithubReviewStatus::Approved);
}

#[test]
fn parse_review_status_rejects_unknown_value() {
    assert_eq!(parse_review_status(Some("APPROVED")).unwrap(), GithubReviewStatus::Approved);
    assert_eq!(parse_review_status(None).unwrap(), GithubReviewStatus::ReviewRequired);
    assert!(matches!(
        parse_review_status(Some("MAYBE")),
        Err(GithubSnapshotError::UnsupportedValue { .. })
    ));
}

#[test]
fn parse_mergeability_graphql_values() {
    assert_eq!(parse_mergeability_graphql("CLEAN").unwrap(), GithubMergeability::Mergeable);
    assert_eq!(parse_mergeability_graphql("DIRTY").unwrap(), GithubMergeability::Conflicting);
    assert!(parse_mergeability_graphql("SOMETHING").is_err());
}

#[test]
fn parse_pr_view_closed_is_error() {
    let view = PrView {
        state: "CLOSED".to_string(),
        is_draft: false,
        review_decision: Some("APPROVED".to_string()),
        merge_state_status: "CLEAN".to_string(),
        status_check_rollup: vec![],
    };
    assert!(parse_pr_view(&view).is_err());
}

#[test]
fn parse_pr_view_open_with_success_rollup() {
    let view = PrView {
        state: "OPEN".to_string(),
        is_draft: false,
        review_decision: Some("APPROVED".to_string()),
        merge_state_status: "CLEAN".to_string(),
        status_check_rollup: vec![LegacyCheckRollup {
            status: Some("COMPLETED".to_string()),
            conclusion: Some("SUCCESS".to_string()),
        }],
    };
    let snap = parse_pr_view(&view).unwrap();
    assert!(!snap.is_draft);
    assert_eq!(snap.review_status, GithubReviewStatus::Approved);
    assert_eq!(snap.checks, EvidenceStatus::Passing);
    assert_eq!(snap.mergeability, GithubMergeability::Mergeable);
}

#[test]
fn legacy_checks_failure_wins() {
    let checks = vec![
        LegacyCheckRollup { status: Some("COMPLETED".to_string()), conclusion: Some("SUCCESS".to_string()) },
        LegacyCheckRollup { status: Some("COMPLETED".to_string()), conclusion: Some("FAILURE".to_string()) },
    ];
    assert_eq!(parse_legacy_checks_status(&checks).unwrap(), EvidenceStatus::Failing);
}

#[test]
fn parse_owner_repo_from_pr_url_extracts_pair() {
    let (owner, repo) =
        parse_owner_repo_from_pr_url("https://github.com/dot-matrix-labs/calypso/pull/42").unwrap();
    assert_eq!(owner, "dot-matrix-labs");
    assert_eq!(repo, "calypso");
    assert!(parse_owner_repo_from_pr_url("https://example.com/x").is_err());
}

#[test]
fn missing_field_error_text() {
    assert_eq!(GithubSnapshotError::MissingField("no head").to_string(), "no head");
}

#[test]
fn report_from_error_marks_pr_missing() {
    let report = report_from_result(Err(GithubSnapshotError::MissingField("gone")));
    assert!(report.snapshot.is_none());
    let checks = checks_from_snapshot(None);
    assert!(checks.iter().any(|c| c.id == GithubCheckId::PullRequestExists));
}
