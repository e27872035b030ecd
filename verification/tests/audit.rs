use nightshift_core::blueprint_workflows::{
    BlueprintWorkflow, ExecutionTarget, NextEntry, NextSpec, NextValue, StateConfig, StateKind,
};
use nightshift_core::interpreter::WorkflowRegistry;
use nightshift_core::sm_audit::{
    audit_reachability, audit_workflow_graph, names_match, reachable_from, render_audit,
    run_structural_audit, suggest_filename, validate_job_keys, validate_workflow_reference,
    AuditFinding, AuditSeverity, GhaWorkflow, StateMachineAudit,
};

// ── Builders ─────────────────────────────────────────────────────────────────

fn state(kind: StateKind) -> StateConfig {
    StateConfig {
        kind: Some(kind),
        role: None,
        cost: None,
        description: None,
        prompt: None,
        execution_target: ExecutionTarget::Local,
        function: None,
        command: None,
        workflow: None,
        actor: None,
        trigger: None,
        workflows: None,
        poll_cmd: None,
        ci_job: None,
        completion: None,
        cleanup: None,
        gates: None,
        next: None,
    }
}

/// `next: { key: target, ... }`
fn top(pairs: &[(&str, &str)]) -> NextSpec {
    NextSpec::Mapping(
        pairs
            .iter()
            .map(|(k, v)| NextEntry { key: Some(k.to_string()), value: NextValue::Text(v.to_string()) })
            .collect(),
    )
}

/// `next: { on: { event: target, ... } }`
fn on(pairs: &[(&str, &str)]) -> NextSpec {
    NextSpec::Mapping(vec![NextEntry {
        key: Some("on".to_string()),
        value: NextValue::Nested(
            pairs.iter().map(|(k, v)| (Some(k.to_string()), Some(v.to_string()))).collect(),
        ),
    }])
}

fn with_next(mut s: StateConfig, next: NextSpec) -> StateConfig {
    s.next = Some(next);
    s
}

fn sub(workflow: &str, next: NextSpec) -> StateConfig {
    let mut s = state(StateKind::Workflow);
    s.workflow = Some(workflow.to_string());
    s.next = Some(next);
    s
}

fn workflow(name: &str, initial: &str, states: Vec<(&str, StateConfig)>) -> BlueprintWorkflow {
    BlueprintWorkflow {
        name: Some(name.to_string()),
        initial_state: Some(initial.to_string()),
        schedule: None,
        trigger: None,
        states: states.into_iter().map(|(n, s)| (n.to_string(), s)).collect(),
    }
}

fn registry(list: Vec<(&str, BlueprintWorkflow)>) -> WorkflowRegistry {
    WorkflowRegistry::from_workflows(list.into_iter().map(|(n, w)| (n.to_string(), w)).collect())
}

fn messages_with<'a>(findings: &'a [AuditFinding], needle: &str) -> Vec<&'a AuditFinding> {
    findings.iter().filter(|f| f.message.contains(needle)).collect()
}

// ── Rendering and suggestions ────────────────────────────────────────────────

#[test]
fn suggest_filename_finds_substring_match() {
    let available = vec![(
        "rust-quality.yml".to_string(),
        GhaWorkflow { name: Some("Rust Quality".to_string()), jobs: vec![] },
    )];
    let result = suggest_filename(".github/workflows/quality.yml", &available);
    assert_eq!(result.as_deref(), Some("rust-quality.yml"));
}

#[test]
fn suggest_filename_without_candidates_is_none() {
    assert_eq!(suggest_filename(".github/workflows/quality.yml", &vec![]), None);
}

#[test]
fn render_audit_clean() {
    let audit = StateMachineAudit { findings: vec![] };
    let output = render_audit(&audit);
    assert_eq!(output, "State machine audit: all references valid");
}

#[test]
fn render_audit_with_findings() {
    let audit = StateMachineAudit {
        findings: vec![
            AuditFinding {
                severity: AuditSeverity::Error,
                source: "test-wf".to_string(),
                message: "workflow file not found".to_string(),
                suggestion: Some("did you mean foo.yml?".to_string()),
            },
            AuditFinding {
                severity: AuditSeverity::Warning,
                source: "test-wf".to_string(),
                message: "orphan check".to_string(),
                suggestion: None,
            },
        ],
    };
    let output = render_audit(&audit);
    assert!(output.contains("1 error(s), 1 warning(s)"));
    assert!(output.contains("[ERROR]"));
    assert!(output.contains("[WARN]"));
    assert!(output.contains("suggestion: did you mean foo.yml?"));
    assert_eq!(audit.error_count(), 1);
    assert_eq!(audit.warning_count(), 1);
    assert_eq!(audit.format_errors(), "[test-wf] workflow file not found");
}

#[test]
fn error_and_warning_counts_add_up_to_the_findings() {
    let finding = |severity: AuditSeverity, message: &str| AuditFinding {
        severity,
        source: "wf".to_string(),
        message: message.to_string(),
        suggestion: None,
    };
    let audit = StateMachineAudit {
        findings: vec![
            finding(AuditSeverity::Warning, "a"),
            finding(AuditSeverity::Error, "b"),
            finding(AuditSeverity::Warning, "c"),
            finding(AuditSeverity::Warning, "d"),
        ],
    };
    assert_eq!(audit.error_count(), 1);
    assert_eq!(audit.warning_count(), 3);
    assert_eq!(audit.error_count() + audit.warning_count(), audit.findings.len());
}

#[test]
fn names_match_ignores_case() {
    assert!(names_match("Quality Gate", "quality gate"));
    assert!(!names_match("Quality Gate", "Quality Gates"));
}

// ── Reachability ─────────────────────────────────────────────────────────────

#[test]
fn reachability_detects_unreachable_state() {
    let wf = workflow(
        "test-unreachable",
        "start",
        vec![
            ("start", with_next(state(StateKind::Agent), top(&[("on_success", "done")]))),
            ("orphan", with_next(state(StateKind::Agent), top(&[("on_success", "done")]))),
            ("done", state(StateKind::Terminal)),
        ],
    );
    let mut findings = Vec::new();
    audit_reachability("test-wf", &wf, &mut findings);
    let unreachable = messages_with(&findings, "not reachable");
    assert_eq!(unreachable.len(), 1);
    assert!(unreachable[0].message.contains("orphan"));
    assert_eq!(unreachable[0].severity, AuditSeverity::Error);
}

#[test]
fn reachability_detects_dead_branch() {
    let mut middle = state(StateKind::Agent);
    middle.description = Some("no next — dead end, not terminal".to_string());
    let wf = workflow(
        "test-dead-branch",
        "start",
        vec![
            ("start", with_next(state(StateKind::Agent), on(&[("ok", "middle"), ("done", "done")]))),
            ("middle", middle),
            ("done", state(StateKind::Terminal)),
        ],
    );
    let mut findings = Vec::new();
    audit_reachability("test-wf", &wf, &mut findings);
    let dead = messages_with(&findings, "dead branch");
    assert_eq!(dead.len(), 1);
    assert!(dead[0].message.contains("middle"));
}

#[test]
fn reachability_detects_undefined_transition_target() {
    let wf = workflow(
        "test-undefined-target",
        "start",
        vec![
            ("start", with_next(state(StateKind::Agent), top(&[("on_success", "nonexistent")]))),
            ("done", state(StateKind::Terminal)),
        ],
    );
    let mut findings = Vec::new();
    audit_reachability("test-wf", &wf, &mut findings);
    let undefined = messages_with(&findings, "not declared");
    assert_eq!(undefined.len(), 1);
    assert!(undefined[0].message.contains("nonexistent"));
}

#[test]
fn reachability_passes_for_well_formed_workflow() {
    let wf = workflow(
        "test-valid",
        "start",
        vec![
            ("start", with_next(state(StateKind::Agent), on(&[("ok", "middle"), ("fail", "blocked")]))),
            (
                "middle",
                with_next(state(StateKind::Agent), top(&[("on_success", "done"), ("on_failure", "blocked")])),
            ),
            ("blocked", with_next(state(StateKind::Human), on(&[("resolved", "start"), ("abort", "aborted")]))),
            ("done", state(StateKind::Terminal)),
            ("aborted", state(StateKind::Terminal)),
        ],
    );
    let mut findings = Vec::new();
    audit_reachability("test-wf", &wf, &mut findings);
    assert!(findings.is_empty(), "expected no findings for well-formed workflow: {findings:?}");
}

#[test]
fn reachable_from_follows_transitions_forwards() {
    let wf = workflow(
        "chain",
        "a",
        vec![
            ("a", with_next(state(StateKind::Agent), top(&[("on_success", "b")]))),
            ("b", with_next(state(StateKind::Agent), top(&[("on_success", "c")]))),
            ("c", state(StateKind::Terminal)),
            ("d", with_next(state(StateKind::Agent), top(&[("on_success", "c")]))),
        ],
    );
    let mut seen = reachable_from(&wf, &vec!["a".to_string()], true);
    seen.sort();
    assert_eq!(seen, vec!["a".to_string(), "b".to_string(), "c".to_string()]);
    let mut back = reachable_from(&wf, &vec!["c".to_string()], false);
    back.sort();
    assert_eq!(back, vec!["a".to_string(), "b".to_string(), "c".to_string(), "d".to_string()]);
}

// ── Cross-workflow graph ─────────────────────────────────────────────────────

#[test]
fn workflow_graph_detects_orphan_workflow() {
    let root = workflow(
        "root",
        "start",
        vec![
            ("start", with_next(state(StateKind::Agent), top(&[("on_success", "done")]))),
            ("done", state(StateKind::Terminal)),
        ],
    );
    let orphan = workflow(
        "orphan-wf",
        "begin",
        vec![
            ("begin", with_next(state(StateKind::Agent), top(&[("on_success", "end")]))),
            ("end", state(StateKind::Terminal)),
        ],
    );
    let reg = registry(vec![("root", root), ("orphan-wf", orphan)]);
    let mut findings = Vec::new();
    audit_workflow_graph(&vec!["root".to_string()], &reg, &mut findings);
    let orphans = messages_with(&findings, "not reachable from any entry point");
    assert_eq!(orphans.len(), 1);
    assert!(orphans[0].message.contains("orphan-wf"));
}

#[test]
fn workflow_graph_detects_missing_sub_workflow() {
    let root = workflow(
        "root",
        "start",
        vec![("start", sub("nonexistent", on(&[("done", "finish")]))), ("finish", state(StateKind::Terminal))],
    );
    let reg = registry(vec![("root", root)]);
    let mut findings = Vec::new();
    audit_workflow_graph(&vec!["root".to_string()], &reg, &mut findings);
    let missing = messages_with(&findings, "not in the embedded workflow library");
    assert_eq!(missing.len(), 1);
    assert!(missing[0].message.contains("nonexistent"));
}

fn child() -> BlueprintWorkflow {
    workflow(
        "child",
        "work",
        vec![
            ("work", with_next(state(StateKind::Agent), top(&[("on_success", "done"), ("on_failure", "aborted")]))),
            ("done", state(StateKind::Terminal)),
            ("aborted", state(StateKind::Terminal)),
        ],
    )
}

#[test]
fn workflow_graph_detects_handoff_mismatch() {
    let parent = workflow(
        "parent",
        "dispatch",
        vec![
            ("dispatch", sub("child", on(&[("done", "finish"), ("wrong-event", "finish")]))),
            ("finish", state(StateKind::Terminal)),
        ],
    );
    let reg = registry(vec![("parent", parent), ("child", child())]);
    let mut findings = Vec::new();
    audit_workflow_graph(&vec!["parent".to_string()], &reg, &mut findings);

    let bad_event = messages_with(&findings, "has no terminal state named");
    assert_eq!(bad_event.len(), 1);
    assert!(bad_event[0].message.contains("wrong-event"));

    let unhandled = messages_with(&findings, "does not handle terminal");
    assert_eq!(unhandled.len(), 1);
    assert!(unhandled[0].message.contains("aborted"));
}

#[test]
fn workflow_graph_valid_handoff_no_errors() {
    let parent = workflow(
        "parent",
        "dispatch",
        vec![
            ("dispatch", sub("child", on(&[("done", "finish"), ("aborted", "finish")]))),
            ("finish", state(StateKind::Terminal)),
        ],
    );
    let reg = registry(vec![("parent", parent), ("child", child())]);
    let mut findings = Vec::new();
    audit_workflow_graph(&vec!["parent".to_string()], &reg, &mut findings);
    assert!(findings.is_empty(), "expected no findings for valid handoff: {findings:?}");
}

#[test]
fn structural_audit_of_valid_library_has_no_errors() {
    let reg = registry(vec![("child", child())]);
    let audit = run_structural_audit(&reg, vec![], None);
    assert_eq!(audit.error_count(), 0, "{}", render_audit(&audit));
}

#[test]
fn structural_audit_reports_template_error() {
    let reg = registry(vec![("child", child())]);
    let audit = run_structural_audit(&reg, vec![], Some("bad template".to_string()));
    assert_eq!(audit.error_count(), 1);
    assert!(audit.findings.iter().any(|f| f.message.contains("bad template")));
}

// ── Transition specs ─────────────────────────────────────────────────────────

#[test]
fn next_spec_all_targets_extracts_on_map() {
    let spec = on(&[("ok", "state-a"), ("fail", "state-b")]);
    let mut targets = spec.all_targets();
    targets.sort();
    assert_eq!(targets, vec!["state-a", "state-b"]);
}

#[test]
fn next_spec_all_targets_extracts_top_level_keys() {
    let spec = top(&[("on_success", "state-a"), ("on_failure", "state-b"), ("on_rejection", "state-c")]);
    let mut targets = spec.all_targets();
    targets.sort();
    assert_eq!(targets, vec!["state-a", "state-b", "state-c"]);
}

#[test]
fn next_spec_all_event_keys_extracts_on_map_keys() {
    let spec = on(&[("done", "state-a"), ("aborted", "state-b")]);
    let mut keys = spec.all_event_keys();
    keys.sort();
    assert_eq!(keys, vec!["aborted", "done"]);
}

#[test]
fn next_spec_all_event_keys_extracts_top_level() {
    let spec = top(&[("on_success", "state-a"), ("on_failure", "state-b")]);
    let mut keys = spec.all_event_keys();
    keys.sort();
    assert_eq!(keys, vec!["on_failure", "on_success"]);
}

#[test]
fn next_spec_target_for_looks_up_event() {
    let spec = on(&[("done", "state-a")]);
    assert_eq!(spec.target_for("done"), Some("state-a"));
    assert_eq!(spec.target_for("other"), None);
    let flat = top(&[("on_success", "x")]);
    assert_eq!(flat.target_for("on_success"), Some("x"));
}

// ── Workflow references ──────────────────────────────────────────────────────

fn gha(file: &str, name: &str, jobs: &[&str]) -> (String, GhaWorkflow) {
    (
        file.to_string(),
        GhaWorkflow { name: Some(name.to_string()), jobs: jobs.iter().map(|j| j.to_string()).collect() },
    )
}

#[test]
fn audit_reports_missing_workflow_file_with_suggestion() {
    let available = vec![gha("rust-quality.yml", "Rust Quality", &["check"])];
    let mut findings = Vec::new();
    validate_workflow_reference(
        "test-source",
        "check 'ci-gate'",
        ".github/workflows/quality-gate.yml",
        None,
        AuditSeverity::Error,
        false,
        &available,
        &mut findings,
    );
    assert_eq!(findings.len(), 1);
    assert_eq!(findings[0].severity, AuditSeverity::Error);
    assert!(findings[0].message.contains("not found"));
}

#[test]
fn missing_workflow_file_suggests_closest_name() {
    let available = vec![gha("rust-quality.yml", "Rust Quality", &["check"])];
    let mut findings = Vec::new();
    validate_workflow_reference(
        "src",
        "ctx",
        ".github/workflows/quality.yml",
        None,
        AuditSeverity::Warning,
        false,
        &available,
        &mut findings,
    );
    assert_eq!(findings[0].severity, AuditSeverity::Warning);
    assert_eq!(findings[0].message, "ctx: workflow file not found: .github/workflows/quality.yml");
    assert_eq!(findings[0].suggestion.as_deref(), Some("did you mean .github/workflows/rust-quality.yml?"));
}

#[test]
fn audit_reports_workflow_name_mismatch() {
    let available = vec![gha("quality-gate.yml", "Quality gate", &["quality"])];
    let mut findings = Vec::new();
    validate_workflow_reference(
        "test-source",
        "check 'ci-gate'",
        ".github/workflows/quality-gate.yml",
        Some("Quality Gate"),
        AuditSeverity::Error,
        true,
        &available,
        &mut findings,
    );
    assert!(findings.is_empty(), "case-insensitive match should pass: {findings:?}");

    validate_workflow_reference(
        "test-source",
        "check 'ci-gate'",
        ".github/workflows/quality-gate.yml",
        Some("Wrong Name"),
        AuditSeverity::Error,
        true,
        &available,
        &mut findings,
    );
    assert_eq!(findings.len(), 1);
    assert_eq!(findings[0].severity, AuditSeverity::Warning);
    assert!(findings[0].message.contains("mismatch"));
    assert!(findings[0].suggestion.as_ref().unwrap().contains("Quality gate"));
}

#[test]
fn audit_reports_invalid_job_key() {
    let available = vec![gha("release.yml", "Release", &["build", "deploy"])];
    let mut findings = Vec::new();
    validate_job_keys(
        "test-source",
        "check 'release-lint'",
        ".github/workflows/release.yml",
        &vec!["nonexistent-job".to_string()],
        &available,
        &mut findings,
    );
    assert_eq!(findings.len(), 1);
    assert_eq!(findings[0].severity, AuditSeverity::Error);
    assert!(findings[0].message.contains("nonexistent-job"));
    assert!(findings[0].message.contains("build, deploy"));
}

#[test]
fn audit_reports_valid_job_key_no_finding() {
    let available = vec![gha("release.yml", "Release", &["build", "deploy"])];
    let mut findings = Vec::new();
    validate_job_keys(
        "test-source",
        "check 'release-build'",
        ".github/workflows/release.yml",
        &vec!["build".to_string()],
        &available,
        &mut findings,
    );
    assert!(findings.is_empty());
}

#[test]
fn job_keys_of_unknown_file_are_skipped() {
    let mut findings = Vec::new();
    validate_job_keys("s", "c", ".github/workflows/none.yml", &vec!["x".to_string()], &vec![], &mut findings);
    assert!(findings.is_empty());
}
