use nightshift_core::blueprint_workflows::{AgentCost, BlueprintWorkflow, ExecutionTarget, StateKind};
use nightshift_core::gha::{
    condition_events, derive_kind, parse_needs, GhaDispatch, GhaJob, GhaNeeds, GhaStep, GhaTriggers,
    GhaWorkflowDoc,
};

fn step(uses: Option<&str>, run: Option<&str>) -> GhaStep {
    GhaStep { uses: uses.map(|s| s.to_string()), run: run.map(|s| s.to_string()), with_fields: None }
}

fn agent_step(role: &str, cost: &str, prompt: &str) -> GhaStep {
    GhaStep {
        uses: Some("./.github/actions/calypso-agent".to_string()),
        run: None,
        with_fields: Some(vec![
            ("role".to_string(), Some(role.to_string())),
            ("cost".to_string(), Some(cost.to_string())),
            ("prompt".to_string(), Some(prompt.to_string())),
        ]),
    }
}

fn job(needs: GhaNeeds, cond: Option<&str>, runs_on: bool, steps: Vec<GhaStep>) -> GhaJob {
    GhaJob {
        needs,
        if_condition: cond.map(|s| s.to_string()),
        runs_on: if runs_on { Some("ubuntu-latest".to_string()) } else { None },
        uses: None,
        steps,
    }
}

fn needs(name: &str) -> GhaNeeds {
    GhaNeeds::One(name.to_string())
}

/// plan → (approved) build → done, plan → (rejected) rejected; build delegates.
fn sample_doc() -> GhaWorkflowDoc {
    let mut build = job(needs("plan"), Some("needs.plan.outputs.event == 'approved'"), false, vec![]);
    build.uses = Some("./.github/workflows/calypso-implementation-loop.yml".to_string());
    GhaWorkflowDoc {
        name: Some("Sample".to_string()),
        on: Some(GhaTriggers {
            first_cron: Some("0 * * * *".to_string()),
            dispatch: Some(GhaDispatch::Value {
                event_description: Some("feature-request".to_string()),
                event_default: Some("feat/*".to_string()),
            }),
        }),
        jobs: vec![
            ("plan".to_string(), job(GhaNeeds::Absent, None, true, vec![agent_step("planner", "guru", "Plan it")])),
            ("build".to_string(), build),
            (
                "rejected".to_string(),
                job(
                    needs("plan"),
                    Some("needs.plan.outputs.event == 'rejected'"),
                    true,
                    vec![step(None, Some("echo 'Terminal state: rejected'"))],
                ),
            ),
            ("done".to_string(), job(needs("build"), None, false, vec![])),
        ],
    }
}

fn state<'a>(wf: &'a BlueprintWorkflow, name: &str) -> &'a nightshift_core::blueprint_workflows::StateConfig {
    wf.state(name).expect("state should exist")
}

#[test]
fn from_gha_derives_header_fields() {
    let wf = BlueprintWorkflow::from_gha(sample_doc());
    assert_eq!(wf.name.as_deref(), Some("Sample"));
    assert_eq!(wf.initial_state.as_deref(), Some("plan"));
    assert_eq!(wf.schedule.as_ref().map(|s| s.cron.as_str()), Some("0 * * * *"));
    let trigger = wf.trigger.as_ref().expect("trigger");
    assert_eq!(trigger.event.as_deref(), Some("feature-request"));
    assert_eq!(trigger.pattern.as_deref(), Some("feat/*"));
    assert_eq!(wf.states.len(), 4);
}

#[test]
fn from_gha_derives_state_kinds() {
    let wf = BlueprintWorkflow::from_gha(sample_doc());
    assert_eq!(state(&wf, "plan").kind, Some(StateKind::Agent));
    assert_eq!(state(&wf, "build").kind, Some(StateKind::Workflow));
    assert_eq!(state(&wf, "rejected").kind, Some(StateKind::Terminal));
    assert_eq!(state(&wf, "done").kind, Some(StateKind::Terminal));
}

#[test]
fn from_gha_derives_agent_config_and_targets() {
    let wf = BlueprintWorkflow::from_gha(sample_doc());
    let plan = state(&wf, "plan");
    assert_eq!(plan.role.as_deref(), Some("planner"));
    assert_eq!(plan.cost, Some(AgentCost::Guru));
    assert_eq!(plan.prompt.as_deref(), Some("Plan it"));
    assert_eq!(plan.execution_target, ExecutionTarget::GitHub);
    let build = state(&wf, "build");
    assert_eq!(build.execution_target, ExecutionTarget::Local);
    assert_eq!(build.workflow.as_deref(), Some("calypso-implementation-loop"));
    assert_eq!(state(&wf, "rejected").command.as_deref(), Some("echo 'Terminal state: rejected'"));
}

#[test]
fn from_gha_derives_transitions() {
    let wf = BlueprintWorkflow::from_gha(sample_doc());
    let plan_next = state(&wf, "plan").next.as_ref().expect("plan has transitions");
    assert_eq!(plan_next.target_for("approved"), Some("build"));
    assert_eq!(plan_next.target_for("rejected"), Some("rejected"));
    let build_next = state(&wf, "build").next.as_ref().expect("build has transitions");
    assert_eq!(build_next.target_for("on_complete"), Some("done"));
    assert!(state(&wf, "done").next.is_none());
}

#[test]
fn from_gha_cyclic_graph_starts_at_first_job() {
    let doc = GhaWorkflowDoc {
        name: None,
        on: None,
        jobs: vec![
            ("a".to_string(), job(needs("b"), None, true, vec![step(None, Some("true"))])),
            ("b".to_string(), job(needs("a"), None, true, vec![step(None, Some("true"))])),
        ],
    };
    let wf = BlueprintWorkflow::from_gha(doc);
    assert_eq!(wf.initial_state.as_deref(), Some("a"));
    assert!(wf.schedule.is_none());
    assert!(wf.trigger.is_none());
    assert_eq!(state(&wf, "a").kind, Some(StateKind::Deterministic));
}

#[test]
fn from_gha_empty_document() {
    let wf = BlueprintWorkflow::from_gha(GhaWorkflowDoc { name: None, on: None, jobs: vec![] });
    assert!(wf.initial_state.is_none());
    assert!(wf.states.is_empty());
}

#[test]
fn bare_workflow_dispatch_is_manual_trigger() {
    let doc = GhaWorkflowDoc {
        name: None,
        on: Some(GhaTriggers { first_cron: None, dispatch: Some(GhaDispatch::Null) }),
        jobs: vec![],
    };
    let wf = BlueprintWorkflow::from_gha(doc);
    let t = wf.trigger.expect("manual trigger");
    assert!(t.event.is_none() && t.pattern.is_none());
}

#[test]
fn dispatch_description_with_spaces_is_not_an_event() {
    let doc = GhaWorkflowDoc {
        name: None,
        on: Some(GhaTriggers {
            first_cron: None,
            dispatch: Some(GhaDispatch::Value {
                event_description: Some("a free-form description".to_string()),
                event_default: Some("x".to_string()),
            }),
        }),
        jobs: vec![],
    };
    let t = BlueprintWorkflow::from_gha(doc).trigger.expect("trigger");
    assert!(t.event.is_none());
    assert!(t.pattern.is_none());
}

#[test]
fn condition_events_reads_each_event_of_the_job() {
    let cond = "needs.review.outputs.event == 'approved' || needs.review.outputs.event == 'merged'";
    assert_eq!(condition_events(cond, "review"), vec!["approved".to_string(), "merged".to_string()]);
    assert!(condition_events("needs.other.outputs.event == 'x'", "review").is_empty());
}

#[test]
fn parse_needs_accepts_string_and_list() {
    assert_eq!(parse_needs(&GhaNeeds::One("a".to_string())), vec!["a".to_string()]);
    assert_eq!(
        parse_needs(&GhaNeeds::Many(vec![Some("a".to_string()), None, Some("b".to_string())])),
        vec!["a".to_string(), "b".to_string()]
    );
    assert!(parse_needs(&GhaNeeds::Absent).is_empty());
    assert!(parse_needs(&GhaNeeds::Other).is_empty());
}

#[test]
fn derive_kind_reads_action_references() {
    let human = job(GhaNeeds::Absent, None, true, vec![step(Some("./.github/actions/calypso-human-gate"), None)]);
    assert_eq!(derive_kind(&human, false), StateKind::Human);
    let poller = job(GhaNeeds::Absent, None, true, vec![step(Some("org/calypso-github-poller@v1"), None)]);
    assert_eq!(derive_kind(&poller, false), StateKind::Github);
    let empty = job(GhaNeeds::Absent, None, false, vec![]);
    assert_eq!(derive_kind(&empty, false), StateKind::Terminal);
    assert_eq!(derive_kind(&empty, true), StateKind::Deterministic);
}

#[test]
fn derived_workflow_is_closed() {
    let wf = BlueprintWorkflow::from_gha(sample_doc());
    let names: Vec<&str> = wf.states.iter().map(|(n, _)| n.as_str()).collect();
    assert!(names.contains(&wf.initial_state.as_deref().unwrap()));
    for (_, cfg) in &wf.states {
        if let Some(next) = &cfg.next {
            for t in next.all_targets() {
                assert!(names.contains(&t), "target {t} is not a state");
            }
        }
    }
}

#[test]
fn duplicate_job_names_keep_the_last_definition() {
    let doc = GhaWorkflowDoc {
        name: None,
        on: None,
        jobs: vec![
            ("a".to_string(), job(GhaNeeds::Absent, None, true, vec![step(None, Some("first"))])),
            ("a".to_string(), job(GhaNeeds::Absent, None, false, vec![step(None, Some("second"))])),
        ],
    };
    let wf = BlueprintWorkflow::from_gha(doc);
    assert_eq!(wf.states.len(), 1);
    assert_eq!(wf.states[0].1.command.as_deref(), Some("second"));
    assert_eq!(wf.states[0].1.execution_target, ExecutionTarget::Local);
}
