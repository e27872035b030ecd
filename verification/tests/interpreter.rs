use nightshift_core::blueprint_workflows::{
    BlueprintWorkflow, ExecutionTarget, NextEntry, NextSpec, NextValue, ScheduleConfig, StateConfig, StateKind,
    TriggerConfig,
};
use nightshift_core::interpreter::{next_fire_in, EntryPoint, StepOutcome, WorkflowInterpreter, WorkflowRegistry};
use nightshift_core::interpreter_scheduler::{
    cron_step, entry_point_log, fired_outcome, initial_position, plan_schedule, CronStep, SchedulePlan, SchedulerMode,
    SchedulerOutcome,
};
use nightshift_core::orchestrator::{doctor_gate, executor_step, no_cron_hint, scheduler_exit_code};
use nightshift_core::signal::SignalKind;

fn state(kind: StateKind, next: &[(&str, &str)]) -> StateConfig {
    StateConfig {
        kind: Some(kind),
        role: None,
        cost: None,
        description: None,
        prompt: None,
        execution_target: ExecutionTarget::Local,
        function: None,
        command: None,
        workflow: None,
        actor: None,
        trigger: None,
        workflows: None,
        poll_cmd: None,
        ci_job: None,
        completion: None,
        cleanup: None,
        gates: None,
        next: if next.is_empty() {
            None
        } else {
            Some(NextSpec::Mapping(vec![NextEntry {
                key: Some("on".to_string()),
                value: NextValue::Nested(next.iter().map(|(e, t)| (Some(e.to_string()), Some(t.to_string()))).collect()),
            }]))
        },
    }
}

fn delegate(child: &str, next: &[(&str, &str)]) -> StateConfig {
    let mut s = state(StateKind::Workflow, next);
    s.workflow = Some(child.to_string());
    s
}

fn wf(initial: &str, states: Vec<(&str, StateConfig)>) -> BlueprintWorkflow {
    BlueprintWorkflow {
        name: None,
        initial_state: Some(initial.to_string()),
        schedule: None,
        trigger: None,
        states: states.into_iter().map(|(n, s)| (n.to_string(), s)).collect(),
    }
}

/// main: scan → (plan) dispatch → [child] → (done) scan; scan → (idle) idle → (stop) done.
fn registry() -> WorkflowRegistry {
    let mut main = wf(
        "scan",
        vec![
            ("scan", state(StateKind::Agent, &[("plan", "dispatch"), ("idle", "idle")])),
            ("dispatch", delegate("child", &[("done", "scan"), ("failed", "done")])),
            ("idle", state(StateKind::Human, &[("stop", "done")])),
            ("done", state(StateKind::Terminal, &[])),
        ],
    );
    main.schedule = Some(ScheduleConfig { cron: "0 * * * * *".to_string(), description: None });
    let child = wf(
        "work",
        vec![
            ("work", state(StateKind::Agent, &[("on_success", "review")])),
            ("review", state(StateKind::Deterministic, &[("on_success", "done"), ("on_failure", "failed")])),
            ("done", state(StateKind::Terminal, &[])),
            ("failed", state(StateKind::Terminal, &[])),
        ],
    );
    let mut manual = wf("ask", vec![("ask", state(StateKind::Human, &[("ok", "end")])), ("end", state(StateKind::Terminal, &[]))]);
    manual.trigger = None;
    let mut release = wf("start", vec![("start", state(StateKind::Terminal, &[]))]);
    release.trigger = Some(TriggerConfig {
        event: Some("release-requested".to_string()),
        pattern: Some("v*".to_string()),
        branch_constraint: None,
        ci_entry: None,
    });
    WorkflowRegistry::from_workflows(vec![
        ("main".to_string(), main),
        ("child".to_string(), child),
        ("manual".to_string(), manual),
        ("release".to_string(), release),
    ])
}

#[test]
fn next_fire_in_every_second() {
    let (secs, _nanos) = next_fire_in("*/1 * * * * *").unwrap();
    assert!(secs <= 1, "expected fire within 1s, got {secs}s");
}

#[test]
fn next_fire_in_invalid_expression_returns_error() {
    assert!(next_fire_in("not-a-cron").is_err());
}

#[test]
fn start_unknown_workflow_returns_error() {
    let interp = WorkflowInterpreter::new(registry());
    assert!(interp.start("does-not-exist").is_err());
}

#[test]
fn start_at_initial_state() {
    let interp = WorkflowInterpreter::new(registry());
    let exec = interp.start("main").unwrap();
    assert_eq!(exec.position.workflow, "main");
    assert_eq!(exec.position.state, "scan");
    assert!(exec.call_stack.is_empty());
    assert_eq!(interp.current_kind(&exec), Some(StateKind::Agent));
}

#[test]
fn advance_to_plain_state_then_terminal_at_root() {
    let interp = WorkflowInterpreter::new(registry());
    let mut exec = interp.start("main").unwrap();
    assert!(matches!(interp.advance(&mut exec, "idle"), StepOutcome::Advanced(_)));
    assert_eq!(exec.position.state, "idle");
    let outcome = interp.advance(&mut exec, "stop");
    assert!(matches!(outcome, StepOutcome::Terminal(_)));
    assert_eq!(exec.position.state, "done");
}

#[test]
fn advance_enters_sub_workflow_and_returns_to_parent() {
    let interp = WorkflowInterpreter::new(registry());
    let mut exec = interp.start("main").unwrap();
    match interp.advance(&mut exec, "plan") {
        StepOutcome::EnteredSubWorkflow { parent, child } => {
            assert_eq!(parent.state, "dispatch");
            assert_eq!(child.workflow, "child");
            assert_eq!(child.state, "work");
        }
        other => panic!("expected EnteredSubWorkflow, got {other:?}"),
    }
    assert_eq!(exec.call_stack.len(), 1);
    assert_eq!(exec.call_stack[0].workflow, "main");
    assert_eq!(exec.call_stack[0].state, "dispatch");

    interp.advance(&mut exec, "on_success");
    match interp.advance(&mut exec, "on_success") {
        StepOutcome::ReturnedToParent { terminal_state, parent } => {
            assert_eq!(terminal_state, "done");
            assert_eq!(parent.workflow, "main");
            assert_eq!(parent.state, "scan");
        }
        other => panic!("expected ReturnedToParent, got {other:?}"),
    }
    assert!(exec.call_stack.is_empty());
}

#[test]
fn invalid_event_returns_error() {
    let interp = WorkflowInterpreter::new(registry());
    let mut exec = interp.start("main").unwrap();
    let before = exec.clone();
    assert!(matches!(interp.advance(&mut exec, "nonexistent-event"), StepOutcome::Error(_)));
    assert_eq!(exec, before, "a refused event leaves the execution where it was");
}

#[test]
fn registry_lookups() {
    let reg = registry();
    assert_eq!(reg.len(), 4);
    assert!(reg.get("child").is_some());
    assert!(reg.get("nope").is_none());
    assert_eq!(reg.get_state("child", "review").unwrap().kind, Some(StateKind::Deterministic));
    assert_eq!(reg.sub_workflow_names(), vec!["child".to_string()]);
}

#[test]
fn entry_points_classify_workflows() {
    let interp = WorkflowInterpreter::new(registry());
    let entries = interp.entry_points();
    assert!(!entries.iter().any(|e| e.workflow() == "child"), "pure sub-workflows are not entry points");
    assert!(entries.iter().any(|e| matches!(e, EntryPoint::CronScheduled { workflow, .. } if workflow == "main")));
    assert!(entries.iter().any(|e| matches!(e, EntryPoint::UserAction { workflow, .. } if workflow == "manual")));
    assert!(entries.iter().any(|e| matches!(e, EntryPoint::EventTriggered { workflow, event, .. } if workflow == "release" && event == "release-requested")));
}

#[test]
fn plan_schedule_by_mode() {
    let interp = WorkflowInterpreter::new(registry());
    let entries = interp.entry_points();
    assert_eq!(
        plan_schedule(SchedulerMode::SinglePass, &entries),
        SchedulePlan::Finish(SchedulerOutcome::Discovered { entry_point_count: entries.len() })
    );
    assert_eq!(
        plan_schedule(SchedulerMode::Daemon, &entries),
        SchedulePlan::WaitFor { workflow: "main".to_string(), cron: "0 * * * * *".to_string() }
    );
    let manual_only: Vec<EntryPoint> = entries.into_iter().filter(|e| matches!(e, EntryPoint::UserAction { .. })).collect();
    assert_eq!(
        plan_schedule(SchedulerMode::Daemon, &manual_only),
        SchedulePlan::Finish(SchedulerOutcome::NoCronEntries { user_action_workflows: vec!["manual".to_string()] })
    );
}

#[test]
fn initial_position_returns_correct_state() {
    let interp = WorkflowInterpreter::new(registry());
    let pos = initial_position(&interp, "child").unwrap();
    assert_eq!(pos.workflow, "child");
    assert_eq!(pos.state, "work");
}

#[test]
fn initial_position_returns_none_for_unknown_workflow() {
    let interp = WorkflowInterpreter::new(registry());
    assert!(initial_position(&interp, "nope").is_none());
    assert_eq!(
        fired_outcome(&interp, "nope"),
        SchedulerOutcome::Fired { workflow: "nope".to_string(), initial_state: "unknown".to_string() }
    );
}

#[test]
fn log_entry_points_includes_cron_event_user_auto_kinds() {
    let cron = EntryPoint::CronScheduled { workflow: "w".to_string(), cron: "* * * * * *".to_string(), description: None };
    let (msg, fields) = entry_point_log(&cron);
    assert_eq!(msg, "entry point: cron 'w' @ * * * * * *");
    assert!(fields.contains(&("kind".to_string(), "cron".to_string())));
    let event = EntryPoint::EventTriggered { workflow: "r".to_string(), event: "e".to_string(), pattern: None };
    assert_eq!(entry_point_log(&event).0, "entry point: event 'r' on e");
    let user = EntryPoint::UserAction { workflow: "u".to_string(), description: None, prompt: None };
    assert_eq!(entry_point_log(&user).0, "entry point: user 'u'");
    let auto = EntryPoint::AutoStart { workflow: "a".to_string(), description: None };
    assert!(entry_point_log(&auto).1.contains(&("kind".to_string(), "auto".to_string())));
}

#[test]
fn cron_step_decisions() {
    assert_eq!(cron_step(Some(SignalKind::Terminate), Ok((5, 0))), CronStep::Interrupted);
    assert_eq!(cron_step(None, Err("bad".to_string())), CronStep::LoadError("bad".to_string()));
    assert_eq!(cron_step(None, Ok((0, 0))), CronStep::Fire);
    assert_eq!(cron_step(None, Ok((7, 10))), CronStep::Sleep { secs: 1, nanos: 0 });
    assert_eq!(cron_step(None, Ok((0, 500))), CronStep::Sleep { secs: 0, nanos: 500 });
}

#[test]
fn executor_runs_fired_workflow_to_terminal() {
    let interp = WorkflowInterpreter::new(registry());
    let mut exec = interp.start("child").unwrap();
    let mut code = None;
    for _ in 0..10 {
        let (_, verdict) = executor_step(&interp, &mut exec);
        if verdict.is_some() {
            code = verdict;
            break;
        }
    }
    assert_eq!(code, Some(0));
    assert_eq!(exec.position.state, "done");
}

#[test]
fn orchestrator_exit_codes() {
    assert_eq!(scheduler_exit_code(&SchedulerOutcome::Discovered { entry_point_count: 3 }), Some(0));
    assert_eq!(scheduler_exit_code(&SchedulerOutcome::Interrupted), Some(1));
    assert_eq!(scheduler_exit_code(&SchedulerOutcome::LoadError("x".to_string())), Some(2));
    assert_eq!(
        scheduler_exit_code(&SchedulerOutcome::Fired { workflow: "w".to_string(), initial_state: "s".to_string() }),
        None
    );
    assert_eq!(doctor_gate(SchedulerMode::SinglePass, 1), Some(1));
    assert_eq!(doctor_gate(SchedulerMode::Daemon, 1), None);
    assert_eq!(doctor_gate(SchedulerMode::SinglePass, 0), None);
}

#[test]
fn no_cron_hint_lists_manual_workflows() {
    assert_eq!(
        no_cron_hint(&vec!["a".to_string(), "b".to_string()]),
        "Found a.yaml, b.yaml which are correctly formed, but none start on a cron, exiting now.\nTo start a specific action based on a manual trigger use --select-flow"
    );
    assert!(no_cron_hint(&vec![]).starts_with("No workflow files with a cron schedule"));
}
