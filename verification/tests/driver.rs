use nightshift_core::headless_persist::{ExitReasonTag, HeadlessRunState};
use nightshift_core::headless_sm::{validate_raw, HeadlessStateMachine, RawState, RawStateMachine};
use nightshift_core::headless_sm_driver::{
    AgentOutcome, BuiltinOutcome, DriverEvent, ExitReason, HeadlessSmDriver, NoJournal, EventObserver, NoObserver, RunJournal, StepExecutor,
};
use nightshift_core::signal::{ShutdownSignal, SignalKind};
use std::cell::RefCell;

// ── Helpers ──────────────────────────────────────────────────────────────────

fn st(name: &str, action: &str) -> RawState {
    RawState {
        name: name.to_string(),
        action: action.to_string(),
        builtin: None,
        on_success: None,
        on_failure: None,
        on_pass: None,
        on_fail: None,
        target: None,
    }
}

fn terminal(name: &str) -> RawState {
    st(name, "terminal")
}

fn agent(name: &str, ok: &str, fail: &str) -> RawState {
    RawState { on_success: Some(ok.to_string()), on_failure: Some(fail.to_string()), ..st(name, "agent") }
}

fn builtin(name: &str, key: &str, pass: &str, fail: &str) -> RawState {
    RawState {
        builtin: Some(key.to_string()),
        on_pass: Some(pass.to_string()),
        on_fail: Some(fail.to_string()),
        ..st(name, "builtin")
    }
}

fn looping(name: &str, target: &str) -> RawState {
    RawState { target: Some(target.to_string()), ..st(name, "loop") }
}

fn machine(initial: &str, states: Vec<RawState>) -> HeadlessStateMachine {
    validate_raw(
        RawStateMachine { name: None, initial_state: initial.to_string(), states },
        "<test>",
    )
    .unwrap()
}

/// The user-recovery workflow: scan → check → done, with retry and error.
fn recovery_workflow() -> HeadlessStateMachine {
    let sm = validate_raw(
        RawStateMachine {
            name: Some("user-recovery".to_string()),
            initial_state: "scan".to_string(),
            states: vec![
                agent("scan", "check", "error"),
                builtin("check", "builtin.git.is_main_compatible", "done", "retry"),
                looping("retry", "scan"),
                terminal("done"),
                terminal("error"),
            ],
        },
        "<test>",
    )
    .unwrap();
    assert_eq!(sm.states.len(), 5);
    sm
}

/// Returns pre-scripted outcomes, one per call, and panics when they run out.
struct ScriptedExecutor {
    agent_outcomes: RefCell<Vec<AgentOutcome>>,
    builtin_outcomes: RefCell<Vec<BuiltinOutcome>>,
}

impl ScriptedExecutor {
    fn new(agent_outcomes: Vec<AgentOutcome>, builtin_outcomes: Vec<BuiltinOutcome>) -> Self {
        Self { agent_outcomes: RefCell::new(agent_outcomes), builtin_outcomes: RefCell::new(builtin_outcomes) }
    }
}

impl StepExecutor for ScriptedExecutor {
    fn run_agent(&self, state_name: &str) -> AgentOutcome {
        let mut queue = self.agent_outcomes.borrow_mut();
        if queue.is_empty() {
            panic!("ScriptedExecutor: no more agent outcomes queued (state: {state_name})");
        }
        queue.remove(0)
    }

    fn run_builtin(&self, state_name: &str, builtin_key: &str) -> BuiltinOutcome {
        let mut queue = self.builtin_outcomes.borrow_mut();
        if queue.is_empty() {
            panic!("ScriptedExecutor: no more builtin outcomes queued (state: {state_name}, builtin: {builtin_key})");
        }
        queue.remove(0)
    }
}

/// A journal that keeps the last snapshot in memory, as the snapshot file would.
#[derive(Default)]
struct MemJournal {
    snapshot: Option<HeadlessRunState>,
    writes: usize,
}

impl RunJournal for MemJournal {
    fn record(&mut self, _path: &str, state: &str, iteration: usize, reason: ExitReasonTag, detail: Option<String>) {
        self.writes += 1;
        self.snapshot = Some(HeadlessRunState {
            current_state: state.to_string(),
            iteration,
            exit_reason: reason,
            exit_detail: detail,
            timestamp: "2026-03-22T06:00:00Z".to_string(),
        });
    }

    fn clear(&mut self, _path: &str) {
        self.snapshot = None;
    }
}

fn signal(kind: SignalKind) -> ShutdownSignal {
    let (tx, rx) = std::sync::mpsc::channel();
    tx.send(kind).unwrap();
    ShutdownSignal::from_receiver(rx)
}

// ── Happy path ───────────────────────────────────────────────────────────────

#[test]
fn minimal_terminal_machine_exits_immediately() {
    let sm = machine("idle", vec![terminal("idle")]);
    let executor = ScriptedExecutor::new(vec![], vec![]);
    let result = HeadlessSmDriver::new(&sm).run(&executor, &mut NoJournal, &mut Vec::new(), &mut NoObserver, None);
    assert_eq!(result, ExitReason::Terminal { state: "idle".to_string() });
}

#[test]
fn two_state_machine_agent_success_path() {
    let sm = machine("work", vec![agent("work", "done", "error"), terminal("done"), terminal("error")]);
    let executor = ScriptedExecutor::new(vec![AgentOutcome::Success], vec![]);
    let result = HeadlessSmDriver::new(&sm).run(&executor, &mut NoJournal, &mut Vec::new(), &mut NoObserver, None);
    assert_eq!(result, ExitReason::Terminal { state: "done".to_string() });
}

#[test]
fn two_state_machine_agent_failure_path() {
    let sm = machine("work", vec![agent("work", "done", "error"), terminal("done"), terminal("error")]);
    let executor =
        ScriptedExecutor::new(vec![AgentOutcome::Failure { reason: "agent gave up".to_string() }], vec![]);
    let result = HeadlessSmDriver::new(&sm).run(&executor, &mut NoJournal, &mut Vec::new(), &mut NoObserver, None);
    assert_eq!(result, ExitReason::Terminal { state: "error".to_string() });
}

#[test]
fn builtin_pass_path() {
    let sm = machine(
        "check",
        vec![builtin("check", "builtin.git.is_main_compatible", "done", "error"), terminal("done"), terminal("error")],
    );
    let executor = ScriptedExecutor::new(vec![], vec![BuiltinOutcome::Pass]);
    let result = HeadlessSmDriver::new(&sm).run(&executor, &mut NoJournal, &mut Vec::new(), &mut NoObserver, None);
    assert_eq!(result, ExitReason::Terminal { state: "done".to_string() });
}

#[test]
fn builtin_fail_path() {
    let sm = machine(
        "check",
        vec![builtin("check", "builtin.git.is_main_compatible", "done", "error"), terminal("done"), terminal("error")],
    );
    let executor = ScriptedExecutor::new(vec![], vec![BuiltinOutcome::Fail { reason: "not rebased".to_string() }]);
    let result = HeadlessSmDriver::new(&sm).run(&executor, &mut NoJournal, &mut Vec::new(), &mut NoObserver, None);
    assert_eq!(result, ExitReason::Terminal { state: "error".to_string() });
}

#[test]
fn looped_workflow_iterates_multiple_times() {
    let sm = machine("scan", vec![agent("scan", "done", "retry"), looping("retry", "scan"), terminal("done")]);
    let executor = ScriptedExecutor::new(
        vec![AgentOutcome::Failure { reason: "first pass failed".to_string() }, AgentOutcome::Success],
        vec![],
    );
    let result = HeadlessSmDriver::new(&sm).run(&executor, &mut NoJournal, &mut Vec::new(), &mut NoObserver, None);
    assert_eq!(result, ExitReason::Terminal { state: "done".to_string() });
    assert!(executor.agent_outcomes.borrow().is_empty(), "both agent outcomes should be consumed");
}

#[test]
fn full_recovery_workflow_fixture_runs_to_done_on_success() {
    let sm = recovery_workflow();
    let executor = ScriptedExecutor::new(vec![AgentOutcome::Success], vec![BuiltinOutcome::Pass]);
    let result = HeadlessSmDriver::new(&sm).run(&executor, &mut NoJournal, &mut Vec::new(), &mut NoObserver, None);
    assert_eq!(result, ExitReason::Terminal { state: "done".to_string() });
}

#[test]
fn full_recovery_workflow_iterates_on_check_fail() {
    let sm = recovery_workflow();
    let executor = ScriptedExecutor::new(
        vec![AgentOutcome::Success, AgentOutcome::Success],
        vec![BuiltinOutcome::Fail { reason: "not ready".to_string() }, BuiltinOutcome::Pass],
    );
    let result = HeadlessSmDriver::new(&sm).run(&executor, &mut NoJournal, &mut Vec::new(), &mut NoObserver, None);
    assert_eq!(result, ExitReason::Terminal { state: "done".to_string() });
}

#[test]
fn full_recovery_workflow_reaches_error_on_agent_failure() {
    let sm = recovery_workflow();
    let executor =
        ScriptedExecutor::new(vec![AgentOutcome::Failure { reason: "provider offline".to_string() }], vec![]);
    let result = HeadlessSmDriver::new(&sm).run(&executor, &mut NoJournal, &mut Vec::new(), &mut NoObserver, None);
    assert_eq!(result, ExitReason::Terminal { state: "error".to_string() });
}

// ── Error exit reasons ───────────────────────────────────────────────────────

#[test]
fn agent_fatal_error_exits_with_error_reason() {
    let sm = machine("work", vec![agent("work", "done", "done"), terminal("done")]);
    let executor = ScriptedExecutor::new(vec![AgentOutcome::Error { error: "provider crashed".to_string() }], vec![]);
    let result = HeadlessSmDriver::new(&sm).run(&executor, &mut NoJournal, &mut Vec::new(), &mut NoObserver, None);
    assert!(matches!(result, ExitReason::Error { .. }), "expected Error exit, got: {result:?}");
    if let ExitReason::Error { state, message } = result {
        assert_eq!(state, "work");
        assert!(message.contains("provider crashed"), "got: {message}");
    }
}

#[test]
fn builtin_fatal_error_exits_with_error_reason() {
    let sm = machine("check", vec![builtin("check", "builtin.git.is_main_compatible", "done", "done"), terminal("done")]);
    let executor =
        ScriptedExecutor::new(vec![], vec![BuiltinOutcome::Error { error: "git binary not found".to_string() }]);
    let result = HeadlessSmDriver::new(&sm).run(&executor, &mut NoJournal, &mut Vec::new(), &mut NoObserver, None);
    assert!(matches!(result, ExitReason::Error { .. }), "expected Error exit, got: {result:?}");
    if let ExitReason::Error { message, .. } = result {
        assert!(message.contains("git binary not found"), "got: {message}");
    }
}

// ── Step limit ───────────────────────────────────────────────────────────────

struct AlwaysFailExecutor;

impl StepExecutor for AlwaysFailExecutor {
    fn run_agent(&self, _state: &str) -> AgentOutcome {
        AgentOutcome::Failure { reason: "always fails".to_string() }
    }

    fn run_builtin(&self, _state: &str, _key: &str) -> BuiltinOutcome {
        BuiltinOutcome::Pass
    }
}

#[test]
fn step_limit_stops_infinite_loop() {
    let sm = machine("work", vec![agent("work", "done", "retry"), looping("retry", "work"), terminal("done")]);
    let result = HeadlessSmDriver::new(&sm).with_max_steps(5).run(&AlwaysFailExecutor, &mut NoJournal, &mut Vec::new(), &mut NoObserver, None);
    assert_eq!(result, ExitReason::StepLimitReached { max_steps: 5 }, "got: {result:?}");
}

#[test]
fn zero_step_limit_stops_before_first_state() {
    let sm = machine("idle", vec![terminal("idle")]);
    let executor = ScriptedExecutor::new(vec![], vec![]);
    let result = HeadlessSmDriver::new(&sm).with_max_steps(0).run(&executor, &mut NoJournal, &mut Vec::new(), &mut NoObserver, None);
    assert_eq!(result, ExitReason::StepLimitReached { max_steps: 0 });
}

// ── Shutdown signal ──────────────────────────────────────────────────────────

#[test]
fn shutdown_signal_interrupts_before_first_step() {
    let sm = machine("work", vec![agent("work", "done", "done"), terminal("done")]);
    let executor = ScriptedExecutor::new(vec![], vec![]);
    let shutdown = signal(SignalKind::Terminate);
    let result = HeadlessSmDriver::new(&sm).run(&executor, &mut NoJournal, &mut Vec::new(), &mut NoObserver, Some(&shutdown));
    assert!(matches!(result, ExitReason::Interrupted { .. }), "got: {result:?}");
    if let ExitReason::Interrupted { signal } = result {
        assert_eq!(signal, "SIGTERM");
    }
}

#[test]
fn sigint_interrupts_with_correct_signal_name() {
    let sm = machine("idle", vec![terminal("idle")]);
    let executor = ScriptedExecutor::new(vec![], vec![]);
    let shutdown = signal(SignalKind::Interrupt);
    let result = HeadlessSmDriver::new(&sm).run(&executor, &mut NoJournal, &mut Vec::new(), &mut NoObserver, Some(&shutdown));
    assert!(matches!(result, ExitReason::Interrupted { .. }), "got: {result:?}");
    if let ExitReason::Interrupted { signal } = result {
        assert_eq!(signal, "SIGINT");
    }
}

// ── Derived traits ───────────────────────────────────────────────────────────

#[test]
fn agent_outcome_debug_and_eq() {
    let a = AgentOutcome::Success;
    let b = AgentOutcome::Success;
    assert_eq!(a, b);
    assert_eq!(format!("{a:?}"), "Success");
}

#[test]
fn builtin_outcome_debug_and_eq() {
    let a = BuiltinOutcome::Pass;
    let b = BuiltinOutcome::Pass;
    assert_eq!(a, b);
    assert_eq!(format!("{a:?}"), "Pass");
}

#[test]
fn exit_reason_debug_and_eq() {
    let a = ExitReason::Terminal { state: "done".to_string() };
    let b = a.clone();
    assert_eq!(a, b);
    let debug = format!("{a:?}");
    assert!(debug.contains("Terminal"));
    assert!(debug.contains("done"));
}

// ── Snapshots ────────────────────────────────────────────────────────────────

#[test]
fn persist_path_snapshot_written_on_interrupt() {
    let sm = machine("work", vec![agent("work", "done", "done"), terminal("done")]);
    let executor = ScriptedExecutor::new(vec![], vec![]);
    let shutdown = signal(SignalKind::Interrupt);
    let mut journal = MemJournal::default();
    let _ = HeadlessSmDriver::new(&sm)
        .with_persist_path("/tmp/headless-state.json".to_string())
        .run(&executor, &mut journal, &mut Vec::new(), &mut NoObserver, Some(&shutdown));
    let snapshot = journal.snapshot.expect("snapshot should exist after interrupt");
    assert_eq!(snapshot.current_state, "work");
    assert_eq!(snapshot.exit_reason, ExitReasonTag::Interrupted);
    assert_eq!(snapshot.exit_detail.as_deref(), Some("SIGINT"));
}

#[test]
fn persist_path_snapshot_cleared_on_terminal_exit() {
    let sm = machine("done", vec![terminal("done")]);
    let executor = ScriptedExecutor::new(vec![], vec![]);
    let mut journal = MemJournal::default();
    let _ = HeadlessSmDriver::new(&sm)
        .with_persist_path("/tmp/headless-state.json".to_string())
        .run(&executor, &mut journal, &mut Vec::new(), &mut NoObserver, None);
    assert!(journal.snapshot.is_none(), "snapshot should be deleted after terminal exit");
}

#[test]
fn persist_path_snapshot_written_on_step_limit() {
    let sm = machine("work", vec![looping("work", "work")]);
    let executor = ScriptedExecutor::new(vec![], vec![]);
    let mut journal = MemJournal::default();
    let _ = HeadlessSmDriver::new(&sm)
        .with_persist_path("/tmp/headless-state.json".to_string())
        .with_max_steps(3)
        .run(&executor, &mut journal, &mut Vec::new(), &mut NoObserver, None);
    let snapshot = journal.snapshot.expect("snapshot should exist after step limit");
    assert_eq!(snapshot.exit_reason, ExitReasonTag::StepLimitReached);
    assert_eq!(snapshot.current_state, "work");
}

#[test]
fn persist_path_snapshot_written_on_agent_error() {
    let sm = machine("work", vec![agent("work", "done", "done"), terminal("done")]);
    let executor = ScriptedExecutor::new(vec![AgentOutcome::Error { error: "provider crashed".to_string() }], vec![]);
    let mut journal = MemJournal::default();
    let _ = HeadlessSmDriver::new(&sm)
        .with_persist_path("/tmp/headless-state.json".to_string())
        .run(&executor, &mut journal, &mut Vec::new(), &mut NoObserver, None);
    let snapshot = journal.snapshot.expect("snapshot should exist after agent error");
    assert_eq!(snapshot.exit_reason, ExitReasonTag::Error);
    assert_eq!(snapshot.current_state, "work");
    assert!(snapshot.exit_detail.as_deref().unwrap_or("").contains("provider crashed"));
}

#[test]
fn resume_starts_from_recorded_state_not_initial() {
    let sm = machine("start", vec![agent("start", "done", "done"), terminal("done")]);
    let executor = ScriptedExecutor::new(vec![], vec![]);
    let resume = HeadlessRunState {
        current_state: "done".to_string(),
        iteration: 5,
        exit_reason: ExitReasonTag::Interrupted,
        exit_detail: Some("SIGINT".to_string()),
        timestamp: "2026-03-22T06:00:00Z".to_string(),
    };
    let mut log = Vec::new();
    let result = HeadlessSmDriver::new(&sm).with_resume(resume).run(&executor, &mut NoJournal, &mut log, &mut NoObserver, None);
    assert_eq!(result, ExitReason::Terminal { state: "done".to_string() });
    assert_eq!(log[0], DriverEvent::Started {
            state: "done".to_string(),
            iteration: 5,
            resumed_from: Some(ExitReasonTag::Interrupted),
        });
    assert!(
        !log.iter().any(|e| matches!(e, DriverEvent::StateEntered { state, .. } if state == "start")),
        "the initial state must not be entered"
    );
    assert!(!log.iter().any(|e| matches!(e, DriverEvent::AgentRan { .. })), "the executor must not run");
}

#[test]
fn resume_continues_iteration_counter_from_snapshot() {
    let sm = machine("scan", vec![agent("scan", "done", "done"), terminal("done")]);
    let executor = ScriptedExecutor::new(vec![AgentOutcome::Success], vec![]);
    let resume = HeadlessRunState {
        current_state: "scan".to_string(),
        iteration: 10,
        exit_reason: ExitReasonTag::Interrupted,
        exit_detail: Some("SIGINT".to_string()),
        timestamp: "2026-03-22T06:00:00Z".to_string(),
    };
    let shutdown = {
        let (_tx, rx) = std::sync::mpsc::channel::<SignalKind>();
        ShutdownSignal::from_receiver(rx)
    };
    let mut journal = MemJournal::default();
    let result = HeadlessSmDriver::new(&sm)
        .with_resume(resume)
        .with_persist_path("/tmp/headless-state.json".to_string())
        .with_max_steps(1)
        .run(&executor, &mut journal, &mut Vec::new(), &mut NoObserver, Some(&shutdown));
    // scan runs at iteration 11; the limit is then hit at iteration 12.
    assert_eq!(result, ExitReason::StepLimitReached { max_steps: 1 });
    let snapshot = journal.snapshot.expect("snapshot after step limit");
    assert_eq!(snapshot.iteration, 12);
    assert_eq!(snapshot.current_state, "done");
}

#[test]
fn no_persist_path_runs_cleanly() {
    let sm = machine("done", vec![terminal("done")]);
    let executor = ScriptedExecutor::new(vec![], vec![]);
    let mut journal = MemJournal::default();
    let result = HeadlessSmDriver::new(&sm).run(&executor, &mut journal, &mut Vec::new(), &mut NoObserver, None);
    assert_eq!(result, ExitReason::Terminal { state: "done".to_string() });
    assert_eq!(journal.writes, 0, "no snapshot without a persist path");
}

#[test]
fn unknown_resume_state_is_an_error() {
    let sm = machine("done", vec![terminal("done")]);
    let executor = ScriptedExecutor::new(vec![], vec![]);
    let resume = HeadlessRunState {
        current_state: "gone".to_string(),
        iteration: 0,
        exit_reason: ExitReasonTag::Interrupted,
        exit_detail: None,
        timestamp: "2026-03-22T06:00:00Z".to_string(),
    };
    let result = HeadlessSmDriver::new(&sm).with_resume(resume).run(&executor, &mut NoJournal, &mut Vec::new(), &mut NoObserver, None);
    assert_eq!(
        result,
        ExitReason::Error {
            state: "gone".to_string(),
            message: "state 'gone' not found in state graph".to_string()
        }
    );
}

// ── Workflow shapes ──────────────────────────────────────────────────────────

/// Keeps every snapshot the driver records; the positions recorded before a
/// state's action are the states entered, in order.
#[derive(Default)]
struct RecordingJournal {
    entered: Vec<String>,
    exits: Vec<(String, ExitReasonTag)>,
}

impl RunJournal for RecordingJournal {
    fn record(&mut self, _path: &str, state: &str, _iteration: usize, reason: ExitReasonTag, detail: Option<String>) {
        if reason == ExitReasonTag::Interrupted && detail.is_none() {
            self.entered.push(state.to_string());
        } else {
            self.exits.push((state.to_string(), reason));
        }
    }

    fn clear(&mut self, _path: &str) {}
}

fn run_recorded(sm: &HeadlessStateMachine, executor: &ScriptedExecutor) -> (ExitReason, Vec<String>) {
    let mut journal = RecordingJournal::default();
    let result = HeadlessSmDriver::new(sm).with_persist_path("run.json".to_string()).run(executor, &mut journal, &mut Vec::new(), &mut NoObserver, None);
    (result, journal.entered)
}

#[test]
fn straight_line_a_to_b_to_terminal() {
    let sm = machine("work", vec![agent("work", "done", "error"), terminal("done"), terminal("error")]);
    let executor = ScriptedExecutor::new(vec![AgentOutcome::Success], vec![]);
    let (result, entered) = run_recorded(&sm, &executor);
    assert_eq!(result, ExitReason::Terminal { state: "done".to_string() }, "expected Terminal(done)");
    assert_eq!(entered, vec!["work", "done"], "expected states entered in order [work, done]");
}

#[test]
fn straight_line_a_to_c_via_failure() {
    let sm = machine("work", vec![agent("work", "done", "error"), terminal("done"), terminal("error")]);
    let executor = ScriptedExecutor::new(vec![AgentOutcome::Failure { reason: "task error".to_string() }], vec![]);
    let (result, entered) = run_recorded(&sm, &executor);
    assert_eq!(result, ExitReason::Terminal { state: "error".to_string() }, "expected Terminal(error)");
    assert_eq!(entered, vec!["work", "error"], "expected states entered in order [work, error]");
}

#[test]
fn branching_success_branch_reaches_b() {
    let sm = machine("gate", vec![agent("gate", "branch_b", "branch_c"), terminal("branch_b"), terminal("branch_c")]);
    let executor = ScriptedExecutor::new(vec![AgentOutcome::Success], vec![]);
    let (result, entered) = run_recorded(&sm, &executor);
    assert_eq!(result, ExitReason::Terminal { state: "branch_b".to_string() }, "success branch must reach branch_b");
    assert_eq!(entered, vec!["gate", "branch_b"], "expected states [gate, branch_b] in order");
}

#[test]
fn branching_failure_branch_reaches_c() {
    let sm = machine("gate", vec![agent("gate", "branch_b", "branch_c"), terminal("branch_b"), terminal("branch_c")]);
    let executor = ScriptedExecutor::new(vec![AgentOutcome::Failure { reason: "gate failed".to_string() }], vec![]);
    let (result, entered) = run_recorded(&sm, &executor);
    assert_eq!(result, ExitReason::Terminal { state: "branch_c".to_string() }, "failure branch must reach branch_c");
    assert_eq!(entered, vec!["gate", "branch_c"], "expected states [gate, branch_c] in order");
}

#[test]
fn looping_scan_fails_twice_then_succeeds() {
    let sm = machine("scan", vec![agent("scan", "done", "retry"), looping("retry", "scan"), terminal("done")]);
    let executor = ScriptedExecutor::new(
        vec![
            AgentOutcome::Failure { reason: "attempt 1 failed".to_string() },
            AgentOutcome::Failure { reason: "attempt 2 failed".to_string() },
            AgentOutcome::Success,
        ],
        vec![],
    );
    let mut journal = RecordingJournal::default();
    let mut log = Vec::new();
    let result = HeadlessSmDriver::new(&sm)
        .with_persist_path("run.json".to_string())
        .run(&executor, &mut journal, &mut log, &mut NoObserver, None);
    assert_eq!(result, ExitReason::Terminal { state: "done".to_string() }, "expected Terminal(done) after two retries");
    assert_eq!(journal.entered, vec!["scan", "retry", "scan", "retry", "scan", "done"], "unexpected state entry order");
    let entered: Vec<&str> = log
        .iter()
        .filter_map(|e| match e {
            DriverEvent::StateEntered { state, .. } => Some(state.as_str()),
            _ => None,
        })
        .collect();
    assert_eq!(entered, vec!["scan", "retry", "scan", "retry", "scan", "done"]);
    let transitions: Vec<&str> = log
        .iter()
        .filter_map(|e| match e {
            DriverEvent::TransitionSelected { transition, .. } => Some(transition.as_str()),
            _ => None,
        })
        .collect();
    assert_eq!(transitions, vec!["on_failure", "loop", "on_failure", "loop", "on_success"]);
    let agent_runs: Vec<&str> = log
        .iter()
        .filter_map(|e| match e {
            DriverEvent::AgentRan { state, .. } => Some(state.as_str()),
            _ => None,
        })
        .collect();
    assert_eq!(agent_runs, vec!["scan", "scan", "scan"], "expected three agent steps, each for scan");
    assert!(executor.agent_outcomes.borrow().is_empty(), "expected three agent calls");
}

#[test]
fn step_limit_one_enters_only_the_first_state() {
    let sm = machine("a", vec![looping("a", "b"), terminal("b")]);
    let executor = ScriptedExecutor::new(vec![], vec![]);
    let mut log = Vec::new();
    let result = HeadlessSmDriver::new(&sm).with_max_steps(1).run(&executor, &mut NoJournal, &mut log, &mut NoObserver, None);
    assert_eq!(result, ExitReason::StepLimitReached { max_steps: 1 });
    assert_eq!(
        log,
        vec![
            DriverEvent::Started { state: "a".to_string(), iteration: 0, resumed_from: None },
            DriverEvent::StateEntered { state: "a".to_string(), iteration: 1 },
            DriverEvent::TransitionSelected {
                from_state: "a".to_string(),
                to_state: "b".to_string(),
                transition: "loop".to_string(),
            },
            DriverEvent::Stopped {
                state: "b".to_string(),
                iteration: 2,
                reason: ExitReason::StepLimitReached { max_steps: 1 },
            },
        ]
    );
}

#[test]
fn agent_error_stops_in_the_agent_state() {
    let sm = machine("work", vec![agent("work", "done", "done"), terminal("done")]);
    let executor = ScriptedExecutor::new(vec![AgentOutcome::Error { error: "provider crashed".to_string() }], vec![]);
    let mut log = Vec::new();
    let result = HeadlessSmDriver::new(&sm).run(&executor, &mut NoJournal, &mut log, &mut NoObserver, None);
    let expected = ExitReason::Error { state: "work".to_string(), message: "provider crashed".to_string() };
    assert_eq!(result, expected);
    assert_eq!(log.last(), Some(&DriverEvent::Stopped { state: "work".to_string(), iteration: 1, reason: expected }));
    assert!(!log.iter().any(|e| matches!(e, DriverEvent::StateEntered { state, .. } if state == "done")));
}

#[test]
fn looping_builtin_gate_retries_until_pass() {
    let sm = machine(
        "scan",
        vec![
            agent("scan", "gate", "done"),
            builtin("gate", "builtin.git.is_main_compatible", "done", "retry"),
            looping("retry", "scan"),
            terminal("done"),
        ],
    );
    let executor = ScriptedExecutor::new(
        vec![AgentOutcome::Success, AgentOutcome::Success],
        vec![BuiltinOutcome::Fail { reason: "not ready".to_string() }, BuiltinOutcome::Pass],
    );
    let (result, entered) = run_recorded(&sm, &executor);
    assert_eq!(result, ExitReason::Terminal { state: "done".to_string() });
    assert_eq!(entered, vec!["scan", "gate", "retry", "scan", "gate", "done"], "unexpected state entry order");
}

// ── The run's log ───────────────────────────────────────────────────────────

fn run_logged(sm: &HeadlessStateMachine, executor: &ScriptedExecutor, max_steps: Option<usize>, shutdown: Option<&ShutdownSignal>) -> (ExitReason, Vec<DriverEvent>) {
    let mut log = Vec::new();
    let mut d = HeadlessSmDriver::new(sm);
    if let Some(m) = max_steps {
        d = d.with_max_steps(m);
    }
    let r = d.run(executor, &mut NoJournal, &mut log, &mut NoObserver, shutdown);
    (r, log)
}

fn stop_of(log: &[DriverEvent]) -> (String, usize, ExitReason) {
    match log.last() {
        Some(DriverEvent::Stopped { state, iteration, reason }) => (state.clone(), *iteration, reason.clone()),
        other => panic!("run log does not end with a stop: {other:?}"),
    }
}

#[test]
fn startup_log_includes_initial_state() {
    let sm = machine("begin", vec![terminal("begin")]);
    let (_, log) = run_logged(&sm, &ScriptedExecutor::new(vec![], vec![]), None, None);
    assert_eq!(log[0], DriverEvent::Started { state: "begin".to_string(), iteration: 0, resumed_from: None });
}

#[test]
fn exit_reason_logged_on_terminal() {
    let sm = machine("done", vec![terminal("done")]);
    let (_, log) = run_logged(&sm, &ScriptedExecutor::new(vec![], vec![]), None, None);
    assert_eq!(stop_of(&log).2, ExitReason::Terminal { state: "done".to_string() });
}

#[test]
fn exit_reason_logged_on_step_limit() {
    let sm = machine("work", vec![looping("work", "work")]);
    let (_, log) = run_logged(&sm, &ScriptedExecutor::new(vec![], vec![]), Some(3), None);
    assert_eq!(stop_of(&log).2, ExitReason::StepLimitReached { max_steps: 3 });
}

#[test]
fn exit_reason_logged_on_error() {
    let sm = machine("work", vec![agent("work", "done", "done"), terminal("done")]);
    let executor = ScriptedExecutor::new(vec![AgentOutcome::Error { error: "fatal".to_string() }], vec![]);
    let (_, log) = run_logged(&sm, &executor, None, None);
    assert_eq!(stop_of(&log).2, ExitReason::Error { state: "work".to_string(), message: "fatal".to_string() });
}

#[test]
fn exit_reason_logged_on_interrupt() {
    let sm = machine("work", vec![agent("work", "done", "done"), terminal("done")]);
    let (tx, rx) = std::sync::mpsc::channel();
    tx.send(SignalKind::Interrupt).unwrap();
    let shutdown = ShutdownSignal::from_receiver(rx);
    let (_, log) = run_logged(&sm, &ScriptedExecutor::new(vec![], vec![]), None, Some(&shutdown));
    assert_eq!(stop_of(&log).2, ExitReason::Interrupted { signal: "SIGINT".to_string() });
    assert!(!log.iter().any(|e| matches!(e, DriverEvent::StateEntered { .. })), "no state may be entered");
}

#[test]
fn state_entry_emits_state_entered_event() {
    let sm = machine("idle", vec![terminal("idle")]);
    let (_, log) = run_logged(&sm, &ScriptedExecutor::new(vec![], vec![]), None, None);
    assert_eq!(log[1], DriverEvent::StateEntered { state: "idle".to_string(), iteration: 1 });
}

#[test]
fn agent_success_emits_step_executed_and_transition_selected() {
    let sm = machine("work", vec![agent("work", "done", "done"), terminal("done")]);
    let (_, log) = run_logged(&sm, &ScriptedExecutor::new(vec![AgentOutcome::Success], vec![]), None, None);
    assert_eq!(log[2], DriverEvent::AgentRan { state: "work".to_string(), outcome: AgentOutcome::Success });
    assert_eq!(
        log[3],
        DriverEvent::TransitionSelected {
            from_state: "work".to_string(),
            to_state: "done".to_string(),
            transition: "on_success".to_string(),
        }
    );
    assert_eq!(log[1], DriverEvent::StateEntered { state: "work".to_string(), iteration: 1 });
}

#[test]
fn agent_failure_emits_step_executed_with_reason_and_transition_selected() {
    let sm = machine("work", vec![agent("work", "done", "error"), terminal("done"), terminal("error")]);
    let outcome = AgentOutcome::Failure { reason: "provider offline".to_string() };
    let (_, log) = run_logged(&sm, &ScriptedExecutor::new(vec![outcome.clone()], vec![]), None, None);
    assert_eq!(log[2], DriverEvent::AgentRan { state: "work".to_string(), outcome });
    assert_eq!(
        log[3],
        DriverEvent::TransitionSelected {
            from_state: "work".to_string(),
            to_state: "error".to_string(),
            transition: "on_failure".to_string(),
        }
    );
}

#[test]
fn builtin_pass_emits_step_executed_and_transition_selected() {
    let sm = machine(
        "check",
        vec![builtin("check", "builtin.git.is_main_compatible", "done", "error"), terminal("done"), terminal("error")],
    );
    let (_, log) = run_logged(&sm, &ScriptedExecutor::new(vec![], vec![BuiltinOutcome::Pass]), None, None);
    assert_eq!(
        log[2],
        DriverEvent::BuiltinRan {
            state: "check".to_string(),
            builtin: "builtin.git.is_main_compatible".to_string(),
            outcome: BuiltinOutcome::Pass,
        }
    );
    assert_eq!(
        log[3],
        DriverEvent::TransitionSelected {
            from_state: "check".to_string(),
            to_state: "done".to_string(),
            transition: "on_pass".to_string(),
        }
    );
}

#[test]
fn builtin_fail_emits_step_executed_with_reason_and_transition_selected() {
    let sm = machine(
        "check",
        vec![builtin("check", "builtin.git.is_main_compatible", "done", "error"), terminal("done"), terminal("error")],
    );
    let outcome = BuiltinOutcome::Fail { reason: "not rebased".to_string() };
    let (_, log) = run_logged(&sm, &ScriptedExecutor::new(vec![], vec![outcome.clone()]), None, None);
    assert_eq!(
        log[2],
        DriverEvent::BuiltinRan {
            state: "check".to_string(),
            builtin: "builtin.git.is_main_compatible".to_string(),
            outcome,
        }
    );
    assert_eq!(
        log[3],
        DriverEvent::TransitionSelected {
            from_state: "check".to_string(),
            to_state: "error".to_string(),
            transition: "on_fail".to_string(),
        }
    );
}

#[test]
fn loop_transition_emits_transition_selected_event() {
    let sm = machine("scan", vec![agent("scan", "done", "retry"), looping("retry", "scan"), terminal("done")]);
    let executor = ScriptedExecutor::new(
        vec![AgentOutcome::Failure { reason: "first try".to_string() }, AgentOutcome::Success],
        vec![],
    );
    let (_, log) = run_logged(&sm, &executor, None, None);
    assert!(log.contains(&DriverEvent::TransitionSelected {
        from_state: "retry".to_string(),
        to_state: "scan".to_string(),
        transition: "loop".to_string(),
    }));
}

#[test]
fn iteration_counter_increments_across_loop_cycles() {
    let sm = machine("scan", vec![agent("scan", "done", "retry"), looping("retry", "scan"), terminal("done")]);
    let executor = ScriptedExecutor::new(
        vec![AgentOutcome::Failure { reason: "not yet".to_string() }, AgentOutcome::Success],
        vec![],
    );
    let (_, log) = run_logged(&sm, &executor, None, None);
    let entered: Vec<(String, usize)> = log
        .iter()
        .filter_map(|e| match e {
            DriverEvent::StateEntered { state, iteration } => Some((state.clone(), *iteration)),
            _ => None,
        })
        .collect();
    assert_eq!(
        entered,
        vec![("scan".to_string(), 1), ("retry".to_string(), 2), ("scan".to_string(), 3), ("done".to_string(), 4)]
    );
}

#[test]
fn step_limit_log_includes_step_and_iteration() {
    let sm = machine("work", vec![looping("work", "work")]);
    let (_, log) = run_logged(&sm, &ScriptedExecutor::new(vec![], vec![]), Some(3), None);
    let entered = log.iter().filter(|e| matches!(e, DriverEvent::StateEntered { .. })).count();
    assert_eq!(entered, 3);
    assert_eq!(stop_of(&log), ("work".to_string(), 4, ExitReason::StepLimitReached { max_steps: 3 }));
}

#[test]
fn shutdown_log_includes_signal_step_and_iteration() {
    let sm = machine("work", vec![agent("work", "done", "done"), terminal("done")]);
    let (tx, rx) = std::sync::mpsc::channel();
    tx.send(SignalKind::Terminate).unwrap();
    let shutdown = ShutdownSignal::from_receiver(rx);
    let (_, log) = run_logged(&sm, &ScriptedExecutor::new(vec![], vec![]), None, Some(&shutdown));
    assert_eq!(stop_of(&log), ("work".to_string(), 1, ExitReason::Interrupted { signal: "SIGTERM".to_string() }));
}

#[test]
fn resume_logs_previous_exit_reason() {
    let sm = machine("done", vec![terminal("done")]);
    let resume = HeadlessRunState {
        current_state: "done".to_string(),
        iteration: 3,
        exit_reason: ExitReasonTag::Interrupted,
        exit_detail: Some("SIGTERM".to_string()),
        timestamp: "2026-03-22T06:00:00Z".to_string(),
    };
    let mut log = Vec::new();
    let _ = HeadlessSmDriver::new(&sm).with_resume(resume).run(
        &ScriptedExecutor::new(vec![], vec![]),
        &mut NoJournal,
        &mut log,
        &mut NoObserver,
        None,
    );
    assert_eq!(
        log[0],
        DriverEvent::Started { state: "done".to_string(), iteration: 3, resumed_from: Some(ExitReasonTag::Interrupted) }
    );
}

fn event_kinds(log: &[DriverEvent]) -> Vec<&'static str> {
    log.iter()
        .map(|e| match e {
            DriverEvent::Started { .. } => "startup",
            DriverEvent::StateEntered { .. } => "state_entered",
            DriverEvent::AgentRan { .. } | DriverEvent::BuiltinRan { .. } => "step_executed",
            DriverEvent::TransitionSelected { .. } => "transition_selected",
            DriverEvent::Stopped { .. } => "shutdown",
        })
        .collect()
}

#[test]
fn straight_line_full_event_type_sequence_is_ordered() {
    let sm = machine("task", vec![agent("task", "end", "end"), terminal("end")]);
    let (result, log) = run_logged(&sm, &ScriptedExecutor::new(vec![AgentOutcome::Success], vec![]), None, None);
    assert_eq!(result, ExitReason::Terminal { state: "end".to_string() });
    assert_eq!(
        event_kinds(&log),
        vec!["startup", "state_entered", "step_executed", "transition_selected", "state_entered", "shutdown"]
    );
}

#[test]
fn builtin_gate_full_event_type_sequence_is_ordered() {
    let sm = machine(
        "check",
        vec![builtin("check", "builtin.git.is_main_compatible", "done", "done"), terminal("done")],
    );
    let (result, log) = run_logged(&sm, &ScriptedExecutor::new(vec![], vec![BuiltinOutcome::Pass]), None, None);
    assert_eq!(result, ExitReason::Terminal { state: "done".to_string() });
    assert_eq!(
        event_kinds(&log),
        vec!["startup", "state_entered", "step_executed", "transition_selected", "state_entered", "shutdown"]
    );
}

struct CollectingObserver {
    seen: Vec<DriverEvent>,
}

impl EventObserver for CollectingObserver {
    fn observe(&mut self, event: &DriverEvent) {
        self.seen.push(event.clone());
    }
}

#[test]
fn observer_sees_each_logged_event_in_order() {
    let sm = machine("task", vec![agent("task", "end", "end"), terminal("end")]);
    let executor = ScriptedExecutor::new(vec![AgentOutcome::Success], vec![]);
    let mut log = Vec::new();
    let mut observer = CollectingObserver { seen: Vec::new() };
    let result = HeadlessSmDriver::new(&sm).run(&executor, &mut NoJournal, &mut log, &mut observer, None);
    assert_eq!(result, ExitReason::Terminal { state: "end".to_string() });
    assert_eq!(observer.seen, log);
    assert_eq!(log.len(), 6);
}
