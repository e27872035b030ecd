//! The orchestrator: the decisions of a single-pass or daemon run, from the
//! prerequisite checks to the exit code, and the steps of executing a fired
//! workflow.  The host runs the loop, performs the I/O and logs.
use crate::blueprint_workflows::StateKind;
use crate::doctor::{doctor_status_label, status_label, DoctorStatus};
use crate::interpreter::{
    reg_state, spec_advance, OutcomeView, StepOutcome, WorkflowExecutionState, WorkflowInterpreter,
};
use crate::interpreter_scheduler::{yaml_list, yaml_names, SchedulerMode, SchedulerOutcome};
use crate::signal::{signal_name, SignalKind};
use crate::text::{decimal, owned, seq_join, u64_to_string, views};
use vstd::prelude::*;

verus! {

/// Log verbosity.
#[derive(Debug, Clone, Copy, PartialEq, Eq, Structural)]
pub enum LogLevel {
    Trace,
    Debug,
    Info,
    Warn,
    Error,
}

/// Log line format.
#[derive(Debug, Clone, Copy, PartialEq, Eq, Structural)]
pub enum LogFormat {
    Text,
    Json,
}

/// Configuration resolved from the command line when the orchestrator runs.
#[derive(Debug, Clone, PartialEq, Eq)]
pub struct OrchestratorConfig {
    /// Resolved verbosity.
    pub verbosity: LogLevel,
    /// Output format for log lines.
    pub log_format: LogFormat,
    /// The `CALYPSO_LOG` value when both it and `-v`/`-vv` are set.
    pub env_log_override: Option<String>,
}

/// The outcome of an orchestrator run.
#[derive(Debug, Clone, Copy, PartialEq, Eq, Structural)]
pub struct OrchestratorOutcome {
    pub exit_code: i32,
}

/// The startup log message.
pub fn startup_message(mode: SchedulerMode) -> (r: &'static str)
    ensures
        r@ == match mode {
            SchedulerMode::Daemon => "calypso daemon mode starting (continuous scheduling)"@,
            SchedulerMode::SinglePass => "calypso orchestrator starting"@,
        },
{
    match mode {
        SchedulerMode::Daemon => "calypso daemon mode starting (continuous scheduling)",
        SchedulerMode::SinglePass => "calypso orchestrator starting",
    }
}

/// Whether failing prerequisite checks end the run: they do in single-pass
/// mode (with the doctor's exit code); daemon mode goes on.
pub fn doctor_gate(mode: SchedulerMode, doctor_exit: i32) -> (r: Option<i32>)
    ensures
        r == if mode == SchedulerMode::SinglePass && doctor_exit != 0 { Some(doctor_exit) } else { None::<i32> },
{
    if doctor_exit != 0 {
        match mode {
            SchedulerMode::SinglePass => Some(doctor_exit),
            SchedulerMode::Daemon => None,
        }
    } else {
        None
    }
}

/// The exit code of a scheduler outcome; `None` when a workflow fired and
/// must be executed first.
pub open spec fn outcome_exit(o: SchedulerOutcome) -> Option<i32> {
    match o {
        SchedulerOutcome::Discovered { .. } => Some(0),
        SchedulerOutcome::Fired { .. } => None,
        SchedulerOutcome::Interrupted => Some(1),
        SchedulerOutcome::NoCronEntries { .. } => Some(0),
        SchedulerOutcome::LoadError(_) => Some(2),
    }
}

/// The exit code for a scheduler outcome: 0 after discovery or when no cron
/// entry exists, 1 when interrupted, 2 on a load error; a fired workflow is
/// executed and its result decides.
pub fn scheduler_exit_code(outcome: &SchedulerOutcome) -> (r: Option<i32>)
    ensures
        r == outcome_exit(*outcome),
{
    match outcome {
        SchedulerOutcome::Discovered { .. } => Some(0),
        SchedulerOutcome::Fired { .. } => None,
        SchedulerOutcome::Interrupted => Some(1),
        SchedulerOutcome::NoCronEntries { .. } => Some(0),
        SchedulerOutcome::LoadError(_) => Some(2),
    }
}

/// The hint printed when no cron-scheduled workflow exists.
pub fn no_cron_hint(user_action_workflows: &Vec<String>) -> (r: String)
    ensures
        user_action_workflows@.len() == 0 ==> r@
            == "No workflow files with a cron schedule were found. Add a `schedule:` block to a workflow file to use daemon mode."@,
        user_action_workflows@.len() > 0 ==> r@ == "Found "@ + seq_join(yaml_names(views(user_action_workflows@)), ", "@)
            + " which are correctly formed, but none start on a cron, exiting now.\nTo start a specific action based on a manual trigger use --select-flow"@,
{
    if user_action_workflows.len() == 0 {
        owned("No workflow files with a cron schedule were found. Add a `schedule:` block to a workflow file to use daemon mode.")
    } else {
        let mut s = String::from_str("Found ");
        let l = yaml_list(user_action_workflows);
        s.append(l.as_str());
        s.append(
            " which are correctly formed, but none start on a cron, exiting now.\nTo start a specific action based on a manual trigger use --select-flow",
        );
        s
    }
}

/// The event a fired workflow is advanced with, by the kind of its current
/// state: terminal and delegating states resolve themselves; every other
/// state advances with success.
pub open spec fn executor_event(kind: Option<StateKind>) -> Seq<char> {
    match kind {
        Some(StateKind::Terminal) => "terminal"@,
        Some(StateKind::Workflow) => "enter"@,
        _ => "on_success"@,
    }
}

/// The exit code after a step of a fired workflow, if the run ends there:
/// 0 on reaching a terminal state at the root, 2 on a graph error.
pub open spec fn step_exit(o: OutcomeView) -> Option<i32> {
    match o {
        OutcomeView::Terminal(_) => Some(0),
        OutcomeView::Error(_) => Some(2),
        _ => None,
    }
}

/// One step of executing a fired workflow: advance the execution with the
/// event for the current state's kind, and say whether the run ends.
pub fn executor_step(interp: &WorkflowInterpreter, exec: &mut WorkflowExecutionState) -> (r: (StepOutcome, Option<i32>))
    ensures
        ({
            let kind = match reg_state(interp.registry.entries(), old(exec)@.position.0, old(exec)@.position.1) {
                Some(c) => c.kind,
                None => None,
            };
            (final(exec)@, r.0@) == spec_advance(interp.registry.entries(), old(exec)@, executor_event(kind))
        }),
        r.1 == step_exit(r.0@),
{
    let kind = interp.current_kind(exec);
    let event: &str = match kind {
        Some(StateKind::Terminal) => "terminal",
        Some(StateKind::Workflow) => "enter",
        _ => "on_success",
    };
    let outcome = interp.advance(exec, event);
    let verdict = match &outcome {
        StepOutcome::Terminal(_) => Some(0i32),
        StepOutcome::Error(_) => Some(2i32),
        _ => None,
    };
    (outcome, verdict)
}

/// How a step loop ended.
#[derive(Debug, PartialEq, Eq)]
pub enum StepLoopOutcome {
    /// The user cancelled before or between steps.
    UserCancelled,
    /// The state machine reached a terminal state.
    Terminal,
    /// A step asked for clarification.
    ClarificationRequired(String),
    /// A step failed.
    Failed(String),
    /// An irrecoverable error occurred.
    Error(String),
}


// ── The run as a state machine ───────────────────────────────────────────────

/// Where an orchestrator run stands.
#[derive(Debug, Clone, Copy, PartialEq, Eq, Structural)]
pub enum OrchPhase {
    /// Not started.
    Start,
    /// Waiting for the repository root.
    ResolvingRepo,
    /// Waiting for the prerequisite checks.
    CheckingPrerequisites,
    /// Waiting for the shutdown signal to be polled.
    CheckingSignal,
    /// Waiting for the interpreter scheduler.
    Scheduling,
    /// Waiting for the fired workflow to finish.
    RunningWorkflow,
    /// The run is over.
    Finished,
}

/// What the host reports back to the orchestrator.
#[derive(Debug, Clone, PartialEq, Eq)]
pub enum OrchEvent {
    /// The run was started.
    Started,
    /// The repository root was looked up: whether it was found.
    RepoResolved(bool),
    /// The prerequisite checks ran, with this exit code.
    PrerequisitesChecked(i32),
    /// The shutdown signal was polled.
    SignalPolled(Option<SignalKind>),
    /// The interpreter scheduler finished.
    SchedulerFinished(SchedulerOutcome),
    /// The fired workflow finished with this exit code.
    WorkflowFinished(i32),
}

/// What the host is asked to do next.
#[derive(Debug, Clone, PartialEq, Eq)]
pub enum OrchCommand {
    /// Install the signal handlers and look up the repository root.
    ResolveRepo,
    /// Run the prerequisite checks.
    CheckPrerequisites,
    /// Poll the shutdown signal.
    PollSignal,
    /// Run the interpreter scheduler.
    RunScheduler,
    /// Run the fired workflow.
    RunWorkflow(String),
    /// Exit with this code.
    Exit(i32),
    /// Nothing: the event does not belong to this phase.
    Nothing,
}

/// One log line: level, event name, message and fields.
#[derive(Debug, Clone, PartialEq, Eq)]
pub struct LogLine {
    pub level: LogLevel,
    pub event: String,
    pub message: String,
    pub fields: Vec<(String, String)>,
}

/// What the host does for one step: write these log lines, print this
/// text, then carry out the command.
#[derive(Debug, Clone, PartialEq, Eq)]
pub struct OrchAction {
    pub logs: Vec<LogLine>,
    pub print: Option<String>,
    pub command: OrchCommand,
}

/// A log line as text.
pub type LogView = (LogLevel, Seq<char>, Seq<char>, Seq<(Seq<char>, Seq<char>)>);

pub open spec fn log_view(l: LogLine) -> LogView {
    (l.level, l.event@, l.message@, l.fields@.map_values(|f: (String, String)| (f.0@, f.1@)))
}

pub open spec fn line(level: LogLevel, event: Seq<char>, message: Seq<char>) -> LogView {
    (level, event, message, Seq::empty())
}

/// A command as text.
pub enum CommandView {
    ResolveRepo,
    CheckPrerequisites,
    PollSignal,
    RunScheduler,
    RunWorkflow(Seq<char>),
    Exit(i32),
    Nothing,
}

pub open spec fn command_view(c: OrchCommand) -> CommandView {
    match c {
        OrchCommand::ResolveRepo => CommandView::ResolveRepo,
        OrchCommand::CheckPrerequisites => CommandView::CheckPrerequisites,
        OrchCommand::PollSignal => CommandView::PollSignal,
        OrchCommand::RunScheduler => CommandView::RunScheduler,
        OrchCommand::RunWorkflow(w) => CommandView::RunWorkflow(w@),
        OrchCommand::Exit(c) => CommandView::Exit(c),
        OrchCommand::Nothing => CommandView::Nothing,
    }
}

pub open spec fn complete_line(mode: SchedulerMode) -> LogView {
    line(LogLevel::Info, "shutdown"@, match mode {
        SchedulerMode::SinglePass => "orchestrator run complete"@,
        SchedulerMode::Daemon => "daemon run complete"@,
    })
}

pub open spec fn signal_exit(k: SignalKind) -> i32 {
    match k {
        SignalKind::Interrupt => 130i32,
        SignalKind::Terminate => 143i32,
    }
}

/// What the scheduler's outcome logs, prints and leads to.
pub open spec fn scheduler_step(mode: SchedulerMode, o: SchedulerOutcome) -> (OrchPhase, Seq<LogView>, Option<
    Seq<char>,
>, CommandView) {
    let single = mode == SchedulerMode::SinglePass;
    match o {
        SchedulerOutcome::Discovered { entry_point_count } => (
            OrchPhase::Finished,
            seq![
                (LogLevel::Info, "startup"@, "interpreter scheduler complete"@, seq![
                    ("entry_point_count"@, decimal(entry_point_count as nat)),
                ]),
                complete_line(mode),
            ],
            None,
            CommandView::Exit(0),
        ),
        SchedulerOutcome::Fired { workflow, initial_state } => (
            OrchPhase::RunningWorkflow,
            seq![
                (LogLevel::Info, "state_transition"@, (if single {
                    "interpreter scheduler fired '"@
                } else {
                    "daemon scheduler fired '"@
                }) + workflow@ + "'"@, seq![("workflow"@, workflow@), ("initial_state"@, initial_state@)]),
            ],
            None,
            CommandView::RunWorkflow(workflow@),
        ),
        SchedulerOutcome::Interrupted => (
            OrchPhase::Finished,
            seq![
                line(LogLevel::Warn, "shutdown"@, if single {
                    "interpreter scheduler interrupted"@
                } else {
                    "daemon scheduler interrupted by signal"@
                }),
                complete_line(mode),
            ],
            None,
            CommandView::Exit(1),
        ),
        SchedulerOutcome::NoCronEntries { user_action_workflows } => (
            OrchPhase::Finished,
            seq![
                line(LogLevel::Info, "startup"@, if single {
                    "interpreter scheduler: no cron entries found"@
                } else {
                    "daemon scheduler: no cron entries found; exiting"@
                }),
                complete_line(mode),
            ],
            Some(no_cron_text(views(user_action_workflows@))),
            CommandView::Exit(0),
        ),
        SchedulerOutcome::LoadError(e) => (
            OrchPhase::Finished,
            seq![
                (LogLevel::Error, "state_machine"@, if single {
                    "interpreter scheduler load error"@
                } else {
                    "daemon scheduler load error"@
                }, seq![("error"@, e@)]),
                complete_line(mode),
            ],
            None,
            CommandView::Exit(2),
        ),
    }
}

/// The no-cron hint for these manual workflows.
pub open spec fn no_cron_text(ws: Seq<Seq<char>>) -> Seq<char> {
    if ws.len() == 0 {
        "No workflow files with a cron schedule were found. Add a `schedule:` block to a workflow file to use daemon mode."@
    } else {
        "Found "@ + seq_join(yaml_names(ws), ", "@)
            + " which are correctly formed, but none start on a cron, exiting now.\nTo start a specific action based on a manual trigger use --select-flow"@
    }
}

/// One step of an orchestrator run: from the phase and what the host
/// reports, the next phase, the lines to log, the text to print and the
/// next command.  In order: startup; the repository root (exit 1 outside a
/// repository); the prerequisite checks (in single-pass mode a failure
/// ends the run with their code, in daemon mode it is logged and the run
/// goes on); the shutdown signal (ending the run with its code); the
/// scheduler and its outcome; the fired workflow, whose exit code ends the
/// run.  An event that does not belong to the phase changes nothing.
pub open spec fn spec_orchestrator_step(mode: SchedulerMode, phase: OrchPhase, event: OrchEvent) -> (OrchPhase, Seq<
    LogView,
>, Option<Seq<char>>, CommandView) {
    let single = mode == SchedulerMode::SinglePass;
    match (phase, event) {
        (OrchPhase::Start, OrchEvent::Started) => (
            OrchPhase::ResolvingRepo,
            seq![line(LogLevel::Info, "startup"@, if single {
                "calypso orchestrator starting"@
            } else {
                "calypso daemon mode starting (continuous scheduling)"@
            })],
            None,
            CommandView::ResolveRepo,
        ),
        (OrchPhase::ResolvingRepo, OrchEvent::RepoResolved(found)) => if found {
            (
                OrchPhase::CheckingPrerequisites,
                seq![line(LogLevel::Info, "doctor_check"@, "running prerequisite checks"@)],
                None,
                CommandView::CheckPrerequisites,
            )
        } else {
            (
                OrchPhase::Finished,
                seq![line(LogLevel::Error, "doctor_failed"@, "not inside a git repository"@)],
                None,
                CommandView::Exit(1),
            )
        },
        (OrchPhase::CheckingPrerequisites, OrchEvent::PrerequisitesChecked(code)) => if code == 0 {
            (OrchPhase::CheckingSignal, Seq::empty(), None, CommandView::PollSignal)
        } else if single {
            (
                OrchPhase::Finished,
                seq![line(LogLevel::Error, "doctor_failed"@, "prerequisite checks failed"@)],
                None,
                CommandView::Exit(code),
            )
        } else {
            (
                OrchPhase::CheckingSignal,
                seq![line(LogLevel::Warn, "doctor_failed"@, "prerequisite checks failed; continuing in daemon mode"@)],
                None,
                CommandView::PollSignal,
            )
        },
        (OrchPhase::CheckingSignal, OrchEvent::SignalPolled(sig)) => match sig {
            Some(k) => (
                OrchPhase::Finished,
                seq![line(LogLevel::Warn, "shutdown"@, "received "@ + signal_name(k) + ", shutting down"@)],
                None,
                CommandView::Exit(signal_exit(k)),
            ),
            None => (
                OrchPhase::Scheduling,
                seq![line(LogLevel::Info, "state_transition"@, if single {
                    "entering interpreter scheduler"@
                } else {
                    "entering interpreter scheduler (daemon mode)"@
                })],
                None,
                CommandView::RunScheduler,
            ),
        },
        (OrchPhase::Scheduling, OrchEvent::SchedulerFinished(o)) => scheduler_step(mode, o),
        (OrchPhase::RunningWorkflow, OrchEvent::WorkflowFinished(code)) => (
            OrchPhase::Finished,
            seq![complete_line(mode)],
            None,
            CommandView::Exit(code),
        ),
        _ => (phase, Seq::empty(), None, CommandView::Nothing),
    }
}

fn log_line(level: LogLevel, event: &str, message: String) -> (l: LogLine)
    ensures
        log_view(l) == line(level, event@, message@),
{
    let l = LogLine { level, event: owned(event), message, fields: Vec::new() };
    proof {
        assert(l.fields@.map_values(|f: (String, String)| (f.0@, f.1@)) =~= Seq::<(Seq<char>, Seq<char>)>::empty());
    }
    l
}

fn complete_log(mode: SchedulerMode) -> (l: LogLine)
    ensures
        log_view(l) == complete_line(mode),
{
    log_line(LogLevel::Info, "shutdown", owned(match mode {
        SchedulerMode::SinglePass => "orchestrator run complete",
        SchedulerMode::Daemon => "daemon run complete",
    }))
}

fn field(k: &str, v: String) -> (f: (String, String))
    ensures
        (f.0@, f.1@) == (k@, v@),
{
    (owned(k), v)
}

fn copy_strings(v: &Vec<String>) -> (r: Vec<String>)
    ensures
        views(r@) == views(v@),
{
    let mut out: Vec<String> = Vec::new();
    let n: usize = v.len();
    for i in 0..n
        invariant
            n == v@.len(),
            views(out@) == views(v@.take(i as int)),
    {
        let ghost before = out@;
        out.push(v[i].clone());
        proof {
            assert(views(out@) =~= views(before).push(v@[i as int]@));
            assert(views(v@.take(i + 1)) =~= views(v@.take(i as int)).push(v@[i as int]@));
        }
    }
    proof {
        assert(v@.take(n as int) =~= v@);
    }
    out
}

pub open spec fn logs_view(ls: Seq<LogLine>) -> Seq<LogView> {
    ls.map_values(|l: LogLine| log_view(l))
}

pub open spec fn print_view(p: Option<String>) -> Option<Seq<char>> {
    match p {
        Some(s) => Some(s@),
        None => None,
    }
}

fn one(l: LogLine) -> (v: Vec<LogLine>)
    ensures
        logs_view(v@) == seq![log_view(l)],
{
    let v = vec![l];
    proof {
        assert(logs_view(v@) =~= seq![log_view(l)]);
    }
    v
}

/// A prerequisite check's result as the doctor reports it: the label of the
/// check's id, its status and an optional detail.
#[derive(Debug, Clone, PartialEq, Eq)]
pub struct DoctorCheckResult {
    pub check_id: String,
    pub status: DoctorStatus,
    pub detail: Option<String>,
}

/// The level a check result is logged at: `Info` when it passes, `Warn`
/// when it warns or fails.
pub open spec fn check_level(s: DoctorStatus) -> LogLevel {
    match s {
        DoctorStatus::Passing => LogLevel::Info,
        _ => LogLevel::Warn,
    }
}

/// The fields of a check's log line, in key order: `check_id`, `detail`
/// when there is one, and `status`.
pub open spec fn check_fields(c: DoctorCheckResult) -> Seq<(Seq<char>, Seq<char>)> {
    seq![("check_id"@, c.check_id@)] + match c.detail {
        Some(d) => seq![("detail"@, d@)],
        None => Seq::empty(),
    } + seq![("status"@, status_label(c.status))]
}

/// The log line for one check result: `"<id>: <status>"` with its fields.
pub open spec fn check_log(c: DoctorCheckResult) -> LogView {
    (check_level(c.status), "doctor_check"@, c.check_id@ + ": "@ + status_label(c.status), check_fields(c))
}

/// Whether some check of the report fails.
pub open spec fn any_failing(checks: Seq<DoctorCheckResult>) -> bool {
    exists|i: int| 0 <= i < checks.len() && #[trigger] checks[i].status == DoctorStatus::Failing
}

/// The doctor's log: one line per check, in report order, and the exit code,
/// 1 when some check fails and 0 otherwise (warnings do not fail).
pub fn log_doctor_results(checks: &Vec<DoctorCheckResult>) -> (r: (Vec<LogLine>, i32))
    ensures
        logs_view(r.0@) == checks@.map_values(|c: DoctorCheckResult| check_log(c)),
        r.1 == if any_failing(checks@) { 1i32 } else { 0i32 },
{
    let mut logs: Vec<LogLine> = Vec::new();
    let mut failing = false;
    let n: usize = checks.len();
    for i in 0..n
        invariant
            n == checks@.len(),
            logs_view(logs@) == checks@.take(i as int).map_values(|c: DoctorCheckResult| check_log(c)),
            failing == any_failing(checks@.take(i as int)),
    {
        let c = &checks[i];
        let label = doctor_status_label(c.status);
        let mut message = owned(c.check_id.as_str());
        message.append(": ");
        message.append(label);
        let mut fields: Vec<(String, String)> = Vec::new();
        fields.push(field("check_id", owned(c.check_id.as_str())));
        match &c.detail {
            Some(d) => fields.push(field("detail", owned(d.as_str()))),
            None => {},
        }
        fields.push(field("status", owned(label)));
        let level = match c.status {
            DoctorStatus::Passing => LogLevel::Info,
            _ => LogLevel::Warn,
        };
        let l = LogLine { level, event: owned("doctor_check"), message, fields };
        let ghost before = logs@;
        proof {
            assert(l.fields@.map_values(|f: (String, String)| (f.0@, f.1@)) =~= check_fields(checks@[i as int]));
            assert(log_view(l) == check_log(checks@[i as int]));
        }
        logs.push(l);
        proof {
            let t = checks@.take(i + 1);
            assert(t.drop_last() =~= checks@.take(i as int));
            assert(logs_view(logs@) =~= logs_view(before).push(log_view(l)));
            assert(t.map_values(|c: DoctorCheckResult| check_log(c)) =~= checks@.take(i as int).map_values(
                |c: DoctorCheckResult| check_log(c),
            ).push(check_log(checks@[i as int])));
            if any_failing(t) {
                let k = choose|k: int| 0 <= k < t.len() && #[trigger] t[k].status == DoctorStatus::Failing;
                if k < i {
                    assert(checks@.take(i as int)[k] == t[k]);
                }
            }
            if failing {
                let k = choose|k: int| 0 <= k < i && #[trigger] checks@.take(i as int)[k].status == DoctorStatus::Failing;
                assert(t[k] == checks@.take(i as int)[k]);
            }
            if c.status == DoctorStatus::Failing {
                assert(t[i as int] == checks@[i as int]);
            }
        }
        if c.status == DoctorStatus::Failing {
            failing = true;
        }
    }
    proof {
        assert(checks@.take(n as int) =~= checks@);
    }
    (logs, if failing { 1 } else { 0 })
}

fn two(a: LogLine, b: LogLine) -> (v: Vec<LogLine>)
    ensures
        logs_view(v@) == seq![log_view(a), log_view(b)],
{
    let v = vec![a, b];
    proof {
        assert(logs_view(v@) =~= seq![log_view(a), log_view(b)]);
    }
    v
}

fn scheduler_action(mode: SchedulerMode, o: &SchedulerOutcome) -> (r: (OrchPhase, OrchAction))
    ensures
        (r.0, logs_view(r.1.logs@), print_view(r.1.print), command_view(r.1.command)) == scheduler_step(mode, *o),
{
    let single = mode == SchedulerMode::SinglePass;
    match o {
        SchedulerOutcome::Discovered { entry_point_count } => {
            let mut fields: Vec<(String, String)> = Vec::new();
            fields.push(field("entry_point_count", u64_to_string(*entry_point_count as u64)));
            let l = LogLine { level: LogLevel::Info, event: owned("startup"), message: owned("interpreter scheduler complete"), fields };
            proof {
                assert(l.fields@.map_values(|f: (String, String)| (f.0@, f.1@)) =~= seq![
                    ("entry_point_count"@, decimal(*entry_point_count as nat)),
                ]);
            }
            (OrchPhase::Finished, OrchAction { logs: two(l, complete_log(mode)), print: None, command: OrchCommand::Exit(0) })
        },
        SchedulerOutcome::Fired { workflow, initial_state } => {
            let mut m = String::from_str(if single { "interpreter scheduler fired '" } else { "daemon scheduler fired '" });
            m.append(workflow.as_str());
            m.append("'");
            let mut fields: Vec<(String, String)> = Vec::new();
            fields.push(field("workflow", workflow.clone()));
            fields.push(field("initial_state", initial_state.clone()));
            let l = LogLine { level: LogLevel::Info, event: owned("state_transition"), message: m, fields };
            proof {
                assert(l.fields@.map_values(|f: (String, String)| (f.0@, f.1@)) =~= seq![
                    ("workflow"@, workflow@),
                    ("initial_state"@, initial_state@),
                ]);
            }
            (
                OrchPhase::RunningWorkflow,
                OrchAction { logs: one(l), print: None, command: OrchCommand::RunWorkflow(workflow.clone()) },
            )
        },
        SchedulerOutcome::Interrupted => {
            let l = log_line(LogLevel::Warn, "shutdown", owned(if single {
                "interpreter scheduler interrupted"
            } else {
                "daemon scheduler interrupted by signal"
            }));
            (OrchPhase::Finished, OrchAction { logs: two(l, complete_log(mode)), print: None, command: OrchCommand::Exit(1) })
        },
        SchedulerOutcome::NoCronEntries { user_action_workflows } => {
            let l = log_line(LogLevel::Info, "startup", owned(if single {
                "interpreter scheduler: no cron entries found"
            } else {
                "daemon scheduler: no cron entries found; exiting"
            }));
            let hint = no_cron_hint(user_action_workflows);
            (
                OrchPhase::Finished,
                OrchAction { logs: two(l, complete_log(mode)), print: Some(hint), command: OrchCommand::Exit(0) },
            )
        },
        SchedulerOutcome::LoadError(e) => {
            let mut fields: Vec<(String, String)> = Vec::new();
            fields.push(field("error", e.clone()));
            let l = LogLine {
                level: LogLevel::Error,
                event: owned("state_machine"),
                message: owned(if single { "interpreter scheduler load error" } else { "daemon scheduler load error" }),
                fields,
            };
            proof {
                assert(l.fields@.map_values(|f: (String, String)| (f.0@, f.1@)) =~= seq![("error"@, e@)]);
            }
            (OrchPhase::Finished, OrchAction { logs: two(l, complete_log(mode)), print: None, command: OrchCommand::Exit(2) })
        },
    }
}

/// One step of an orchestrator run (`spec_orchestrator_step`): the host
/// performs the action and reports the next event.
pub fn orchestrator_step(mode: SchedulerMode, phase: OrchPhase, event: &OrchEvent) -> (r: (OrchPhase, OrchAction))
    ensures
        (r.0, logs_view(r.1.logs@), print_view(r.1.print), command_view(r.1.command)) == spec_orchestrator_step(
            mode,
            phase,
            *event,
        ),
{
    let single = mode == SchedulerMode::SinglePass;
    let none = OrchAction { logs: Vec::new(), print: None, command: OrchCommand::Nothing };
    proof {
        assert(logs_view(none.logs@) =~= Seq::<LogView>::empty());
    }
    match (phase, event) {
        (OrchPhase::Start, OrchEvent::Started) => {
            let l = log_line(LogLevel::Info, "startup", owned(startup_message(mode)));
            (OrchPhase::ResolvingRepo, OrchAction { logs: one(l), print: None, command: OrchCommand::ResolveRepo })
        },
        (OrchPhase::ResolvingRepo, OrchEvent::RepoResolved(found)) => {
            if *found {
                let l = log_line(LogLevel::Info, "doctor_check", owned("running prerequisite checks"));
                (
                    OrchPhase::CheckingPrerequisites,
                    OrchAction { logs: one(l), print: None, command: OrchCommand::CheckPrerequisites },
                )
            } else {
                let l = log_line(LogLevel::Error, "doctor_failed", owned("not inside a git repository"));
                (OrchPhase::Finished, OrchAction { logs: one(l), print: None, command: OrchCommand::Exit(1) })
            }
        },
        (OrchPhase::CheckingPrerequisites, OrchEvent::PrerequisitesChecked(code)) => {
            if *code == 0 {
                let a = OrchAction { logs: Vec::new(), print: None, command: OrchCommand::PollSignal };
                proof {
                    assert(logs_view(a.logs@) =~= Seq::<LogView>::empty());
                }
                (OrchPhase::CheckingSignal, a)
            } else if single {
                let l = log_line(LogLevel::Error, "doctor_failed", owned("prerequisite checks failed"));
                (OrchPhase::Finished, OrchAction { logs: one(l), print: None, command: OrchCommand::Exit(*code) })
            } else {
                let l = log_line(
                    LogLevel::Warn,
                    "doctor_failed",
                    owned("prerequisite checks failed; continuing in daemon mode"),
                );
                (OrchPhase::CheckingSignal, OrchAction { logs: one(l), print: None, command: OrchCommand::PollSignal })
            }
        },
        (OrchPhase::CheckingSignal, OrchEvent::SignalPolled(sig)) => match sig {
            Some(k) => {
                let mut m = String::from_str("received ");
                let name = k.to_string();
                m.append(name.as_str());
                m.append(", shutting down");
                let l = log_line(LogLevel::Warn, "shutdown", m);
                (OrchPhase::Finished, OrchAction { logs: one(l), print: None, command: OrchCommand::Exit(k.exit_code()) })
            },
            None => {
                let l = log_line(LogLevel::Info, "state_transition", owned(if single {
                    "entering interpreter scheduler"
                } else {
                    "entering interpreter scheduler (daemon mode)"
                }));
                (OrchPhase::Scheduling, OrchAction { logs: one(l), print: None, command: OrchCommand::RunScheduler })
            },
        },
        (OrchPhase::Scheduling, OrchEvent::SchedulerFinished(o)) => scheduler_action(mode, o),
        (OrchPhase::RunningWorkflow, OrchEvent::WorkflowFinished(code)) => (
            OrchPhase::Finished,
            OrchAction { logs: one(complete_log(mode)), print: None, command: OrchCommand::Exit(*code) },
        ),
        _ => (phase, none),
    }
}

} // verus!
