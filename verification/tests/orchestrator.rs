use nightshift_core::interpreter::wait_until;
use nightshift_core::interpreter_scheduler::{SchedulerMode, SchedulerOutcome};
use nightshift_core::doctor::DoctorStatus;
use nightshift_core::orchestrator::{
    log_doctor_results, orchestrator_step, DoctorCheckResult, LogLevel, OrchCommand, OrchEvent, OrchPhase,
};
use nightshift_core::signal::SignalKind;

fn messages(logs: &[nightshift_core::orchestrator::LogLine]) -> Vec<&str> {
    logs.iter().map(|l| l.message.as_str()).collect()
}

#[test]
fn single_pass_run_walks_every_phase() {
    let mode = SchedulerMode::SinglePass;
    let (p, a) = orchestrator_step(mode, OrchPhase::Start, &OrchEvent::Started);
    assert_eq!(p, OrchPhase::ResolvingRepo);
    assert_eq!(messages(&a.logs), vec!["calypso orchestrator starting"]);
    assert_eq!(a.command, OrchCommand::ResolveRepo);
    let (p, a) = orchestrator_step(mode, p, &OrchEvent::RepoResolved(true));
    assert_eq!(p, OrchPhase::CheckingPrerequisites);
    assert_eq!(a.command, OrchCommand::CheckPrerequisites);
    let (p, a) = orchestrator_step(mode, p, &OrchEvent::PrerequisitesChecked(0));
    assert_eq!(p, OrchPhase::CheckingSignal);
    assert!(a.logs.is_empty());
    assert_eq!(a.command, OrchCommand::PollSignal);
    let (p, a) = orchestrator_step(mode, p, &OrchEvent::SignalPolled(None));
    assert_eq!(p, OrchPhase::Scheduling);
    assert_eq!(messages(&a.logs), vec!["entering interpreter scheduler"]);
    assert_eq!(a.command, OrchCommand::RunScheduler);
    let (p, a) = orchestrator_step(
        mode,
        p,
        &OrchEvent::SchedulerFinished(SchedulerOutcome::Fired {
            workflow: "nightly".to_string(),
            initial_state: "scan".to_string(),
        }),
    );
    assert_eq!(p, OrchPhase::RunningWorkflow);
    assert_eq!(messages(&a.logs), vec!["interpreter scheduler fired 'nightly'"]);
    assert_eq!(a.command, OrchCommand::RunWorkflow("nightly".to_string()));
    let (p, a) = orchestrator_step(mode, p, &OrchEvent::WorkflowFinished(3));
    assert_eq!(p, OrchPhase::Finished);
    assert_eq!(messages(&a.logs), vec!["orchestrator run complete"]);
    assert_eq!(a.command, OrchCommand::Exit(3));
}

#[test]
fn outside_a_repository_exits_one() {
    let (p, a) = orchestrator_step(SchedulerMode::SinglePass, OrchPhase::ResolvingRepo, &OrchEvent::RepoResolved(false));
    assert_eq!(p, OrchPhase::Finished);
    assert_eq!(a.logs[0].level, LogLevel::Error);
    assert_eq!(messages(&a.logs), vec!["not inside a git repository"]);
    assert_eq!(a.command, OrchCommand::Exit(1));
}

#[test]
fn failing_prerequisites_end_a_single_pass_run_but_not_a_daemon() {
    let (p, a) = orchestrator_step(
        SchedulerMode::SinglePass,
        OrchPhase::CheckingPrerequisites,
        &OrchEvent::PrerequisitesChecked(1),
    );
    assert_eq!(p, OrchPhase::Finished);
    assert_eq!(a.command, OrchCommand::Exit(1));
    let (p, a) =
        orchestrator_step(SchedulerMode::Daemon, OrchPhase::CheckingPrerequisites, &OrchEvent::PrerequisitesChecked(1));
    assert_eq!(p, OrchPhase::CheckingSignal);
    assert_eq!(messages(&a.logs), vec!["prerequisite checks failed; continuing in daemon mode"]);
    assert_eq!(a.command, OrchCommand::PollSignal);
}

#[test]
fn received_signal_exits_with_its_code() {
    let (p, a) = orchestrator_step(
        SchedulerMode::Daemon,
        OrchPhase::CheckingSignal,
        &OrchEvent::SignalPolled(Some(SignalKind::Terminate)),
    );
    assert_eq!(p, OrchPhase::Finished);
    assert_eq!(messages(&a.logs), vec!["received SIGTERM, shutting down"]);
    assert_eq!(a.command, OrchCommand::Exit(143));
}

#[test]
fn scheduler_outcomes_map_to_exit_codes() {
    let mode = SchedulerMode::Daemon;
    let (_, a) = orchestrator_step(mode, OrchPhase::Scheduling, &OrchEvent::SchedulerFinished(SchedulerOutcome::Interrupted));
    assert_eq!(messages(&a.logs), vec!["daemon scheduler interrupted by signal", "daemon run complete"]);
    assert_eq!(a.command, OrchCommand::Exit(1));
    let (_, a) = orchestrator_step(
        mode,
        OrchPhase::Scheduling,
        &OrchEvent::SchedulerFinished(SchedulerOutcome::LoadError("bad".to_string())),
    );
    assert_eq!(a.logs[0].fields, vec![("error".to_string(), "bad".to_string())]);
    assert_eq!(a.command, OrchCommand::Exit(2));
    let (_, a) = orchestrator_step(
        mode,
        OrchPhase::Scheduling,
        &OrchEvent::SchedulerFinished(SchedulerOutcome::NoCronEntries { user_action_workflows: vec![] }),
    );
    assert_eq!(
        a.print.as_deref(),
        Some("No workflow files with a cron schedule were found. Add a `schedule:` block to a workflow file to use daemon mode.")
    );
    assert_eq!(a.command, OrchCommand::Exit(0));
    let (_, a) = orchestrator_step(
        SchedulerMode::SinglePass,
        OrchPhase::Scheduling,
        &OrchEvent::SchedulerFinished(SchedulerOutcome::Discovered { entry_point_count: 4 }),
    );
    assert_eq!(a.logs[0].fields, vec![("entry_point_count".to_string(), "4".to_string())]);
    assert_eq!(a.command, OrchCommand::Exit(0));
}

#[test]
fn event_out_of_phase_changes_nothing() {
    let (p, a) = orchestrator_step(SchedulerMode::SinglePass, OrchPhase::Scheduling, &OrchEvent::Started);
    assert_eq!(p, OrchPhase::Scheduling);
    assert!(a.logs.is_empty());
    assert_eq!(a.command, OrchCommand::Nothing);
}

#[test]
fn wait_until_a_later_instant() {
    assert_eq!(wait_until(10, 500, 8, 700), (1, 999_999_800));
    assert_eq!(wait_until(100, 0, 40, 0), (60, 0));
}

#[test]
fn wait_until_an_earlier_instant_is_zero() {
    assert_eq!(wait_until(5, 0, 8, 0), (0, 0));
    assert_eq!(wait_until(8, 0, 8, 0), (0, 0));
}

fn check(id: &str, status: DoctorStatus, detail: Option<&str>) -> DoctorCheckResult {
    DoctorCheckResult { check_id: id.to_string(), status, detail: detail.map(|d| d.to_string()) }
}

fn has_field(l: &nightshift_core::orchestrator::LogLine, k: &str, v: &str) -> bool {
    l.fields.iter().any(|(fk, fv)| fk == k && fv == v)
}

#[test]
fn log_doctor_results_all_passing() {
    let checks = vec![
        check("git-initialized", DoctorStatus::Passing, Some("ok")),
        check("gh-installed", DoctorStatus::Passing, None),
    ];
    let (lines, exit) = log_doctor_results(&checks);
    assert_eq!(exit, 0);
    assert!(lines.iter().any(|l| has_field(l, "check_id", "git-initialized")));
    assert!(lines.iter().any(|l| has_field(l, "check_id", "gh-installed")));
    assert!(lines.iter().any(|l| has_field(l, "status", "pass")));
    assert_eq!(messages(&lines), vec!["git-initialized: pass", "gh-installed: pass"]);
    assert!(lines.iter().all(|l| l.level == LogLevel::Info && l.event == "doctor_check"));
    assert!(has_field(&lines[0], "detail", "ok"));
    assert_eq!(lines[1].fields.len(), 2);
}

#[test]
fn log_doctor_results_with_failure_returns_1() {
    let checks = vec![
        check("git-initialized", DoctorStatus::Passing, None),
        check("agent-cli-installed", DoctorStatus::Failing, Some("not found")),
    ];
    let (lines, exit) = log_doctor_results(&checks);
    assert_eq!(exit, 1);
    assert!(lines.iter().any(|l| has_field(l, "check_id", "agent-cli-installed")));
    assert!(lines.iter().any(|l| has_field(l, "status", "fail")));
    assert!(has_field(&lines[1], "detail", "not found"));
    assert_eq!(lines[1].level, LogLevel::Warn);
    assert_eq!(lines[1].message, "agent-cli-installed: fail");
}

#[test]
fn log_doctor_results_empty_report_returns_0() {
    let (lines, exit) = log_doctor_results(&Vec::new());
    assert_eq!(exit, 0);
    assert!(lines.is_empty(), "expected no output for empty report");
}

#[test]
fn doctor_warnings_do_not_fail() {
    let checks = vec![check("gh-authenticated", DoctorStatus::Warning, None)];
    let (lines, exit) = log_doctor_results(&checks);
    assert_eq!(exit, 0);
    assert_eq!(lines[0].level, LogLevel::Warn);
    assert!(has_field(&lines[0], "status", "warn"));
}

#[test]
fn daemon_mode_doctor_failure_logs_warn_not_error() {
    let checks = vec![check("agent-cli-installed", DoctorStatus::Failing, Some("not found"))];
    let (_, exit) = log_doctor_results(&checks);
    assert_eq!(exit, 1);
    let (_, a) = orchestrator_step(
        SchedulerMode::Daemon,
        OrchPhase::CheckingPrerequisites,
        &OrchEvent::PrerequisitesChecked(exit),
    );
    let warn: Vec<_> = a.logs.iter().filter(|l| l.message.contains("continuing in daemon mode")).collect();
    assert!(!warn.is_empty(), "expected continuation warning");
    for l in warn {
        assert_eq!(l.level, LogLevel::Warn, "continuation message must be at warn level");
        assert_eq!(l.message, "prerequisite checks failed; continuing in daemon mode");
    }
}
