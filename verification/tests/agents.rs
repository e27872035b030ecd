use nightshift_core::state::GateStatus;
use nightshift_core::status::gate_status_label;
use nightshift_core::agents::{
    agents_json_report, render_agents, AgentSession, AgentSessionStatus, FeatureState, OutputLine,
};

fn session(id: &str, role: &str, status: AgentSessionStatus, output: &[&str]) -> AgentSession {
    AgentSession {
        session_id: id.to_string(),
        role: role.to_string(),
        status,
        output: output.iter().map(|t| OutputLine { text: t.to_string() }).collect(),
        pending_follow_ups: vec!["follow up".to_string()],
    }
}

#[test]
fn render_agents_without_sessions() {
    let feature = FeatureState { feature_id: "feat-1".to_string(), active_sessions: vec![] };
    let text = render_agents(&feature);
    assert_eq!(text, format!("Active sessions for feat-1\n{}\n  (no active sessions)", "─".repeat(42)));
}

#[test]
fn render_agents_lists_each_session_with_marker_and_indented_output() {
    let feature = FeatureState {
        feature_id: "feat-2".to_string(),
        active_sessions: vec![
            session("s1", "planner", AgentSessionStatus::Running, &["line a\nline b", "line c"]),
            session("s2", "approver", AgentSessionStatus::WaitingForHuman, &[]),
            session("s3", "builder", AgentSessionStatus::Completed, &[]),
            session("s4", "tester", AgentSessionStatus::Failed, &[]),
            session("s5", "ops", AgentSessionStatus::Aborted, &["done\r\n"]),
        ],
    };
    let text = render_agents(&feature);
    let expected = [
        "Active sessions for feat-2".to_string(),
        "─".repeat(42),
        "▶ planner  [s1]  running".to_string(),
        "  line a".to_string(),
        "  line b".to_string(),
        "  line c".to_string(),
        "⏸ approver  [s2]  waiting-for-human".to_string(),
        "✓ builder  [s3]  completed".to_string(),
        "✗ tester  [s4]  failed".to_string(),
        "⊗ ops  [s5]  aborted".to_string(),
        "  done".to_string(),
    ]
    .join("\n");
    assert_eq!(text, expected);
}

#[test]
fn agents_json_report_copies_sessions_in_order() {
    let feature = FeatureState {
        feature_id: "feat-3".to_string(),
        active_sessions: vec![
            session("s1", "planner", AgentSessionStatus::WaitingForHuman, &["one", "two"]),
            session("s2", "builder", AgentSessionStatus::Aborted, &[]),
        ],
    };
    let report = agents_json_report(&feature);
    assert_eq!(report.feature_id, "feat-3");
    assert_eq!(report.sessions.len(), 2);
    assert_eq!(report.sessions[0].session_id, "s1");
    assert_eq!(report.sessions[0].role, "planner");
    assert_eq!(report.sessions[0].status, "waiting-for-human");
    assert_eq!(report.sessions[0].output, vec!["one".to_string(), "two".to_string()]);
    assert_eq!(report.sessions[0].pending_follow_ups, vec!["follow up".to_string()]);
    assert_eq!(report.sessions[1].status, "aborted");
    assert!(report.sessions[1].output.is_empty());
}

#[test]
fn gate_status_labels() {
    assert_eq!(gate_status_label(&GateStatus::Pending), "pending");
    assert_eq!(gate_status_label(&GateStatus::Passing), "passing");
    assert_eq!(gate_status_label(&GateStatus::Failing), "failing");
    assert_eq!(gate_status_label(&GateStatus::Manual), "manual");
}
