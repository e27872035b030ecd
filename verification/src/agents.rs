//! Agent sessions of a feature: the plain-text summary and the JSON report.
use crate::doctor::{indented, push_indented_lines, text_lines};
use crate::text::{owned, seq_join, seq_repeat, views};
use vstd::prelude::*;

verus! {

/// Where an agent session stands.
#[derive(Debug, Clone, Copy, PartialEq, Eq, Structural)]
pub enum AgentSessionStatus {
    Running,
    WaitingForHuman,
    Completed,
    Failed,
    Aborted,
}

/// One piece of output an agent session produced.
#[derive(Debug, Clone, PartialEq, Eq)]
pub struct OutputLine {
    pub text: String,
}

/// An agent session working on a feature.
#[derive(Debug, Clone, PartialEq, Eq)]
pub struct AgentSession {
    pub session_id: String,
    pub role: String,
    pub status: AgentSessionStatus,
    pub output: Vec<OutputLine>,
    pub pending_follow_ups: Vec<String>,
}

/// The part of a feature's state that the session views read: its id and
/// its active sessions, in order.
#[derive(Debug, Clone, PartialEq, Eq)]
pub struct FeatureState {
    pub feature_id: String,
    pub active_sessions: Vec<AgentSession>,
}

/// One session in the JSON report.
#[derive(Debug, Clone, PartialEq, Eq)]
pub struct AgentJsonSession {
    pub session_id: String,
    pub role: String,
    pub status: String,
    pub output: Vec<String>,
    pub pending_follow_ups: Vec<String>,
}

/// The JSON report of a feature's sessions.
#[derive(Debug, Clone, PartialEq, Eq)]
pub struct AgentsJsonReport {
    pub feature_id: String,
    pub sessions: Vec<AgentJsonSession>,
}

/// The name of a session status.
pub open spec fn status_name(s: AgentSessionStatus) -> Seq<char> {
    match s {
        AgentSessionStatus::Running => "running"@,
        AgentSessionStatus::WaitingForHuman => "waiting-for-human"@,
        AgentSessionStatus::Completed => "completed"@,
        AgentSessionStatus::Failed => "failed"@,
        AgentSessionStatus::Aborted => "aborted"@,
    }
}

/// The marker shown in front of a session of this status.
pub open spec fn status_marker(s: AgentSessionStatus) -> Seq<char> {
    match s {
        AgentSessionStatus::Running => "▶"@,
        AgentSessionStatus::WaitingForHuman => "⏸"@,
        AgentSessionStatus::Completed => "✓"@,
        AgentSessionStatus::Failed => "✗"@,
        AgentSessionStatus::Aborted => "⊗"@,
    }
}

fn agent_status_str(status: AgentSessionStatus) -> (r: &'static str)
    ensures
        r@ == status_name(status),
{
    match status {
        AgentSessionStatus::Running => "running",
        AgentSessionStatus::WaitingForHuman => "waiting-for-human",
        AgentSessionStatus::Completed => "completed",
        AgentSessionStatus::Failed => "failed",
        AgentSessionStatus::Aborted => "aborted",
    }
}

fn session_display_parts(session: &AgentSession) -> (r: (&'static str, &'static str))
    ensures
        r.0@ == status_marker(session.status),
        r.1@ == status_name(session.status),
{
    match session.status {
        AgentSessionStatus::Running => ("▶", "running"),
        AgentSessionStatus::WaitingForHuman => ("⏸", "waiting-for-human"),
        AgentSessionStatus::Completed => ("✓", "completed"),
        AgentSessionStatus::Failed => ("✗", "failed"),
        AgentSessionStatus::Aborted => ("⊗", "aborted"),
    }
}

/// The texts of a session's output, in order.
pub open spec fn output_texts(o: Seq<OutputLine>) -> Seq<Seq<char>> {
    o.map_values(|l: OutputLine| l.text@)
}

/// What the JSON report says of one session.
pub open spec fn json_session_matches(j: AgentJsonSession, s: AgentSession) -> bool {
    &&& j.session_id@ == s.session_id@
    &&& j.role@ == s.role@
    &&& j.status@ == status_name(s.status)
    &&& views(j.output@) == output_texts(s.output@)
    &&& views(j.pending_follow_ups@) == views(s.pending_follow_ups@)
}

fn copy_strings(v: &Vec<String>) -> (r: Vec<String>)
    ensures
        views(r@) == views(v@),
{
    let mut out: Vec<String> = Vec::new();
    let n: usize = v.len();
    for i in 0..n
        invariant
            n == v@.len(),
            views(out@) == views(v@.take(i as int)),
    {
        proof {
            assert(v@.take(i + 1) =~= v@.take(i as int).push(v@[i as int]));
        }
        let ghost before = out@;
        out.push(v[i].clone());
        proof {
            assert(views(out@) =~= views(before).push(v@[i as int]@));
            assert(views(v@.take(i + 1)) =~= views(v@.take(i as int)).push(v@[i as int]@));
        }
    }
    proof {
        assert(v@.take(n as int) =~= v@);
    }
    out
}

fn json_session(session: &AgentSession) -> (j: AgentJsonSession)
    ensures
        json_session_matches(j, *session),
{
    let mut output: Vec<String> = Vec::new();
    let n: usize = session.output.len();
    for i in 0..n
        invariant
            n == session.output@.len(),
            views(output@) == output_texts(session.output@.take(i as int)),
    {
        proof {
            assert(session.output@.take(i + 1) =~= session.output@.take(i as int).push(session.output@[i as int]));
        }
        let ghost before = output@;
        output.push(session.output[i].text.clone());
        proof {
            assert(views(output@) =~= views(before).push(session.output@[i as int].text@));
            assert(output_texts(session.output@.take(i + 1)) =~= output_texts(session.output@.take(i as int)).push(
                session.output@[i as int].text@,
            ));
        }
    }
    proof {
        assert(session.output@.take(n as int) =~= session.output@);
    }
    AgentJsonSession {
        session_id: session.session_id.clone(),
        role: session.role.clone(),
        status: owned(agent_status_str(session.status)),
        output,
        pending_follow_ups: copy_strings(&session.pending_follow_ups),
    }
}

/// The JSON report of a feature's active sessions: the feature id and, for
/// each session in order, its id, role, status name, output texts and
/// pending follow-ups.
pub fn agents_json_report(feature: &FeatureState) -> (r: AgentsJsonReport)
    ensures
        r.feature_id@ == feature.feature_id@,
        r.sessions@.len() == feature.active_sessions@.len(),
        forall|i: int|
            0 <= i < r.sessions@.len() ==> json_session_matches(#[trigger] r.sessions@[i], feature.active_sessions@[i]),
{
    let mut sessions: Vec<AgentJsonSession> = Vec::new();
    let n: usize = feature.active_sessions.len();
    for i in 0..n
        invariant
            n == feature.active_sessions@.len(),
            sessions@.len() == i,
            forall|k: int| 0 <= k < i ==> json_session_matches(#[trigger] sessions@[k], feature.active_sessions@[k]),
    {
        let j = json_session(&feature.active_sessions[i]);
        sessions.push(j);
    }
    AgentsJsonReport { feature_id: feature.feature_id.clone(), sessions }
}

/// The lines shown for one session: its heading, then each line of each of
/// its outputs, indented by two spaces.
pub open spec fn session_lines(s: AgentSession) -> Seq<Seq<char>> {
    seq![status_marker(s.status) + " "@ + s.role@ + "  ["@ + s.session_id@ + "]  "@ + status_name(s.status)]
        + output_lines(s.output@)
}

pub open spec fn output_lines(o: Seq<OutputLine>) -> Seq<Seq<char>>
    decreases o.len(),
{
    if o.len() == 0 {
        Seq::empty()
    } else {
        output_lines(o.drop_last()) + indented(text_lines(o.last().text@))
    }
}

pub open spec fn all_session_lines(ss: Seq<AgentSession>) -> Seq<Seq<char>>
    decreases ss.len(),
{
    if ss.len() == 0 {
        Seq::empty()
    } else {
        all_session_lines(ss.drop_last()) + session_lines(ss.last())
    }
}

/// The plain-text summary of a feature's sessions.
pub open spec fn agents_text(f: FeatureState) -> Seq<char> {
    let head = seq!["Active sessions for "@ + f.feature_id@, seq_repeat('─', 42)];
    if f.active_sessions@.len() == 0 {
        seq_join(head.push("  (no active sessions)"@), "\n"@)
    } else {
        seq_join(head + all_session_lines(f.active_sessions@), "\n"@)
    }
}

/// Renders a human-readable summary of a feature's active sessions.
pub fn render_agents(feature: &FeatureState) -> (r: String)
    ensures
        r@ == agents_text(*feature),
{
    let mut lines: Vec<String> = Vec::new();
    let mut head = String::from_str("Active sessions for ");
    head.append(feature.feature_id.as_str());
    lines.push(head);
    lines.push(crate::text::repeat_char('─', 42));
    let ghost hd = seq!["Active sessions for "@ + feature.feature_id@, seq_repeat('─', 42)];
    proof {
        assert(views(lines@) =~= hd);
    }
    let n: usize = feature.active_sessions.len();
    if n == 0 {
        lines.push(owned("  (no active sessions)"));
        proof {
            assert(views(lines@) =~= hd.push("  (no active sessions)"@));
        }
        return crate::text::join(&lines, "\n");
    }
    for i in 0..n
        invariant
            n == feature.active_sessions@.len(),
            views(lines@) == hd + all_session_lines(feature.active_sessions@.take(i as int)),
    {
        let ghost ss = feature.active_sessions@;
        proof {
            assert(ss.take(i + 1).drop_last() =~= ss.take(i as int));
            assert(ss.take(i + 1).last() == ss[i as int]);
        }
        let session = &feature.active_sessions[i];
        let (marker, status_str) = session_display_parts(session);
        let ghost before = views(lines@);
        let mut h = String::from_str(marker);
        h.append(" ");
        h.append(session.role.as_str());
        h.append("  [");
        h.append(session.session_id.as_str());
        h.append("]  ");
        h.append(status_str);
        lines.push(h);
        let m: usize = session.output.len();
        for k in 0..m
            invariant
                m == session.output@.len(),
                views(lines@) == before.push(
                    status_marker(session.status) + " "@ + session.role@ + "  ["@ + session.session_id@ + "]  "@
                        + status_name(session.status),
                ) + output_lines(session.output@.take(k as int)),
        {
            proof {
                assert(session.output@.take(k + 1).drop_last() =~= session.output@.take(k as int));
                assert(session.output@.take(k + 1).last() == session.output@[k as int]);
            }
            push_indented_lines(&mut lines, session.output[k].text.as_str());
            proof {
                assert(views(lines@) =~= before.push(
                    status_marker(session.status) + " "@ + session.role@ + "  ["@ + session.session_id@ + "]  "@
                        + status_name(session.status),
                ) + output_lines(session.output@.take(k + 1)));
            }
        }
        proof {
            assert(session.output@.take(m as int) =~= session.output@);
            assert(views(lines@) =~= before + session_lines(*session));
        }
    }
    proof {
        assert(feature.active_sessions@.take(n as int) =~= feature.active_sessions@);
    }
    crate::text::join(&lines, "\n")
}

} // verus!
