//! The status views: the feature status summary, the development phase
//! summary and the labels they show.
use crate::state::{EvidenceStatus, GateStatus, GithubMergeability, GithubPullRequestSnapshot, GithubReviewStatus, PullRequestRef};
use crate::text::{decimal, owned, push_decimal, seq_join, views};
use vstd::prelude::*;

verus! {

/// The label of a gate status.
pub open spec fn gate_label(s: GateStatus) -> Seq<char> {
    match s {
        GateStatus::Pending => "pending"@,
        GateStatus::Passing => "passing"@,
        GateStatus::Failing => "failing"@,
        GateStatus::Manual => "manual"@,
    }
}

/// The label shown for a gate status.
pub fn gate_status_label(status: &GateStatus) -> (r: &'static str)
    ensures
        r@ == gate_label(*status),
{
    match status {
        GateStatus::Pending => "pending",
        GateStatus::Passing => "passing",
        GateStatus::Failing => "failing",
        GateStatus::Manual => "manual",
    }
}

/// The label of a review decision.
pub open spec fn review_label(s: GithubReviewStatus) -> Seq<char> {
    match s {
        GithubReviewStatus::Approved => "approved"@,
        GithubReviewStatus::ReviewRequired => "review-required"@,
        GithubReviewStatus::ChangesRequested => "changes-requested"@,
    }
}

fn github_review_label(s: GithubReviewStatus) -> (r: &'static str)
    ensures
        r@ == review_label(s),
{
    match s {
        GithubReviewStatus::Approved => "approved",
        GithubReviewStatus::ReviewRequired => "review-required",
        GithubReviewStatus::ChangesRequested => "changes-requested",
    }
}

/// The label of a mergeability.
pub open spec fn mergeability_label(m: GithubMergeability) -> Seq<char> {
    match m {
        GithubMergeability::Mergeable => "mergeable"@,
        GithubMergeability::Conflicting => "conflicting"@,
        GithubMergeability::Blocked => "blocked"@,
        GithubMergeability::Unknown => "unknown"@,
    }
}

fn github_mergeability_label(m: GithubMergeability) -> (r: &'static str)
    ensures
        r@ == mergeability_label(m),
{
    match m {
        GithubMergeability::Mergeable => "mergeable",
        GithubMergeability::Conflicting => "conflicting",
        GithubMergeability::Blocked => "blocked",
        GithubMergeability::Unknown => "unknown",
    }
}

/// The label of an evidence status.
pub open spec fn evidence_label(e: EvidenceStatus) -> Seq<char> {
    match e {
        EvidenceStatus::Passing => "passing"@,
        EvidenceStatus::Failing => "failing"@,
        EvidenceStatus::Pending => "pending"@,
        EvidenceStatus::Manual => "manual"@,
    }
}

fn evidence_status_label(e: EvidenceStatus) -> (r: &'static str)
    ensures
        r@ == evidence_label(e),
{
    match e {
        EvidenceStatus::Passing => "passing",
        EvidenceStatus::Failing => "failing",
        EvidenceStatus::Pending => "pending",
        EvidenceStatus::Manual => "manual",
    }
}

/// A gate as the feature status shows it.
#[derive(Debug, Clone, PartialEq, Eq)]
pub struct GateLine {
    pub label: String,
    pub status: GateStatus,
}

/// A group of gates as the feature status shows it.
#[derive(Debug, Clone, PartialEq, Eq)]
pub struct GateGroupView {
    pub label: String,
    pub gates: Vec<GateLine>,
}

/// An item of the pull-request checklist.
#[derive(Debug, Clone, PartialEq, Eq)]
pub struct ChecklistItem {
    pub label: String,
    pub checked: bool,
}

/// What the feature status shows of a feature: its workflow state's label,
/// its gate groups, its pull-request checklist, the ids of the gates that
/// block it, and the GitHub snapshot or the error met reading it.
#[derive(Debug, Clone, PartialEq, Eq)]
pub struct FeatureStatusView {
    pub workflow_state: String,
    pub gate_groups: Vec<GateGroupView>,
    pub checklist: Vec<ChecklistItem>,
    pub blocking_gate_ids: Vec<String>,
    pub github_snapshot: Option<GithubPullRequestSnapshot>,
    pub github_error: Option<String>,
}

pub open spec fn gate_lines(gs: Seq<GateLine>) -> Seq<Seq<char>>
    decreases gs.len(),
{
    if gs.len() == 0 {
        Seq::empty()
    } else {
        gate_lines(gs.drop_last()).push("- ["@ + gate_label(gs.last().status) + "] "@ + gs.last().label@)
    }
}

/// A blank line, the group's label, then one line per gate.
pub open spec fn group_lines(gs: Seq<GateGroupView>) -> Seq<Seq<char>>
    decreases gs.len(),
{
    if gs.len() == 0 {
        Seq::empty()
    } else {
        group_lines(gs.drop_last()) + seq![Seq::empty(), gs.last().label@] + gate_lines(gs.last().gates@)
    }
}

pub open spec fn checklist_lines(items: Seq<ChecklistItem>) -> Seq<Seq<char>>
    decreases items.len(),
{
    if items.len() == 0 {
        Seq::empty()
    } else {
        checklist_lines(items.drop_last()).push(
            "- ["@ + (if items.last().checked { "x"@ } else { " "@ }) + "] "@ + items.last().label@,
        )
    }
}

/// The GitHub block: the snapshot's state, review, checks and mergeability,
/// or the error; nothing when there is neither.
pub open spec fn github_lines(snapshot: Option<GithubPullRequestSnapshot>, error: Option<Seq<char>>) -> Seq<Seq<char>> {
    match snapshot {
        Some(s) => seq![
            "GitHub"@,
            "- PR state: "@ + (if s.is_draft { "draft"@ } else { "ready-for-review"@ }),
            "- Review: "@ + review_label(s.review_status),
            "- Checks: "@ + evidence_label(s.checks),
            "- Mergeability: "@ + mergeability_label(s.mergeability),
            Seq::empty(),
        ],
        None => match error {
            Some(e) => seq!["GitHub"@, "- Error: "@ + e, Seq::empty()],
            None => Seq::empty(),
        },
    }
}

pub open spec fn blocking_line(ids: Seq<Seq<char>>) -> Seq<char> {
    if ids.len() == 0 {
        "Blocking gates: none"@
    } else {
        "Blocking gates: "@ + seq_join(ids, ", "@)
    }
}

pub open spec fn pr_line(pr: Option<(u64, Seq<char>)>) -> Seq<char> {
    match pr {
        Some((n, url)) => "Pull request: #"@ + decimal(n as nat) + " "@ + url,
        None => "Pull request: missing"@,
    }
}

pub open spec fn pr_view(pr: Option<&PullRequestRef>) -> Option<(u64, Seq<char>)> {
    match pr {
        Some(p) => Some((p.number, p.url@)),
        None => None,
    }
}

pub open spec fn os(s: Option<&str>) -> Option<Seq<char>> {
    match s {
        Some(t) => Some(t@),
        None => None,
    }
}

pub open spec fn oview(s: Option<String>) -> Option<Seq<char>> {
    match s {
        Some(t) => Some(t@),
        None => None,
    }
}

/// The lines of the feature status.
pub open spec fn feature_status_lines(
    repo_root: Seq<char>,
    branch: Seq<char>,
    pr: Option<(u64, Seq<char>)>,
    dev_phase: Option<Seq<char>>,
    f: FeatureStatusView,
) -> Seq<Seq<char>> {
    seq![
        "Feature status"@,
        "Repo: "@ + repo_root,
        "Branch: "@ + branch,
        "Development phase: "@ + (match dev_phase {
            Some(p) => p,
            None => "unknown"@,
        }),
        pr_line(pr),
        "Workflow state: "@ + f.workflow_state@,
    ] + group_lines(f.gate_groups@) + seq![Seq::empty(), "PR checklist"@] + checklist_lines(f.checklist@) + seq![
        Seq::empty(),
    ] + github_lines(f.github_snapshot, oview(f.github_error)) + seq![blocking_line(views(f.blocking_gate_ids@))]
}

/// The feature status text.
pub open spec fn feature_status_text(
    repo_root: Seq<char>,
    branch: Seq<char>,
    pr: Option<(u64, Seq<char>)>,
    dev_phase: Option<Seq<char>>,
    f: FeatureStatusView,
) -> Seq<char> {
    seq_join(feature_status_lines(repo_root, branch, pr, dev_phase, f), "\n"@)
}

fn push_line(lines: &mut Vec<String>, s: String)
    ensures
        views(final(lines)@) == views(old(lines)@).push(s@),
{
    let ghost before = lines@;
    lines.push(s);
    proof {
        assert(views(lines@) =~= views(before).push(s@));
    }
}

fn concat(a: &str, b: &str) -> (r: String)
    ensures
        r@ == a@ + b@,
{
    let mut s = String::from_str(a);
    s.append(b);
    s
}

fn push_groups(lines: &mut Vec<String>, groups: &Vec<GateGroupView>)
    ensures
        views(final(lines)@) == views(old(lines)@) + group_lines(groups@),
{
    let ghost l0 = views(lines@);
    let n: usize = groups.len();
    for i in 0..n
        invariant
            n == groups@.len(),
            views(lines@) == l0 + group_lines(groups@.take(i as int)),
    {
        proof {
            assert(groups@.take(i + 1).drop_last() =~= groups@.take(i as int));
            assert(groups@.take(i + 1).last() == groups@[i as int]);
        }
        let g = &groups[i];
        let ghost lg = views(lines@);
        push_line(lines, String::new());
        push_line(lines, g.label.clone());
        let m: usize = g.gates.len();
        for k in 0..m
            invariant
                m == g.gates@.len(),
                views(lines@) == lg + seq![Seq::<char>::empty(), g.label@] + gate_lines(g.gates@.take(k as int)),
        {
            proof {
                assert(g.gates@.take(k + 1).drop_last() =~= g.gates@.take(k as int));
                assert(g.gates@.take(k + 1).last() == g.gates@[k as int]);
            }
            let gate = &g.gates[k];
            let mut l = String::from_str("- [");
            l.append(gate_status_label(&gate.status));
            l.append("] ");
            l.append(gate.label.as_str());
            push_line(lines, l);
        }
        proof {
            assert(g.gates@.take(m as int) =~= g.gates@);
            assert(views(lines@) =~= l0 + group_lines(groups@.take(i + 1)));
        }
    }
    proof {
        assert(groups@.take(n as int) =~= groups@);
    }
}

fn push_checklist(lines: &mut Vec<String>, items: &Vec<ChecklistItem>)
    ensures
        views(final(lines)@) == views(old(lines)@) + checklist_lines(items@),
{
    let ghost l0 = views(lines@);
    let n: usize = items.len();
    for i in 0..n
        invariant
            n == items@.len(),
            views(lines@) == l0 + checklist_lines(items@.take(i as int)),
    {
        proof {
            assert(items@.take(i + 1).drop_last() =~= items@.take(i as int));
            assert(items@.take(i + 1).last() == items@[i as int]);
        }
        let item = &items[i];
        let mut l = String::from_str("- [");
        l.append(if item.checked { "x" } else { " " });
        l.append("] ");
        l.append(item.label.as_str());
        push_line(lines, l);
        proof {
            assert(views(lines@) =~= l0 + checklist_lines(items@.take(i + 1)));
        }
    }
    proof {
        assert(items@.take(n as int) =~= items@);
    }
}

fn push_github(lines: &mut Vec<String>, snapshot: &Option<GithubPullRequestSnapshot>, error: &Option<String>)
    ensures
        views(final(lines)@) == views(old(lines)@) + github_lines(*snapshot, oview(*error)),
{
    let ghost l0 = views(lines@);
    match snapshot {
        Some(s) => {
            push_line(lines, owned("GitHub"));
            push_line(lines, concat("- PR state: ", if s.is_draft { "draft" } else { "ready-for-review" }));
            push_line(lines, concat("- Review: ", github_review_label(s.review_status)));
            push_line(lines, concat("- Checks: ", evidence_status_label(s.checks)));
            push_line(lines, concat("- Mergeability: ", github_mergeability_label(s.mergeability)));
            push_line(lines, String::new());
            proof {
                assert(views(lines@) =~= l0 + github_lines(*snapshot, oview(*error)));
            }
        },
        None => match error {
            Some(e) => {
                push_line(lines, owned("GitHub"));
                push_line(lines, concat("- Error: ", e.as_str()));
                push_line(lines, String::new());
                proof {
                    assert(views(lines@) =~= l0 + github_lines(*snapshot, oview(*error)));
                }
            },
            None => {
                proof {
                    assert(views(lines@) =~= l0 + github_lines(*snapshot, oview(*error)));
                }
            },
        },
    }
}

/// Renders the feature status: the repository, branch, development phase
/// (`unknown` when none was read), pull request and workflow state; each
/// gate group with its gates; the pull-request checklist; the GitHub
/// snapshot or error; and the blocking gates.
pub fn render_feature_status(
    repo_root: &str,
    branch: &str,
    pull_request: Option<&PullRequestRef>,
    dev_phase: Option<&str>,
    feature: &FeatureStatusView,
) -> (r: String)
    ensures
        r@ == feature_status_text(repo_root@, branch@, pr_view(pull_request), os(dev_phase), *feature),
{
    let mut lines: Vec<String> = Vec::new();
    push_line(&mut lines, owned("Feature status"));
    push_line(&mut lines, concat("Repo: ", repo_root));
    push_line(&mut lines, concat("Branch: ", branch));
    push_line(&mut lines, concat("Development phase: ", match dev_phase {
        Some(p) => p,
        None => "unknown",
    }));
    let pr = match pull_request {
        Some(p) => {
            let mut s = String::from_str("Pull request: #");
            push_decimal(&mut s, p.number);
            s.append(" ");
            s.append(p.url.as_str());
            s
        },
        None => owned("Pull request: missing"),
    };
    push_line(&mut lines, pr);
    push_line(&mut lines, concat("Workflow state: ", feature.workflow_state.as_str()));
    let ghost head = views(lines@);
    push_groups(&mut lines, &feature.gate_groups);
    push_line(&mut lines, String::new());
    push_line(&mut lines, owned("PR checklist"));
    push_checklist(&mut lines, &feature.checklist);
    push_line(&mut lines, String::new());
    push_github(&mut lines, &feature.github_snapshot, &feature.github_error);
    let blocking = if feature.blocking_gate_ids.len() == 0 {
        owned("Blocking gates: none")
    } else {
        let ids = crate::text::join(&feature.blocking_gate_ids, ", ");
        concat("Blocking gates: ", ids.as_str())
    };
    push_line(&mut lines, blocking);
    proof {
        assert(views(lines@) =~= feature_status_lines(repo_root@, branch@, pr_view(pull_request), os(dev_phase), *feature));
    }
    crate::text::join(&lines, "\n")
}

/// One entry of the development phase history.
#[derive(Debug, Clone, PartialEq, Eq)]
pub struct PhaseTransition {
    pub from: String,
    pub to: String,
    pub timestamp: String,
}

/// What the development status shows: the phase, the init sub-state, the
/// time of the last transition and the history, as text.
#[derive(Debug, Clone, PartialEq, Eq)]
pub struct DevStatusView {
    pub phase: String,
    pub init_step: Option<String>,
    pub last_transition_at: Option<String>,
    pub transition_log: Vec<PhaseTransition>,
}

pub open spec fn transition_lines(ts: Seq<PhaseTransition>) -> Seq<Seq<char>>
    decreases ts.len(),
{
    if ts.len() == 0 {
        Seq::empty()
    } else {
        transition_lines(ts.drop_last()).push(
            "  "@ + ts.last().from@ + " -> "@ + ts.last().to@ + " ("@ + ts.last().timestamp@ + ")"@,
        )
    }
}

/// The lines of the development status.
pub open spec fn dev_status_lines(d: DevStatusView) -> Seq<Seq<char>> {
    seq!["Development phase: "@ + d.phase@] + (match d.init_step {
        Some(s) => seq!["Init sub-state:    "@ + s@],
        None => Seq::empty(),
    }) + (match d.last_transition_at {
        Some(t) => seq!["Last transition:   "@ + t@],
        None => Seq::empty(),
    }) + (if d.transition_log@.len() == 0 {
        Seq::empty()
    } else {
        seq![Seq::empty(), "Transition history"@, "  "@ + crate::text::seq_repeat('─', 40)] + transition_lines(
            d.transition_log@,
        )
    })
}

/// Renders the development phase summary: the phase, the init sub-state and
/// last transition time where known, and the transition history.
pub fn render_dev_status(dev_state: &DevStatusView) -> (r: String)
    ensures
        r@ == seq_join(dev_status_lines(*dev_state), "\n"@),
{
    let mut lines: Vec<String> = Vec::new();
    push_line(&mut lines, concat("Development phase: ", dev_state.phase.as_str()));
    match &dev_state.init_step {
        Some(s) => push_line(&mut lines, concat("Init sub-state:    ", s.as_str())),
        None => {},
    }
    match &dev_state.last_transition_at {
        Some(t) => push_line(&mut lines, concat("Last transition:   ", t.as_str())),
        None => {},
    }
    let ghost mid = views(lines@);
    let n: usize = dev_state.transition_log.len();
    if n > 0 {
        push_line(&mut lines, String::new());
        push_line(&mut lines, owned("Transition history"));
        let rule = crate::text::repeat_char('─', 40);
        push_line(&mut lines, concat("  ", rule.as_str()));
        let ghost l0 = views(lines@);
        let ts = &dev_state.transition_log;
        for i in 0..n
            invariant
                n == ts@.len(),
                views(lines@) == l0 + transition_lines(ts@.take(i as int)),
        {
            proof {
                assert(ts@.take(i + 1).drop_last() =~= ts@.take(i as int));
                assert(ts@.take(i + 1).last() == ts@[i as int]);
            }
            let t = &ts[i];
            let mut l = String::from_str("  ");
            l.append(t.from.as_str());
            l.append(" -> ");
            l.append(t.to.as_str());
            l.append(" (");
            l.append(t.timestamp.as_str());
            l.append(")");
            push_line(&mut lines, l);
            proof {
                assert(views(lines@) =~= l0 + transition_lines(ts@.take(i + 1)));
            }
        }
        proof {
            assert(ts@.take(n as int) =~= ts@);
        }
    }
    proof {
        assert(views(lines@) =~= dev_status_lines(*dev_state));
    }
    crate::text::join(&lines, "\n")
}


/// The overall status of a gate group.
#[derive(Debug, Clone, Copy, PartialEq, Eq, Structural)]
pub enum GateGroupStatus {
    Passing,
    Pending,
    Manual,
    Blocked,
}

/// A gate of the state summary.
#[derive(Debug, Clone, PartialEq, Eq)]
pub struct StateGate {
    pub id: String,
    pub label: String,
    pub status: GateStatus,
}

/// A gate group of the state summary, with its rollup: the group's overall
/// status and the ids of its blocking gates.
#[derive(Debug, Clone, PartialEq, Eq)]
pub struct StateGateGroup {
    pub id: String,
    pub label: String,
    pub rollup_status: GateGroupStatus,
    pub rollup_blocking_gate_ids: Vec<String>,
    pub gates: Vec<StateGate>,
}

/// What the state summaries read of a feature.
#[derive(Debug, Clone, PartialEq, Eq)]
pub struct StateFeatureView {
    pub feature_id: String,
    pub branch: String,
    /// 0 when the feature has no pull request.
    pub pr_number: u64,
    pub workflow_state: String,
    pub gate_groups: Vec<StateGateGroup>,
    pub blocking_gate_ids: Vec<String>,
    pub active_session_count: usize,
}

/// A gate in the JSON state report.
#[derive(Debug, Clone, PartialEq, Eq)]
pub struct StateJsonGate {
    pub id: String,
    pub label: String,
    pub status: String,
}

/// A gate group in the JSON state report.
#[derive(Debug, Clone, PartialEq, Eq)]
pub struct StateJsonGateGroup {
    pub id: String,
    pub label: String,
    pub status: String,
    pub gates: Vec<StateJsonGate>,
}

/// The JSON state report.
#[derive(Debug, Clone, PartialEq, Eq)]
pub struct StateStatusJsonReport {
    pub feature_id: String,
    pub branch: String,
    pub pr_number: Option<u64>,
    pub workflow_state: String,
    pub gate_groups: Vec<StateJsonGateGroup>,
    pub blocking_gate_ids: Vec<String>,
    pub active_session_count: usize,
}

/// The status a group shows in the JSON report (a blocked group shows as
/// `failing`).
pub open spec fn group_status_text(s: GateGroupStatus) -> Seq<char> {
    match s {
        GateGroupStatus::Passing => "passing"@,
        GateGroupStatus::Pending => "pending"@,
        GateGroupStatus::Manual => "manual"@,
        GateGroupStatus::Blocked => "failing"@,
    }
}

pub open spec fn json_gate_matches(j: StateJsonGate, g: StateGate) -> bool {
    j.id@ == g.id@ && j.label@ == g.label@ && j.status@ == gate_label(g.status)
}

pub open spec fn json_group_matches(j: StateJsonGateGroup, g: StateGateGroup) -> bool {
    &&& j.id@ == g.id@
    &&& j.label@ == g.label@
    &&& j.status@ == group_status_text(g.rollup_status)
    &&& j.gates@.len() == g.gates@.len()
    &&& forall|k: int| 0 <= k < j.gates@.len() ==> json_gate_matches(#[trigger] j.gates@[k], g.gates@[k])
}

fn copy_strings(v: &Vec<String>) -> (r: Vec<String>)
    ensures
        views(r@) == views(v@),
{
    let mut out: Vec<String> = Vec::new();
    let n: usize = v.len();
    for i in 0..n
        invariant
            n == v@.len(),
            views(out@) == views(v@.take(i as int)),
    {
        let ghost before = out@;
        out.push(v[i].clone());
        proof {
            assert(views(out@) =~= views(before).push(v@[i as int]@));
            assert(views(v@.take(i + 1)) =~= views(v@.take(i as int)).push(v@[i as int]@));
        }
    }
    proof {
        assert(v@.take(n as int) =~= v@);
    }
    out
}

fn json_group(g: &StateGateGroup) -> (j: StateJsonGateGroup)
    ensures
        json_group_matches(j, *g),
{
    let mut gates: Vec<StateJsonGate> = Vec::new();
    let n: usize = g.gates.len();
    for i in 0..n
        invariant
            n == g.gates@.len(),
            gates@.len() == i,
            forall|k: int| 0 <= k < i ==> json_gate_matches(#[trigger] gates@[k], g.gates@[k]),
    {
        let gate = &g.gates[i];
        gates.push(StateJsonGate {
            id: gate.id.clone(),
            label: gate.label.clone(),
            status: owned(gate_status_label(&gate.status)),
        });
    }
    let status = match g.rollup_status {
        GateGroupStatus::Passing => "passing",
        GateGroupStatus::Pending => "pending",
        GateGroupStatus::Manual => "manual",
        GateGroupStatus::Blocked => "failing",
    };
    StateJsonGateGroup { id: g.id.clone(), label: g.label.clone(), status: owned(status), gates }
}

/// The JSON state report of a feature: its id, branch, pull request number
/// (`None` for 0), workflow state, each gate group with its rollup status
/// and gates, the blocking gate ids and the number of active sessions.
pub fn state_status_json_report(feature: &StateFeatureView) -> (r: StateStatusJsonReport)
    ensures
        r.feature_id@ == feature.feature_id@,
        r.branch@ == feature.branch@,
        r.pr_number == (if feature.pr_number == 0 { None } else { Some(feature.pr_number) }),
        r.workflow_state@ == feature.workflow_state@,
        r.gate_groups@.len() == feature.gate_groups@.len(),
        forall|i: int|
            0 <= i < r.gate_groups@.len() ==> json_group_matches(#[trigger] r.gate_groups@[i], feature.gate_groups@[i]),
        views(r.blocking_gate_ids@) == views(feature.blocking_gate_ids@),
        r.active_session_count == feature.active_session_count,
{
    let mut groups: Vec<StateJsonGateGroup> = Vec::new();
    let n: usize = feature.gate_groups.len();
    for i in 0..n
        invariant
            n == feature.gate_groups@.len(),
            groups@.len() == i,
            forall|k: int| 0 <= k < i ==> json_group_matches(#[trigger] groups@[k], feature.gate_groups@[k]),
    {
        groups.push(json_group(&feature.gate_groups[i]));
    }
    StateStatusJsonReport {
        feature_id: feature.feature_id.clone(),
        branch: feature.branch.clone(),
        pr_number: if feature.pr_number == 0 { None } else { Some(feature.pr_number) },
        workflow_state: feature.workflow_state.clone(),
        gate_groups: groups,
        blocking_gate_ids: copy_strings(&feature.blocking_gate_ids),
        active_session_count: feature.active_session_count,
    }
}

pub open spec fn state_gate_lines(gs: Seq<StateGate>) -> Seq<Seq<char>>
    decreases gs.len(),
{
    if gs.len() == 0 {
        Seq::empty()
    } else {
        state_gate_lines(gs.drop_last()).push(
            "    "@ + (if gs.last().status == GateStatus::Passing { "✓"@ } else { "✗"@ }) + " "@ + gs.last().label@,
        )
    }
}

/// A group's heading: passing mark when nothing blocks it, and the number
/// of blocking gates when some do.
pub open spec fn state_group_head(g: StateGateGroup) -> Seq<char> {
    let b = g.rollup_blocking_gate_ids@.len();
    "  "@ + (if b == 0 { "✓"@ } else { "✗"@ }) + " "@ + g.label@ + (if b > 0 {
        "  "@ + decimal(b) + " blocking"@
    } else {
        Seq::empty()
    })
}

pub open spec fn state_group_lines(gs: Seq<StateGateGroup>) -> Seq<Seq<char>>
    decreases gs.len(),
{
    if gs.len() == 0 {
        Seq::empty()
    } else {
        state_group_lines(gs.drop_last()).push(state_group_head(gs.last())) + state_gate_lines(gs.last().gates@)
    }
}

/// The lines of the state summary.
pub open spec fn state_status_lines(f: StateFeatureView) -> Seq<Seq<char>> {
    seq![
        "feature: "@ + f.feature_id@,
        "branch:  "@ + f.branch@ + (if f.pr_number != 0 { "  PR: #"@ + decimal(f.pr_number as nat) } else { Seq::empty() }),
        "state:   "@ + f.workflow_state@,
    ] + (if f.gate_groups@.len() == 0 {
        Seq::empty()
    } else {
        seq![Seq::empty(), "  Gates"@, "  "@ + crate::text::seq_repeat('─', 33)] + state_group_lines(f.gate_groups@)
    })
}

/// Renders a human-readable summary of a feature's state: id, branch (with
/// its pull request), workflow state, and each gate group with its gates.
pub fn render_state_status(feature: &StateFeatureView) -> (r: String)
    ensures
        r@ == seq_join(state_status_lines(*feature), "\n"@),
{
    let mut lines: Vec<String> = Vec::new();
    push_line(&mut lines, concat("feature: ", feature.feature_id.as_str()));
    let mut b = String::from_str("branch:  ");
    b.append(feature.branch.as_str());
    if feature.pr_number != 0 {
        b.append("  PR: #");
        push_decimal(&mut b, feature.pr_number);
    }
    assert(b@ =~= "branch:  "@ + feature.branch@ + (if feature.pr_number != 0 {
        "  PR: #"@ + decimal(feature.pr_number as nat)
    } else {
        Seq::empty()
    }));
    push_line(&mut lines, b);
    push_line(&mut lines, concat("state:   ", feature.workflow_state.as_str()));
    let ghost top = views(lines@);
    let n: usize = feature.gate_groups.len();
    if n > 0 {
        push_line(&mut lines, String::new());
        push_line(&mut lines, owned("  Gates"));
        let rule = crate::text::repeat_char('─', 33);
        push_line(&mut lines, concat("  ", rule.as_str()));
        let ghost l0 = views(lines@);
        let gs = &feature.gate_groups;
        for i in 0..n
            invariant
                n == gs@.len(),
                views(lines@) == l0 + state_group_lines(gs@.take(i as int)),
        {
            proof {
                assert(gs@.take(i + 1).drop_last() =~= gs@.take(i as int));
                assert(gs@.take(i + 1).last() == gs@[i as int]);
            }
            let g = &gs[i];
            let blocking: usize = g.rollup_blocking_gate_ids.len();
            let mut h = String::from_str("  ");
            h.append(if blocking == 0 { "✓" } else { "✗" });
            h.append(" ");
            h.append(g.label.as_str());
            if blocking > 0 {
                h.append("  ");
                push_decimal(&mut h, blocking as u64);
                h.append(" blocking");
            }
            proof {
                assert((blocking as u64) as nat == blocking as nat);
                assert(h@ =~= state_group_head(*g));
            }
            let ghost lg = views(lines@);
            push_line(&mut lines, h);
            let m: usize = g.gates.len();
            for k in 0..m
                invariant
                    m == g.gates@.len(),
                    views(lines@) == lg.push(state_group_head(*g)) + state_gate_lines(g.gates@.take(k as int)),
            {
                proof {
                    assert(g.gates@.take(k + 1).drop_last() =~= g.gates@.take(k as int));
                    assert(g.gates@.take(k + 1).last() == g.gates@[k as int]);
                }
                let gate = &g.gates[k];
                let mut l = String::from_str("    ");
                l.append(if gate.status == GateStatus::Passing { "✓" } else { "✗" });
                l.append(" ");
                l.append(gate.label.as_str());
                push_line(&mut lines, l);
            }
            proof {
                assert(g.gates@.take(m as int) =~= g.gates@);
                assert(views(lines@) =~= l0 + state_group_lines(gs@.take(i + 1)));
            }
        }
        proof {
            assert(gs@.take(n as int) =~= gs@);
        }
    } else {
        proof {
            assert(views(lines@) =~= top + Seq::<Seq<char>>::empty());
        }
    }
    proof {
        assert(views(lines@) =~= state_status_lines(*feature));
    }
    crate::text::join(&lines, "\n")
}

} // verus!
