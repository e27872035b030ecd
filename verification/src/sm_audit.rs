//! State machine audit: structural integrity of the workflow graph.
//!
//! The audit walks the graph from every entry point (a workflow that is not
//! only used as a sub-workflow), following `kind: workflow` references, and
//! reports: states not reachable from the initial state, transitions to
//! undeclared states, states that cannot reach a terminal state, handoffs
//! whose events do not match the sub-workflow's terminal states, references
//! to missing workflows, and workflows no entry point reaches.
use crate::blueprint_workflows::{os, spec_entries, spec_event_keys, NextSpec, spec_targets, strs, BlueprintWorkflow, StateConfig, StateKind};
use crate::interpreter::{is_sub_workflow, reg_get, WorkflowRegistry};
use crate::named::{get_of, ins, insert_name, lemma_set_of, set_of, sorted_names};
use crate::text::{owned, seq_join, str_eq, views};
use vstd::prelude::*;

verus! {

// ── The transition graph of a workflow ───────────────────────────────────────

/// The targets named by a state's transitions.
pub open spec fn state_targets(c: StateConfig) -> Seq<Seq<char>> {
    match c.next {
        Some(n) => spec_targets(spec_entries(n)),
        None => Seq::empty(),
    }
}

/// State `i` is named `a` and has a transition to `b`.
pub open spec fn edge_at(wf: BlueprintWorkflow, i: int, a: Seq<char>, b: Seq<char>) -> bool {
    0 <= i < wf.states@.len() && wf.states@[i].0@ == a && state_targets(wf.states@[i].1).contains(b)
}

/// One step along (`fwd`) or against the transitions, through state `i`.
pub open spec fn step_at(wf: BlueprintWorkflow, fwd: bool, i: int, a: Seq<char>, b: Seq<char>) -> bool {
    if fwd {
        edge_at(wf, i, a, b)
    } else {
        edge_at(wf, i, b, a)
    }
}

/// One step leads from `a` to `b`.
pub open spec fn linked(wf: BlueprintWorkflow, fwd: bool, a: Seq<char>, b: Seq<char>) -> bool {
    exists|i: int| #[trigger] step_at(wf, fwd, i, a, b)
}

/// `p` is a path of steps starting at one of `starts`.
pub open spec fn is_path(wf: BlueprintWorkflow, fwd: bool, starts: Seq<Seq<char>>, p: Seq<Seq<char>>) -> bool {
    &&& p.len() > 0
    &&& starts.contains(p[0])
    &&& forall|j: int| 0 <= j < p.len() - 1 ==> #[trigger] linked(wf, fwd, p[j], p[j + 1])
}

/// `n` is reachable from one of `starts` (following the transitions when
/// `fwd`, against them otherwise).
pub open spec fn reaches(wf: BlueprintWorkflow, fwd: bool, starts: Seq<Seq<char>>, n: Seq<char>) -> bool {
    exists|p: Seq<Seq<char>>| #[trigger] is_path(wf, fwd, starts, p) && p.last() == n
}

proof fn lemma_reaches_start(wf: BlueprintWorkflow, fwd: bool, starts: Seq<Seq<char>>, n: Seq<char>)
    requires
        starts.contains(n),
    ensures
        reaches(wf, fwd, starts, n),
{
    assert(is_path(wf, fwd, starts, seq![n]));
}

proof fn lemma_reaches_step(wf: BlueprintWorkflow, fwd: bool, starts: Seq<Seq<char>>, n: Seq<char>, i: int, m: Seq<char>)
    requires
        reaches(wf, fwd, starts, n),
        step_at(wf, fwd, i, n, m),
    ensures
        reaches(wf, fwd, starts, m),
{
    let p = choose|p: Seq<Seq<char>>| #[trigger] is_path(wf, fwd, starts, p) && p.last() == n;
    let q = p.push(m);
    assert(linked(wf, fwd, n, m));
    assert forall|j: int| 0 <= j < q.len() - 1 implies #[trigger] linked(wf, fwd, q[j], q[j + 1]) by {
        if j < p.len() - 1 {
            assert(q[j] == p[j] && q[j + 1] == p[j + 1]);
        }
    }
    assert(q[0] == p[0]);
    assert(is_path(wf, fwd, starts, q));
}

/// Everything reachable is collected once the collected names hold the
/// starts and are closed under steps.
proof fn lemma_closed_complete(wf: BlueprintWorkflow, fwd: bool, starts: Seq<Seq<char>>, v: Seq<Seq<char>>, p: Seq<Seq<char>>)
    requires
        forall|x: Seq<char>| starts.contains(x) ==> v.contains(x),
        forall|x: Seq<char>, i: int, m: Seq<char>| v.contains(x) && #[trigger] step_at(wf, fwd, i, x, m) ==> v.contains(m),
        is_path(wf, fwd, starts, p),
    ensures
        v.contains(p.last()),
    decreases p.len(),
{
    if p.len() > 1 {
        let q = p.drop_last();
        assert forall|j: int| 0 <= j < q.len() - 1 implies #[trigger] linked(wf, fwd, q[j], q[j + 1]) by {
            assert(linked(wf, fwd, p[j], p[j + 1]));
        }
        assert(is_path(wf, fwd, starts, q));
        lemma_closed_complete(wf, fwd, starts, v, q);
        let j = p.len() - 2;
        assert(linked(wf, fwd, p[j], p[j + 1]));
        assert(p[j + 1] == p.last());
        assert(q.last() == p[j]);
        let i = choose|i: int| #[trigger] step_at(wf, fwd, i, p[j], p[j + 1]);
    }
}

/// Every state name and transition target, in order.
pub open spec fn graph_names(s: Seq<(String, StateConfig)>) -> Seq<Seq<char>>
    decreases s.len(),
{
    if s.len() == 0 {
        Seq::empty()
    } else {
        graph_names(s.drop_last()) + seq![s.last().0@] + state_targets(s.last().1)
    }
}

proof fn lemma_graph_names(s: Seq<(String, StateConfig)>, i: int, b: Seq<char>)
    requires
        0 <= i < s.len(),
    ensures
        graph_names(s).contains(s[i].0@),
        state_targets(s[i].1).contains(b) ==> graph_names(s).contains(b),
    decreases s.len(),
{
    let g = graph_names(s);
    let p = graph_names(s.drop_last());
    if i < s.len() - 1 {
        lemma_graph_names(s.drop_last(), i, b);
        assert(s.drop_last()[i] == s[i]);
        let k = choose|k: int| 0 <= k < p.len() && p[k] == s[i].0@;
        assert(g[k] == s[i].0@);
        if state_targets(s[i].1).contains(b) {
            let q = choose|q: int| 0 <= q < p.len() && p[q] == b;
            assert(g[q] == b);
        }
    } else {
        assert(g[p.len() as int] == s[i].0@);
        if state_targets(s[i].1).contains(b) {
            let t = state_targets(s[i].1);
            let q = choose|q: int| 0 <= q < t.len() && t[q] == b;
            assert(g[p.len() + 1 + q] == b);
        }
    }
}

proof fn lemma_nodup_len(v: Seq<Seq<char>>, u: Seq<Seq<char>>)
    requires
        v.no_duplicates(),
        forall|x: Seq<char>| #[trigger] v.contains(x) ==> u.contains(x),
    ensures
        v.len() <= u.len(),
{
    assert forall|i: int| 0 <= i < v.len() implies u.contains(#[trigger] v[i]) by {
        assert(v.contains(v[i]));
    }
    v.unique_seq_to_set();
    u.lemma_cardinality_of_set();
    assert(v.to_set().subset_of(u.to_set()));
    vstd::seq_lib::seq_to_set_is_finite(u);
    vstd::set_lib::lemma_len_subset(v.to_set(), u.to_set());
}

/// Whether the list holds the string `s`.
fn holds(v: &Vec<String>, s: &str) -> (b: bool)
    ensures
        b == views(v@).contains(s@),
{
    let n: usize = v.len();
    for i in 0..n
        invariant
            n == v@.len(),
            forall|k: int| 0 <= k < i ==> #[trigger] v@[k]@ != s@,
    {
        if str_eq(v[i].as_str(), s) {
            proof {
                assert(views(v@)[i as int] == s@);
            }
            return true;
        }
    }
    proof {
        if views(v@).contains(s@) {
            let k = choose|k: int| 0 <= k < views(v@).len() && views(v@)[k] == s@;
            assert(v@[k]@ == s@);
        }
    }
    false
}

/// Appends `s` unless it is already present.
fn add_once(v: &mut Vec<String>, s: &str)
    ensures
        views(final(v)@).len() >= views(old(v)@).len(),
        forall|j: int| 0 <= j < old(v)@.len() ==> views(final(v)@)[j] == views(old(v)@)[j],
        forall|x: Seq<char>| views(final(v)@).contains(x) <==> (views(old(v)@).contains(x) || x == s@),
        views(old(v)@).no_duplicates() ==> views(final(v)@).no_duplicates(),
        views(final(v)@).contains(s@),
        views(final(v)@) == add_name(views(old(v)@), s@),
{
    let ghost before = views(v@);
    if !holds(v, s) {
        v.push(owned(s));
        proof {
            assert(views(v@) =~= before.push(s@));
            assert(views(v@)[before.len() as int] == s@);
            assert forall|x: Seq<char>| views(v@).contains(x) <==> (before.contains(x) || x == s@) by {
                if views(v@).contains(x) {
                    let z = choose|z: int| 0 <= z < views(v@).len() && views(v@)[z] == x;
                    if z < before.len() {
                        assert(before[z] == x);
                    }
                }
                if before.contains(x) {
                    let z = choose|z: int| 0 <= z < before.len() && before[z] == x;
                    assert(views(v@)[z] == x);
                }
            }
        }
    }
}

/// Adds what one state contributes when expanding `node`: along the
/// transitions, the targets of state `i` when it is named `node`; against
/// them, the name of state `i` when it has a transition to `node`.
fn expand(
    wf: &BlueprintWorkflow,
    fwd: bool,
    i: usize,
    node: &str,
    visited: &mut Vec<String>,
    Ghost(st): Ghost<Seq<Seq<char>>>,
    Ghost(u): Ghost<Seq<Seq<char>>>,
)
    requires
        i < wf.states@.len(),
        u == st + graph_names(wf.states@),
        reaches(*wf, fwd, st, node@),
        views(old(visited)@).no_duplicates(),
        forall|x: Seq<char>| #[trigger] views(old(visited)@).contains(x) ==> u.contains(x) && reaches(*wf, fwd, st, x),
    ensures
        views(final(visited)@).len() >= views(old(visited)@).len(),
        forall|j: int| 0 <= j < old(visited)@.len() ==> views(final(visited)@)[j] == views(old(visited)@)[j],
        views(final(visited)@).no_duplicates(),
        forall|x: Seq<char>| #[trigger] views(final(visited)@).contains(x) ==> u.contains(x) && reaches(*wf, fwd, st, x),
        forall|x: Seq<char>| views(old(visited)@).contains(x) ==> #[trigger] views(final(visited)@).contains(x),
        forall|m: Seq<char>| #[trigger] step_at(*wf, fwd, i as int, node@, m) ==> views(final(visited)@).contains(m),
{
    let entry = &wf.states[i];
    let ghost tv = state_targets(entry.1);
    let ghost v0 = views(visited@);
    let targets: Vec<&str> = match &entry.1.next {
        Some(nx) => nx.all_targets(),
        None => Vec::new(),
    };
    let m: usize = targets.len();
    if fwd {
        if !str_eq(entry.0.as_str(), node) {
            return;
        }
        for q in 0..m
            invariant
                m == targets@.len(),
                strs(targets@) == tv,
                tv == state_targets(wf.states@[i as int].1),
                wf.states@[i as int].0@ == node@,
                fwd,
                i < wf.states@.len(),
                u == st + graph_names(wf.states@),
                reaches(*wf, fwd, st, node@),
                views(visited@).len() >= v0.len(),
                forall|j: int| 0 <= j < v0.len() ==> views(visited@)[j] == v0[j],
                views(visited@).no_duplicates(),
                forall|x: Seq<char>| #[trigger] views(visited@).contains(x) ==> u.contains(x) && reaches(*wf, fwd, st, x),
                forall|x: Seq<char>| v0.contains(x) ==> #[trigger] views(visited@).contains(x),
                forall|p: int| 0 <= p < q ==> views(visited@).contains(#[trigger] tv[p]),
        {
            let t: &str = targets[q];
            proof {
                assert(tv[q as int] == t@);
                assert(tv.contains(t@));
                assert(edge_at(*wf, i as int, node@, t@));
                lemma_reaches_step(*wf, fwd, st, node@, i as int, t@);
                lemma_graph_names(wf.states@, i as int, t@);
                let g = graph_names(wf.states@);
                let z = choose|z: int| 0 <= z < g.len() && g[z] == t@;
                assert(u[st.len() + z] == t@);
            }
            add_once(visited, t);
        }
        proof {
            assert forall|m2: Seq<char>| #[trigger] step_at(*wf, fwd, i as int, node@, m2) implies views(visited@).contains(m2) by {
                let p = choose|p: int| 0 <= p < tv.len() && tv[p] == m2;
            }
        }
    } else {
        let mut found = false;
        for q in 0..m
            invariant
                m == targets@.len(),
                strs(targets@) == tv,
                found == (exists|p: int| 0 <= p < q && #[trigger] tv[p] == node@),
        {
            if str_eq(targets[q], node) {
                found = true;
            }
            proof {
                assert(tv[q as int] == targets@[q as int]@);
            }
        }
        if found {
            let ghost a = entry.0@;
            proof {
                let p = choose|p: int| 0 <= p < m && #[trigger] tv[p] == node@;
                assert(tv.contains(node@));
                assert(edge_at(*wf, i as int, a, node@));
                lemma_reaches_step(*wf, fwd, st, node@, i as int, a);
                lemma_graph_names(wf.states@, i as int, node@);
                let g = graph_names(wf.states@);
                let z = choose|z: int| 0 <= z < g.len() && g[z] == a;
                assert(u[st.len() + z] == a);
            }
            add_once(visited, entry.0.as_str());
            proof {
                assert forall|m2: Seq<char>| #[trigger] step_at(*wf, fwd, i as int, node@, m2) implies views(visited@).contains(m2) by {
                    assert(m2 == a);
                }
            }
        } else {
            proof {
                assert forall|m2: Seq<char>| #[trigger] step_at(*wf, fwd, i as int, node@, m2) implies false by {
                    let p = choose|p: int| 0 <= p < tv.len() && tv[p] == node@;
                }
            }
        }
    }
}

/// The names reachable from `starts`, each once: a breadth-first search
/// along the transitions (`fwd`) or against them.
pub fn reachable_from(wf: &BlueprintWorkflow, starts: &Vec<String>, fwd: bool) -> (r: Vec<String>)
    ensures
        views(r@).no_duplicates(),
        forall|n: Seq<char>| views(r@).contains(n) <==> reaches(*wf, fwd, views(starts@), n),
{
    let ghost st = views(starts@);
    let ghost u = st + graph_names(wf.states@);
    let mut visited: Vec<String> = Vec::new();
    let ns: usize = starts.len();
    for i in 0..ns
        invariant
            ns == starts@.len(),
            st == views(starts@),
            u == st + graph_names(wf.states@),
            views(visited@).no_duplicates(),
            forall|x: Seq<char>| #[trigger] views(visited@).contains(x) ==> u.contains(x) && reaches(*wf, fwd, st, x),
            forall|j: int| 0 <= j < i ==> views(visited@).contains(#[trigger] st[j]),
    {
        let ghost before = views(visited@);
        proof {
            assert(st[i as int] == starts@[i as int]@);
            assert(u[i as int] == st[i as int]);
            assert(st.contains(st[i as int]));
            lemma_reaches_start(*wf, fwd, st, st[i as int]);
        }
        add_once(&mut visited, starts[i].as_str());
        proof {
            assert forall|j: int| 0 <= j < i + 1 implies views(visited@).contains(#[trigger] st[j]) by {
                if j < i {
                    assert(before.contains(st[j]));
                }
            }
        }
    }
    proof {
        assert forall|x: Seq<char>| st.contains(x) implies views(visited@).contains(x) by {
            let j = choose|j: int| 0 <= j < st.len() && st[j] == x;
        }
        lemma_nodup_len(views(visited@), u);
    }
    let mut head: usize = 0;
    while head < visited.len()
        invariant
            st == views(starts@),
            u == st + graph_names(wf.states@),
            views(visited@).no_duplicates(),
            head <= visited@.len() <= u.len(),
            forall|x: Seq<char>| #[trigger] views(visited@).contains(x) ==> u.contains(x) && reaches(*wf, fwd, st, x),
            forall|x: Seq<char>| st.contains(x) ==> #[trigger] views(visited@).contains(x),
            forall|j: int, i: int, m: Seq<char>|
                0 <= j < head && #[trigger] step_at(*wf, fwd, i, views(visited@)[j], m) ==> views(visited@).contains(m),
        decreases u.len() - head,
    {
        let node = visited[head].clone();
        let ghost v0 = views(visited@);
        proof {
            assert(v0[head as int] == node@);
            assert(v0.contains(node@));
        }
        let n: usize = wf.states.len();
        for i in 0..n
            invariant
                n == wf.states@.len(),
                st == views(starts@),
                u == st + graph_names(wf.states@),
                reaches(*wf, fwd, st, node@),
                head < v0.len(),
                v0[head as int] == node@,
                views(visited@).len() >= v0.len(),
                forall|j: int| 0 <= j < v0.len() ==> views(visited@)[j] == v0[j],
                views(visited@).no_duplicates(),
                forall|x: Seq<char>| #[trigger] views(visited@).contains(x) ==> u.contains(x) && reaches(*wf, fwd, st, x),
                forall|x: Seq<char>| v0.contains(x) ==> #[trigger] views(visited@).contains(x),
                forall|i2: int, m: Seq<char>| 0 <= i2 < i && #[trigger] step_at(*wf, fwd, i2, node@, m) ==> views(visited@).contains(m),
        {
            let ghost before = views(visited@);
            expand(wf, fwd, i, node.as_str(), &mut visited, Ghost(st), Ghost(u));
            proof {
                assert forall|x: Seq<char>| v0.contains(x) implies #[trigger] views(visited@).contains(x) by {
                    assert(before.contains(x));
                }
                assert forall|i2: int, m: Seq<char>| 0 <= i2 < i + 1 && #[trigger] step_at(*wf, fwd, i2, node@, m) implies views(visited@).contains(m) by {
                    if i2 < i {
                        assert(before.contains(m));
                    }
                }
            }
        }
        proof {
            lemma_nodup_len(views(visited@), u);
            assert forall|j: int, i: int, m: Seq<char>|
                0 <= j < head + 1 && #[trigger] step_at(*wf, fwd, i, views(visited@)[j], m) implies views(visited@).contains(m) by {
                assert(views(visited@)[j] == v0[j]);
                if j == head {
                    assert(step_at(*wf, fwd, i, node@, m));
                    if !(0 <= i < n) {
                        assert(!edge_at(*wf, i, node@, m) && !edge_at(*wf, i, m, node@));
                    }
                } else {
                    assert(step_at(*wf, fwd, i, v0[j], m));
                    assert(v0.contains(m));
                }
            }
        }
        head = head + 1;
    }
    proof {
        assert forall|n: Seq<char>| reaches(*wf, fwd, st, n) implies views(visited@).contains(n) by {
            let p = choose|p: Seq<Seq<char>>| #[trigger] is_path(*wf, fwd, st, p) && p.last() == n;
            assert forall|x: Seq<char>, i: int, m: Seq<char>| views(visited@).contains(x) && #[trigger] step_at(*wf, fwd, i, x, m) implies views(visited@).contains(m) by {
                let j = choose|j: int| 0 <= j < views(visited@).len() && views(visited@)[j] == x;
            }
            lemma_closed_complete(*wf, fwd, st, views(visited@), p);
        }
    }
    visited
}

// ── Findings ─────────────────────────────────────────────────────────────────

/// Severity of an audit finding.
#[derive(Debug, Clone, Copy, PartialEq, Eq, Structural)]
pub enum AuditSeverity {
    Error,
    Warning,
}

/// A finding of the audit.
#[derive(Debug, Clone, PartialEq, Eq)]
pub struct AuditFinding {
    pub severity: AuditSeverity,
    /// The workflow or template that produced the finding.
    pub source: String,
    pub message: String,
    pub suggestion: Option<String>,
}

/// The value of a finding.
pub struct FindingView {
    pub severity: AuditSeverity,
    pub source: Seq<char>,
    pub message: Seq<char>,
    pub suggestion: Option<Seq<char>>,
}

impl View for AuditFinding {
    type V = FindingView;

    open spec fn view(&self) -> FindingView {
        FindingView {
            severity: self.severity,
            source: self.source@,
            message: self.message@,
            suggestion: os(self.suggestion),
        }
    }
}

pub open spec fn finding_views(s: Seq<AuditFinding>) -> Seq<FindingView> {
    s.map_values(|f: AuditFinding| f@)
}

pub open spec fn fv(severity: AuditSeverity, source: Seq<char>, message: Seq<char>, suggestion: Option<Seq<char>>) -> FindingView {
    FindingView { severity, source, message, suggestion }
}

fn finding(severity: AuditSeverity, source: &str, message: String, suggestion: Option<String>) -> (f: AuditFinding)
    ensures
        f@ == fv(severity, source@, message@, os(suggestion)),
{
    AuditFinding { severity, source: owned(source), message, suggestion }
}

/// Appends a finding.
fn report(findings: &mut Vec<AuditFinding>, f: AuditFinding)
    ensures
        finding_views(final(findings)@) == finding_views(old(findings)@).push(f@),
{
    let ghost before = findings@;
    findings.push(f);
    proof {
        assert(finding_views(findings@) =~= finding_views(before).push(f@));
    }
}

/// Aggregated results of the audit.
#[derive(Debug, Clone)]
pub struct StateMachineAudit {
    pub findings: Vec<AuditFinding>,
}

/// How many findings have the given severity.
pub open spec fn count_of(s: Seq<AuditFinding>, sev: AuditSeverity) -> nat
    decreases s.len(),
{
    if s.len() == 0 {
        0
    } else {
        count_of(s.drop_last(), sev) + if s.last().severity == sev { 1nat } else { 0nat }
    }
}

/// `[source] message` of each error finding, in order.
pub open spec fn error_lines(s: Seq<AuditFinding>) -> Seq<Seq<char>>
    decreases s.len(),
{
    if s.len() == 0 {
        Seq::empty()
    } else if s.last().severity == AuditSeverity::Error {
        error_lines(s.drop_last()).push("["@ + s.last().source@ + "] "@ + s.last().message@)
    } else {
        error_lines(s.drop_last())
    }
}

proof fn lemma_count_bound(s: Seq<AuditFinding>, sev: AuditSeverity)
    ensures
        count_of(s, sev) <= s.len(),
    decreases s.len(),
{
    if s.len() > 0 {
        lemma_count_bound(s.drop_last(), sev);
    }
}

/// Every finding is an error or a warning: the two counts add up to the
/// number of findings.
pub proof fn lemma_counts_partition(s: Seq<AuditFinding>)
    ensures
        count_of(s, AuditSeverity::Error) + count_of(s, AuditSeverity::Warning) == s.len(),
    decreases s.len(),
{
    if s.len() > 0 {
        lemma_counts_partition(s.drop_last());
    }
}

impl StateMachineAudit {
    fn count(&self, sev: AuditSeverity) -> (n: usize)
        ensures
            n == count_of(self.findings@, sev),
    {
        let mut c: usize = 0;
        let n: usize = self.findings.len();
        for i in 0..n
            invariant
                n == self.findings@.len(),
                c == count_of(self.findings@.take(i as int), sev),
        {
            proof {
                assert(self.findings@.take(i + 1).drop_last() =~= self.findings@.take(i as int));
                lemma_count_bound(self.findings@.take(i as int), sev);
            }
            if self.findings[i].severity == sev {
                c = c + 1;
            }
        }
        proof {
            assert(self.findings@.take(n as int) =~= self.findings@);
        }
        c
    }

    /// The number of error findings.
    pub fn error_count(&self) -> (n: usize)
        ensures
            n == count_of(self.findings@, AuditSeverity::Error),
    {
        self.count(AuditSeverity::Error)
    }

    /// The number of warning findings.
    pub fn warning_count(&self) -> (n: usize)
        ensures
            n == count_of(self.findings@, AuditSeverity::Warning),
    {
        self.count(AuditSeverity::Warning)
    }

    /// The error findings as `[source] message`, one per line.
    pub fn format_errors(&self) -> (r: String)
        ensures
            r@ == seq_join(error_lines(self.findings@), "\n"@),
    {
        let mut lines: Vec<String> = Vec::new();
        let n: usize = self.findings.len();
        for i in 0..n
            invariant
                n == self.findings@.len(),
                views(lines@) == error_lines(self.findings@.take(i as int)),
        {
            proof {
                assert(self.findings@.take(i + 1).drop_last() =~= self.findings@.take(i as int));
            }
            let f = &self.findings[i];
            if f.severity == AuditSeverity::Error {
                let ghost before = views(lines@);
                let mut l = String::from_str("[");
                l.append(f.source.as_str());
                l.append("] ");
                l.append(f.message.as_str());
                lines.push(l);
                proof {
                    assert(views(lines@) =~= before.push("["@ + f.source@ + "] "@ + f.message@));
                }
            }
        }
        proof {
            assert(self.findings@.take(n as int) =~= self.findings@);
        }
        crate::text::join(&lines, "\n")
    }
}

/// A GitHub Actions workflow file: its `name` and job keys.
#[derive(Debug, Clone)]
pub struct GhaWorkflow {
    pub name: Option<String>,
    pub jobs: Vec<String>,
}

// ── Rendering ────────────────────────────────────────────────────────────────

pub open spec fn severity_label(s: AuditSeverity) -> Seq<char> {
    match s {
        AuditSeverity::Error => "ERROR"@,
        AuditSeverity::Warning => "WARN"@,
    }
}

/// The lines of one finding.
pub open spec fn finding_lines(f: AuditFinding) -> Seq<Seq<char>> {
    let head = "  ["@ + severity_label(f.severity) + "] ["@ + f.source@ + "] "@ + f.message@;
    match f.suggestion {
        Some(s) => seq![head, "         suggestion: "@ + s@],
        None => seq![head],
    }
}

pub open spec fn all_finding_lines(s: Seq<AuditFinding>) -> Seq<Seq<char>>
    decreases s.len(),
{
    if s.len() == 0 {
        Seq::empty()
    } else {
        all_finding_lines(s.drop_last()) + finding_lines(s.last())
    }
}

/// The rendered audit.
pub open spec fn audit_text(s: Seq<AuditFinding>) -> Seq<char> {
    if s.len() == 0 {
        "State machine audit: all references valid"@
    } else {
        seq_join(
            seq![
                "State machine audit: "@ + crate::text::decimal(count_of(s, AuditSeverity::Error)) + " error(s), "@
                    + crate::text::decimal(count_of(s, AuditSeverity::Warning)) + " warning(s)"@,
            ] + all_finding_lines(s),
            "\n"@,
        )
    }
}

/// Renders the audit as a block of text: a summary line with the error and
/// warning counts, then each finding with its suggestion.
pub fn render_audit(audit: &StateMachineAudit) -> (r: String)
    ensures
        r@ == audit_text(audit.findings@),
{
    if audit.findings.len() == 0 {
        return owned("State machine audit: all references valid");
    }
    let mut head = String::from_str("State machine audit: ");
    let e = audit.error_count();
    let w = audit.warning_count();
    crate::text::push_decimal(&mut head, e as u64);
    head.append(" error(s), ");
    crate::text::push_decimal(&mut head, w as u64);
    head.append(" warning(s)");
    let mut lines: Vec<String> = Vec::new();
    lines.push(head);
    let fs = &audit.findings;
    let n: usize = fs.len();
    let ghost h = views(lines@)[0];
    for i in 0..n
        invariant
            n == fs@.len(),
            views(lines@) == seq![h] + all_finding_lines(fs@.take(i as int)),
    {
        proof {
            assert(fs@.take(i + 1).drop_last() =~= fs@.take(i as int));
            assert(fs@.take(i + 1).last() == fs@[i as int]);
        }
        let f = &fs[i];
        let ghost before = views(lines@);
        let label = match f.severity {
            AuditSeverity::Error => "ERROR",
            AuditSeverity::Warning => "WARN",
        };
        let mut l = String::from_str("  [");
        l.append(label);
        l.append("] [");
        l.append(f.source.as_str());
        l.append("] ");
        l.append(f.message.as_str());
        lines.push(l);
        match &f.suggestion {
            Some(sg) => {
                let mut l2 = String::from_str("         suggestion: ");
                l2.append(sg.as_str());
                lines.push(l2);
            },
            None => {},
        }
        proof {
            assert(views(lines@) =~= before + finding_lines(*f));
        }
    }
    proof {
        assert(fs@.take(n as int) =~= fs@);
    }
    crate::text::join(&lines, "\n")
}

// ── Reachability within a workflow ───────────────────────────────────────────

/// The state names, in order (with repeats).
pub open spec fn state_names(s: Seq<(String, StateConfig)>) -> Seq<Seq<char>> {
    s.map_values(|p: (String, StateConfig)| p.0@)
}

/// The names of the `kind: terminal` states, in order.
pub open spec fn terminal_names(s: Seq<(String, StateConfig)>) -> Seq<Seq<char>>
    decreases s.len(),
{
    if s.len() == 0 {
        Seq::empty()
    } else if s.last().1.kind == Some(StateKind::Terminal) {
        terminal_names(s.drop_last()).push(s.last().0@)
    } else {
        terminal_names(s.drop_last())
    }
}

/// Every target named by the states called `from`, in order.
pub open spec fn targets_of(s: Seq<(String, StateConfig)>, from: Seq<char>) -> Seq<Seq<char>>
    decreases s.len(),
{
    if s.len() == 0 {
        Seq::empty()
    } else if s.last().0@ == from {
        targets_of(s.drop_last(), from) + state_targets(s.last().1)
    } else {
        targets_of(s.drop_last(), from)
    }
}

pub open spec fn msg_unreachable(state: Seq<char>, init: Seq<char>) -> Seq<char> {
    "state '"@ + state + "' is not reachable from initial_state '"@ + init + "'"@
}

pub open spec fn msg_undeclared(from: Seq<char>, target: Seq<char>) -> Seq<char> {
    "state '"@ + from + "' transitions to '"@ + target + "' which is not declared in the states map"@
}

pub open spec fn msg_dead_branch(state: Seq<char>) -> Seq<char> {
    "state '"@ + state + "' cannot reach any terminal state (dead branch)"@
}

/// Findings for the names not reachable from the initial state.
pub open spec fn unreachable_findings(stem: Seq<char>, wf: BlueprintWorkflow, init: Seq<char>, names: Seq<Seq<char>>) -> Seq<FindingView>
    decreases names.len(),
{
    if names.len() == 0 {
        Seq::empty()
    } else {
        let prev = unreachable_findings(stem, wf, init, names.drop_last());
        let n = names.last();
        if !reaches(wf, true, seq![init], n) {
            prev.push(fv(AuditSeverity::Error, stem, msg_unreachable(n, init), Some("add a transition targeting this state or remove it"@)))
        } else {
            prev
        }
    }
}

/// Findings for the transitions of `from` to undeclared states.
pub open spec fn undeclared_for(stem: Seq<char>, from: Seq<char>, declared: Seq<Seq<char>>, targets: Seq<Seq<char>>) -> Seq<FindingView>
    decreases targets.len(),
{
    if targets.len() == 0 {
        Seq::empty()
    } else {
        let prev = undeclared_for(stem, from, declared, targets.drop_last());
        let t = targets.last();
        if !declared.contains(t) {
            prev.push(fv(AuditSeverity::Error, stem, msg_undeclared(from, t), Some("add '"@ + t + "' to the states section"@)))
        } else {
            prev
        }
    }
}

/// Findings for transitions to undeclared states, by state in name order
/// and target in name order.
pub open spec fn undeclared_findings(stem: Seq<char>, wf: BlueprintWorkflow, declared: Seq<Seq<char>>, names: Seq<Seq<char>>) -> Seq<FindingView>
    decreases names.len(),
{
    if names.len() == 0 {
        Seq::empty()
    } else {
        undeclared_findings(stem, wf, declared, names.drop_last()) + undeclared_for(
            stem,
            names.last(),
            declared,
            set_of(targets_of(wf.states@, names.last())),
        )
    }
}

/// Findings for reachable, non-terminal states that cannot reach a terminal
/// state.
pub open spec fn dead_findings(stem: Seq<char>, wf: BlueprintWorkflow, init: Seq<char>, names: Seq<Seq<char>>) -> Seq<FindingView>
    decreases names.len(),
{
    if names.len() == 0 {
        Seq::empty()
    } else {
        let prev = dead_findings(stem, wf, init, names.drop_last());
        let n = names.last();
        let terms = terminal_names(wf.states@);
        if !terms.contains(n) && !reaches(wf, false, terms, n) && reaches(wf, true, seq![init], n) {
            prev.push(fv(AuditSeverity::Error, stem, msg_dead_branch(n), Some("add a transition path from this state to a terminal state"@)))
        } else {
            prev
        }
    }
}

/// What the reachability audit of workflow `stem` reports.
pub open spec fn reachability_findings(stem: Seq<char>, wf: BlueprintWorkflow) -> Seq<FindingView> {
    match os(wf.initial_state) {
        None => Seq::empty(),
        Some(init) => if wf.states@.len() == 0 {
            Seq::empty()
        } else {
            let names = set_of(state_names(wf.states@));
            unreachable_findings(stem, wf, init, names) + undeclared_findings(stem, wf, names, names) + dead_findings(
                stem,
                wf,
                init,
                names,
            )
        },
    }
}

/// The state names of a workflow as an ordered set.
fn state_name_set(wf: &BlueprintWorkflow) -> (r: Vec<String>)
    ensures
        views(r@) == set_of(state_names(wf.states@)),
{
    let mut out: Vec<String> = Vec::new();
    let ghost all = state_names(wf.states@);
    let n: usize = wf.states.len();
    proof {
        lemma_set_of(all.take(0));
        assert(all.take(0) =~= Seq::<Seq<char>>::empty());
    }
    for i in 0..n
        invariant
            n == wf.states@.len(),
            all == state_names(wf.states@),
            views(out@) == set_of(all.take(i as int)),
            sorted_names(views(out@)),
    {
        proof {
            assert(all.take(i + 1).drop_last() =~= all.take(i as int));
            assert(all.take(i + 1).last() == wf.states@[i as int].0@);
        }
        insert_name(&mut out, wf.states[i].0.as_str());
    }
    proof {
        assert(all.take(n as int) =~= all);
    }
    out
}

/// The names of the terminal states, in order.
fn terminal_list(wf: &BlueprintWorkflow) -> (r: Vec<String>)
    ensures
        views(r@) == terminal_names(wf.states@),
{
    let mut out: Vec<String> = Vec::new();
    let n: usize = wf.states.len();
    for i in 0..n
        invariant
            n == wf.states@.len(),
            views(out@) == terminal_names(wf.states@.take(i as int)),
    {
        proof {
            assert(wf.states@.take(i + 1).drop_last() =~= wf.states@.take(i as int));
        }
        if matches!(wf.states[i].1.kind, Some(StateKind::Terminal)) {
            let ghost before = views(out@);
            out.push(wf.states[i].0.clone());
            proof {
                assert(views(out@) =~= before.push(wf.states@[i as int].0@));
            }
        }
    }
    proof {
        assert(wf.states@.take(n as int) =~= wf.states@);
    }
    out
}

/// The targets of the states named `from`, as an ordered set.
fn target_set(wf: &BlueprintWorkflow, from: &str) -> (r: Vec<String>)
    ensures
        views(r@) == set_of(targets_of(wf.states@, from@)),
{
    let mut out: Vec<String> = Vec::new();
    let n: usize = wf.states.len();
    proof {
        lemma_set_of(Seq::<Seq<char>>::empty());
        assert(targets_of(wf.states@.take(0), from@) =~= Seq::<Seq<char>>::empty());
    }
    for i in 0..n
        invariant
            n == wf.states@.len(),
            views(out@) == set_of(targets_of(wf.states@.take(i as int), from@)),
            sorted_names(views(out@)),
    {
        proof {
            assert(wf.states@.take(i + 1).drop_last() =~= wf.states@.take(i as int));
            assert(wf.states@.take(i + 1).last() == wf.states@[i as int]);
        }
        let e = &wf.states[i];
        if str_eq(e.0.as_str(), from) {
            let targets: Vec<&str> = match &e.1.next {
                Some(nx) => nx.all_targets(),
                None => Vec::new(),
            };
            let ghost prev = targets_of(wf.states@.take(i as int), from@);
            let ghost tv = state_targets(e.1);
            let m: usize = targets.len();
            for q in 0..m
                invariant
                    m == targets@.len(),
                    strs(targets@) == tv,
                    views(out@) == set_of(prev + tv.take(q as int)),
                    sorted_names(views(out@)),
            {
                proof {
                    assert((prev + tv.take(q + 1)).drop_last() =~= prev + tv.take(q as int));
                    assert((prev + tv.take(q + 1)).last() == targets@[q as int]@);
                }
                insert_name(&mut out, targets[q]);
            }
            proof {
                assert(tv.take(m as int) =~= tv);
            }
        }
    }
    proof {
        assert(wf.states@.take(n as int) =~= wf.states@);
    }
    out
}

/// Checks that every state of workflow `stem` is reachable from the initial
/// state, that every transition names a declared state, and that every
/// reachable non-terminal state can reach a terminal state.
pub fn audit_reachability(stem: &str, wf: &BlueprintWorkflow, findings: &mut Vec<AuditFinding>)
    ensures
        finding_views(final(findings)@) == finding_views(old(findings)@) + reachability_findings(stem@, *wf),
{
    let ghost f0 = finding_views(findings@);
    let init: &String = match &wf.initial_state {
        Some(s) => s,
        None => {
            proof {
                assert(f0 + Seq::<FindingView>::empty() =~= f0);
            }
            return;
        },
    };
    if wf.states.len() == 0 {
        proof {
            assert(f0 + Seq::<FindingView>::empty() =~= f0);
        }
        return;
    }
    let names = state_name_set(wf);
    let ghost nm = views(names@);
    let mut starts: Vec<String> = Vec::new();
    starts.push(init.clone());
    proof {
        assert(views(starts@) =~= seq![init@]);
    }
    let reachable = reachable_from(wf, &starts, true);
    let terms = terminal_list(wf);
    let alive = reachable_from(wf, &terms, false);
    let n: usize = names.len();
    // 1) states not reachable from the initial state
    for i in 0..n
        invariant
            n == names@.len(),
            nm == views(names@),
            forall|x: Seq<char>| views(reachable@).contains(x) <==> reaches(*wf, true, seq![init@], x),
            finding_views(findings@) == f0 + unreachable_findings(stem@, *wf, init@, nm.take(i as int)),
    {
        proof {
            assert(nm.take(i + 1).drop_last() =~= nm.take(i as int));
            assert(nm.take(i + 1).last() == names@[i as int]@);
        }
        let st = &names[i];
        if !holds(&reachable, st.as_str()) {
            let mut m = String::from_str("state '");
            m.append(st.as_str());
            m.append("' is not reachable from initial_state '");
            m.append(init.as_str());
            m.append("'");
            let ghost before = finding_views(findings@);
            report(findings, finding(AuditSeverity::Error, stem, m, Some(owned("add a transition targeting this state or remove it"))));
            proof {
                assert(before + seq![fv(AuditSeverity::Error, stem@, msg_unreachable(st@, init@), Some("add a transition targeting this state or remove it"@))] =~= f0 + unreachable_findings(stem@, *wf, init@, nm.take(i + 1)));
            }
        }
    }
    let ghost f1 = finding_views(findings@);
    proof {
        assert(nm.take(n as int) =~= nm);
        assert(nm.take(0) =~= Seq::<Seq<char>>::empty());
    }
    // 2) transitions to undeclared states
    for i in 0..n
        invariant
            n == names@.len(),
            nm == views(names@),
            finding_views(findings@) == f1 + undeclared_findings(stem@, *wf, nm, nm.take(i as int)),
    {
        proof {
            assert(nm.take(i + 1).drop_last() =~= nm.take(i as int));
            assert(nm.take(i + 1).last() == names@[i as int]@);
        }
        let from = &names[i];
        let targets = target_set(wf, from.as_str());
        let ghost tv = views(targets@);
        let ghost g0 = finding_views(findings@);
        let m: usize = targets.len();
        for q in 0..m
            invariant
                m == targets@.len(),
                tv == views(targets@),
                nm == views(names@),
                finding_views(findings@) == g0 + undeclared_for(stem@, from@, nm, tv.take(q as int)),
        {
            proof {
                assert(tv.take(q + 1).drop_last() =~= tv.take(q as int));
                assert(tv.take(q + 1).last() == targets@[q as int]@);
            }
            let t = &targets[q];
            if !holds(&names, t.as_str()) {
                let mut msg = String::from_str("state '");
                msg.append(from.as_str());
                msg.append("' transitions to '");
                msg.append(t.as_str());
                msg.append("' which is not declared in the states map");
                let mut sg = String::from_str("add '");
                sg.append(t.as_str());
                sg.append("' to the states section");
                let ghost before = finding_views(findings@);
                report(findings, finding(AuditSeverity::Error, stem, msg, Some(sg)));
                proof {
                    assert(before.push(fv(AuditSeverity::Error, stem@, msg_undeclared(from@, t@), Some("add '"@ + t@ + "' to the states section"@))) =~= g0 + undeclared_for(stem@, from@, nm, tv.take(q + 1)));
                }
            }
        }
        proof {
            assert(tv.take(m as int) =~= tv);
            assert(g0 + undeclared_for(stem@, from@, nm, tv) =~= f1 + undeclared_findings(stem@, *wf, nm, nm.take(i + 1)));
        }
    }
    let ghost f2 = finding_views(findings@);
    // 3) dead branches
    for i in 0..n
        invariant
            n == names@.len(),
            nm == views(names@),
            views(terms@) == terminal_names(wf.states@),
            forall|x: Seq<char>| views(reachable@).contains(x) <==> reaches(*wf, true, seq![init@], x),
            forall|x: Seq<char>| views(alive@).contains(x) <==> reaches(*wf, false, views(terms@), x),
            finding_views(findings@) == f2 + dead_findings(stem@, *wf, init@, nm.take(i as int)),
    {
        proof {
            assert(nm.take(i + 1).drop_last() =~= nm.take(i as int));
            assert(nm.take(i + 1).last() == names@[i as int]@);
        }
        let st = &names[i];
        if !holds(&terms, st.as_str()) && !holds(&alive, st.as_str()) && holds(&reachable, st.as_str()) {
            let mut m = String::from_str("state '");
            m.append(st.as_str());
            m.append("' cannot reach any terminal state (dead branch)");
            let ghost before = finding_views(findings@);
            report(findings, finding(AuditSeverity::Error, stem, m, Some(owned("add a transition path from this state to a terminal state"))));
            proof {
                assert(before.push(fv(AuditSeverity::Error, stem@, msg_dead_branch(st@), Some("add a transition path from this state to a terminal state"@))) =~= f2 + dead_findings(stem@, *wf, init@, nm.take(i + 1)));
            }
        }
    }
    proof {
        assert(nm.take(n as int) =~= nm);
        assert(f0 + reachability_findings(stem@, *wf) =~= finding_views(findings@));
    }
}

// ── Handoffs between workflows ───────────────────────────────────────────────

pub open spec fn msg_unhandled(parent_state: Seq<char>, sub: Seq<char>, terminal: Seq<char>) -> Seq<char> {
    "state '"@ + parent_state + "' delegates to '"@ + sub + "' but does not handle terminal state '"@ + terminal + "'"@
}

pub open spec fn msg_unmatched(parent_state: Seq<char>, sub: Seq<char>, event: Seq<char>) -> Seq<char> {
    "state '"@ + parent_state + "' handles event '"@ + event + "' from '"@ + sub + "' but '"@ + sub
        + "' has no terminal state named '"@ + event + "'"@
}

/// Warnings for sub-workflow terminals the parent does not handle.
pub open spec fn unhandled_findings(parent_wf: Seq<char>, parent_state: Seq<char>, sub: Seq<char>, terms: Seq<Seq<char>>, events: Seq<Seq<char>>) -> Seq<FindingView>
    decreases terms.len(),
{
    if terms.len() == 0 {
        Seq::empty()
    } else {
        let prev = unhandled_findings(parent_wf, parent_state, sub, terms.drop_last(), events);
        let t = terms.last();
        if !events.contains(t) {
            prev.push(fv(AuditSeverity::Warning, parent_wf, msg_unhandled(parent_state, sub, t), Some("add '"@ + t + "' to the next.on: map of state '"@ + parent_state + "'"@)))
        } else {
            prev
        }
    }
}

/// Errors for parent events that match no sub-workflow terminal.
pub open spec fn unmatched_findings(parent_wf: Seq<char>, parent_state: Seq<char>, sub: Seq<char>, events: Seq<Seq<char>>, terms: Seq<Seq<char>>) -> Seq<FindingView>
    decreases events.len(),
{
    if events.len() == 0 {
        Seq::empty()
    } else {
        let prev = unmatched_findings(parent_wf, parent_state, sub, events.drop_last(), terms);
        let e = events.last();
        if !terms.contains(e) {
            prev.push(fv(AuditSeverity::Error, parent_wf, msg_unmatched(parent_state, sub, e), None))
        } else {
            prev
        }
    }
}

/// The event keys of an optional transition spec.
pub open spec fn next_events(n: Option<NextSpec>) -> Seq<Seq<char>> {
    match n {
        Some(x) => spec_event_keys(spec_entries(x)),
        None => Seq::empty(),
    }
}

/// What checking the handoff from `parent_state` of `parent_wf` to the
/// sub-workflow `sub` reports: terminals not handled (warnings), then events
/// that match no terminal (errors), each in name order.
pub open spec fn handoff_findings(parent_wf: Seq<char>, parent_state: Seq<char>, sub: Seq<char>, parent_next: Option<NextSpec>, sw: BlueprintWorkflow) -> Seq<FindingView> {
    let terms = set_of(terminal_names(sw.states@));
    let events = set_of(next_events(parent_next));
    unhandled_findings(parent_wf, parent_state, sub, terms, events) + unmatched_findings(parent_wf, parent_state, sub, events, terms)
}

fn name_set_of(v: &Vec<&str>) -> (r: Vec<String>)
    ensures
        views(r@) == set_of(strs(v@)),
{
    let mut out: Vec<String> = Vec::new();
    let ghost all = strs(v@);
    let n: usize = v.len();
    proof {
        lemma_set_of(Seq::<Seq<char>>::empty());
        assert(all.take(0) =~= Seq::<Seq<char>>::empty());
    }
    for i in 0..n
        invariant
            n == v@.len(),
            all == strs(v@),
            views(out@) == set_of(all.take(i as int)),
            sorted_names(views(out@)),
    {
        proof {
            assert(all.take(i + 1).drop_last() =~= all.take(i as int));
            assert(all.take(i + 1).last() == v@[i as int]@);
        }
        insert_name(&mut out, v[i]);
    }
    proof {
        assert(all.take(n as int) =~= all);
    }
    out
}

/// Checks the handoff between a parent state and the sub-workflow it
/// delegates to: each terminal state of the sub-workflow should be an event
/// the parent handles, and each event the parent handles should be a
/// terminal state of the sub-workflow.
pub fn audit_workflow_handoff(
    parent_wf: &str,
    parent_state: &str,
    sub_wf_name: &str,
    parent_next: Option<&NextSpec>,
    sub_wf: &BlueprintWorkflow,
    findings: &mut Vec<AuditFinding>,
)
    ensures
        finding_views(final(findings)@) == finding_views(old(findings)@) + handoff_findings(
            parent_wf@,
            parent_state@,
            sub_wf_name@,
            match parent_next {
                Some(n) => Some(*n),
                None => None,
            },
            *sub_wf,
        ),
{
    let ghost f0 = finding_views(findings@);
    let ghost pn: Option<NextSpec> = match parent_next {
        Some(n) => Some(*n),
        None => None,
    };
    let terms_list = terminal_list(sub_wf);
    let mut terms: Vec<String> = Vec::new();
    let nt: usize = terms_list.len();
    let ghost tl = views(terms_list@);
    proof {
        lemma_set_of(Seq::<Seq<char>>::empty());
        assert(tl.take(0) =~= Seq::<Seq<char>>::empty());
    }
    for i in 0..nt
        invariant
            nt == terms_list@.len(),
            tl == views(terms_list@),
            views(terms@) == set_of(tl.take(i as int)),
            sorted_names(views(terms@)),
    {
        proof {
            assert(tl.take(i + 1).drop_last() =~= tl.take(i as int));
            assert(tl.take(i + 1).last() == terms_list@[i as int]@);
        }
        insert_name(&mut terms, terms_list[i].as_str());
    }
    proof {
        assert(tl.take(nt as int) =~= tl);
    }
    let keys: Vec<&str> = match parent_next {
        Some(n) => n.all_event_keys(),
        None => Vec::new(),
    };
    proof {
        assert(strs(keys@) == next_events(pn));
    }
    let events = name_set_of(&keys);
    let ghost tv = views(terms@);
    let ghost ev = views(events@);
    let m: usize = terms.len();
    for i in 0..m
        invariant
            m == terms@.len(),
            tv == views(terms@),
            ev == views(events@),
            finding_views(findings@) == f0 + unhandled_findings(parent_wf@, parent_state@, sub_wf_name@, tv.take(i as int), ev),
    {
        proof {
            assert(tv.take(i + 1).drop_last() =~= tv.take(i as int));
            assert(tv.take(i + 1).last() == terms@[i as int]@);
        }
        let t = &terms[i];
        if !holds(&events, t.as_str()) {
            let mut msg = String::from_str("state '");
            msg.append(parent_state);
            msg.append("' delegates to '");
            msg.append(sub_wf_name);
            msg.append("' but does not handle terminal state '");
            msg.append(t.as_str());
            msg.append("'");
            let mut sg = String::from_str("add '");
            sg.append(t.as_str());
            sg.append("' to the next.on: map of state '");
            sg.append(parent_state);
            sg.append("'");
            let ghost before = finding_views(findings@);
            report(findings, finding(AuditSeverity::Warning, parent_wf, msg, Some(sg)));
            proof {
                assert(before.push(fv(AuditSeverity::Warning, parent_wf@, msg_unhandled(parent_state@, sub_wf_name@, t@), Some("add '"@ + t@ + "' to the next.on: map of state '"@ + parent_state@ + "'"@))) =~= f0 + unhandled_findings(parent_wf@, parent_state@, sub_wf_name@, tv.take(i + 1), ev));
            }
        }
    }
    proof {
        assert(tv.take(m as int) =~= tv);
    }
    let ghost f1 = finding_views(findings@);
    let k: usize = events.len();
    for i in 0..k
        invariant
            k == events@.len(),
            tv == views(terms@),
            ev == views(events@),
            finding_views(findings@) == f1 + unmatched_findings(parent_wf@, parent_state@, sub_wf_name@, ev.take(i as int), tv),
    {
        proof {
            assert(ev.take(i + 1).drop_last() =~= ev.take(i as int));
            assert(ev.take(i + 1).last() == events@[i as int]@);
        }
        let e = &events[i];
        if !holds(&terms, e.as_str()) {
            let mut msg = String::from_str("state '");
            msg.append(parent_state);
            msg.append("' handles event '");
            msg.append(e.as_str());
            msg.append("' from '");
            msg.append(sub_wf_name);
            msg.append("' but '");
            msg.append(sub_wf_name);
            msg.append("' has no terminal state named '");
            msg.append(e.as_str());
            msg.append("'");
            let ghost before = finding_views(findings@);
            report(findings, finding(AuditSeverity::Error, parent_wf, msg, None));
            proof {
                assert(before.push(fv(AuditSeverity::Error, parent_wf@, msg_unmatched(parent_state@, sub_wf_name@, e@), None)) =~= f1 + unmatched_findings(parent_wf@, parent_state@, sub_wf_name@, ev.take(i + 1), tv));
            }
        }
    }
    proof {
        assert(ev.take(k as int) =~= ev);
        assert(f0 + handoff_findings(parent_wf@, parent_state@, sub_wf_name@, pn, *sub_wf) =~= finding_views(findings@));
    }
}

// ── The graph of workflows ───────────────────────────────────────────────────

/// `v` with `x` appended unless present.
pub open spec fn add_name(v: Seq<Seq<char>>, x: Seq<char>) -> Seq<Seq<char>> {
    if v.contains(x) {
        v
    } else {
        v.push(x)
    }
}

/// The names of `s`, each once, in order of first occurrence.
pub open spec fn dedup(s: Seq<Seq<char>>) -> Seq<Seq<char>>
    decreases s.len(),
{
    if s.len() == 0 {
        Seq::empty()
    } else {
        add_name(dedup(s.drop_last()), s.last())
    }
}

pub open spec fn msg_missing_ref(state: Seq<char>, sub: Seq<char>) -> Seq<char> {
    "state '"@ + state + "' references workflow '"@ + sub + "' which is not in the embedded workflow library"@
}

/// Visiting the states of workflow `name`: each `kind: workflow` state
/// either references a missing workflow (an error) or has its handoff
/// checked and its sub-workflow queued.
pub open spec fn visit_states(ws: Seq<(String, BlueprintWorkflow)>, name: Seq<char>, s: Seq<(String, StateConfig)>, v: Seq<Seq<char>>) -> (Seq<FindingView>, Seq<Seq<char>>)
    decreases s.len(),
{
    if s.len() == 0 {
        (Seq::empty(), v)
    } else {
        let prev = visit_states(ws, name, s.drop_last(), v);
        let st = s.last().0@;
        let c = s.last().1;
        if c.kind == Some(StateKind::Workflow) {
            match os(c.workflow) {
                Some(sub) => match reg_get(ws, sub) {
                    None => (prev.0.push(fv(AuditSeverity::Error, name, msg_missing_ref(st, sub), None)), prev.1),
                    Some(sw) => (prev.0 + handoff_findings(name, st, sub, c.next, sw), add_name(prev.1, sub)),
                },
                None => prev,
            }
        } else {
            prev
        }
    }
}

/// The breadth-first walk over the queue `v` from position `head`: the
/// findings of each visited workflow in queue order, and the final queue.
pub open spec fn walk(ws: Seq<(String, BlueprintWorkflow)>, v: Seq<Seq<char>>, head: int, fuel: nat) -> (Seq<FindingView>, Seq<Seq<char>>)
    decreases fuel,
{
    if fuel == 0 || head < 0 || head >= v.len() {
        (Seq::empty(), v)
    } else {
        let name = v[head];
        match reg_get(ws, name) {
            None => walk(ws, v, head + 1, (fuel - 1) as nat),
            Some(w) => {
                let r = visit_states(ws, name, w.states@, v);
                let rest = walk(ws, r.1, head + 1, (fuel - 1) as nat);
                (reachability_findings(name, w) + r.0 + rest.0, rest.1)
            },
        }
    }
}

pub open spec fn msg_orphan(name: Seq<char>) -> Seq<char> {
    "workflow '"@ + name + "' is not reachable from any entry point"@
}

/// Warnings for the workflows (in name order) the walk never reached.
pub open spec fn orphan_findings(names: Seq<Seq<char>>, visited: Seq<Seq<char>>) -> Seq<FindingView>
    decreases names.len(),
{
    if names.len() == 0 {
        Seq::empty()
    } else {
        let prev = orphan_findings(names.drop_last(), visited);
        let n = names.last();
        if !visited.contains(n) {
            prev.push(fv(AuditSeverity::Warning, n, msg_orphan(n), Some("add a kind: workflow reference from a reachable workflow, or remove it"@)))
        } else {
            prev
        }
    }
}

pub open spec fn ws_names(ws: Seq<(String, BlueprintWorkflow)>) -> Seq<Seq<char>> {
    ws.map_values(|p: (String, BlueprintWorkflow)| p.0@)
}

/// What the walk from `roots` over the workflows `ws` reports.
pub open spec fn graph_findings(ws: Seq<(String, BlueprintWorkflow)>, roots: Seq<Seq<char>>) -> Seq<FindingView> {
    let r = walk(ws, dedup(roots), 0, roots.len() + ws.len() + 1);
    r.0 + orphan_findings(ws_names(ws), r.1)
}

proof fn lemma_get_in_names(ws: Seq<(String, BlueprintWorkflow)>, n: Seq<char>)
    requires
        get_of(ws, n) is Some,
    ensures
        ws_names(ws).contains(n),
{
    let i = choose|i: int| 0 <= i < ws.len() && #[trigger] ws[i].0@ == n;
    assert(ws_names(ws)[i] == n);
}

/// Walks the workflow graph from `roots`, following `kind: workflow`
/// references breadth-first: each reached workflow gets the reachability
/// audit, each delegation gets the handoff check (or an error when the
/// referenced workflow is missing); then every workflow never reached is
/// reported as an orphan.
pub fn audit_workflow_graph(roots: &Vec<String>, registry: &WorkflowRegistry, findings: &mut Vec<AuditFinding>)
    ensures
        finding_views(final(findings)@) == finding_views(old(findings)@) + graph_findings(registry.entries(), views(roots@)),
{
    let ghost ws = registry.entries();
    let ghost rs = views(roots@);
    let ghost fuel: nat = rs.len() + ws.len() + 1;
    let ghost u = rs + ws_names(ws);
    let ghost f0 = finding_views(findings@);
    let mut visited: Vec<String> = Vec::new();
    let nr: usize = roots.len();
    for i in 0..nr
        invariant
            nr == roots@.len(),
            rs == views(roots@),
            u == rs + ws_names(ws),
            views(visited@) == dedup(rs.take(i as int)),
            views(visited@).no_duplicates(),
            forall|x: Seq<char>| #[trigger] views(visited@).contains(x) ==> u.contains(x),
    {
        proof {
            assert(rs.take(i + 1).drop_last() =~= rs.take(i as int));
            assert(rs.take(i + 1).last() == roots@[i as int]@);
            assert(u[i as int] == rs[i as int]);
        }
        add_once(&mut visited, roots[i].as_str());
    }
    proof {
        assert(rs.take(nr as int) =~= rs);
        lemma_nodup_len(views(visited@), u);
    }
    let ghost v0 = views(visited@);
    let mut head: usize = 0;
    while head < visited.len()
        invariant
            ws == registry.entries(),
            u == rs + ws_names(ws),
            fuel == rs.len() + ws.len() + 1,
            head <= visited@.len() <= u.len(),
            views(visited@).no_duplicates(),
            forall|x: Seq<char>| #[trigger] views(visited@).contains(x) ==> u.contains(x),
            walk(ws, v0, 0, fuel).0 == finding_views(findings@).subrange(f0.len() as int, finding_views(findings@).len() as int)
                + walk(ws, views(visited@), head as int, (fuel - head) as nat).0,
            walk(ws, v0, 0, fuel).1 == walk(ws, views(visited@), head as int, (fuel - head) as nat).1,
            finding_views(findings@).len() >= f0.len(),
            finding_views(findings@).subrange(0, f0.len() as int) == f0,
        decreases u.len() - head,
    {
        let ghost vh = views(visited@);
        let ghost fh = finding_views(findings@);
        let ghost k: nat = (fuel - head) as nat;
        let name = visited[head].clone();
        proof {
            assert(vh[head as int] == name@);
        }
        match registry.get(name.as_str()) {
            None => {
                proof {
                    assert(finding_views(findings@).subrange(fh.len() as int, fh.len() as int) =~= Seq::<FindingView>::empty());
                    assert(finding_views(findings@).subrange(0, fh.len() as int) =~= fh);
                }
            },
            Some(wf) => {
                audit_reachability(name.as_str(), wf, findings);
                let ghost fr = finding_views(findings@);
                proof {
                    assert(fr.subrange(0, fr.len() as int) =~= fr);
                    assert(fr.subrange(fr.len() as int, fr.len() as int) =~= Seq::<FindingView>::empty());
                }
                let n: usize = wf.states.len();
                proof {
                    assert(wf.states@.take(0) =~= Seq::<(String, StateConfig)>::empty());
                }
                for i in 0..n
                    invariant
                        n == wf.states@.len(),
                        ws == registry.entries(),
                        u == rs + ws_names(ws),
                        views(visited@).no_duplicates(),
                        views(visited@).len() >= vh.len(),
                        forall|x: Seq<char>| #[trigger] views(visited@).contains(x) ==> u.contains(x),
                        finding_views(findings@).len() >= fr.len(),
                        finding_views(findings@).subrange(0, fr.len() as int) == fr,
                        visit_states(ws, name@, wf.states@.take(i as int), vh) == (
                            finding_views(findings@).subrange(fr.len() as int, finding_views(findings@).len() as int),
                            views(visited@),
                        ),
                {
                    proof {
                        assert(wf.states@.take(i + 1).drop_last() =~= wf.states@.take(i as int));
                        assert(wf.states@.take(i + 1).last() == wf.states@[i as int]);
                    }
                    let ghost fb = finding_views(findings@);
                    let ghost vb = views(visited@);
                    let (state_name, cfg) = (&wf.states[i].0, &wf.states[i].1);
                    if matches!(cfg.kind, Some(StateKind::Workflow)) {
                        match &cfg.workflow {
                            Some(sub) => {
                                match registry.get(sub.as_str()) {
                                    None => {
                                        let mut msg = String::from_str("state '");
                                        msg.append(state_name.as_str());
                                        msg.append("' references workflow '");
                                        msg.append(sub.as_str());
                                        msg.append("' which is not in the embedded workflow library");
                                        report(findings, finding(AuditSeverity::Error, name.as_str(), msg, None));
                                        proof {
                                            assert(finding_views(findings@).subrange(0, fr.len() as int) =~= fr);
                                            assert(finding_views(findings@).subrange(fr.len() as int, finding_views(findings@).len() as int)
                                                =~= fb.subrange(fr.len() as int, fb.len() as int).push(fv(AuditSeverity::Error, name@, msg_missing_ref(state_name@, sub@), None)));
                                        }
                                    },
                                    Some(sw) => {
                                        let pn: Option<&NextSpec> = match &cfg.next {
                                            Some(x) => Some(x),
                                            None => None,
                                        };
                                        audit_workflow_handoff(name.as_str(), state_name.as_str(), sub.as_str(), pn, sw, findings);
                                        proof {
                                            lemma_get_in_names(ws, sub@);
                                            let q = choose|q: int| 0 <= q < ws_names(ws).len() && ws_names(ws)[q] == sub@;
                                            assert(u[rs.len() + q] == sub@);
                                        }
                                        add_once(&mut visited, sub.as_str());
                                        proof {
                                            assert(finding_views(findings@).subrange(0, fr.len() as int) =~= fr);
                                            assert(finding_views(findings@).subrange(fr.len() as int, finding_views(findings@).len() as int)
                                                =~= fb.subrange(fr.len() as int, fb.len() as int) + handoff_findings(name@, state_name@, sub@, cfg.next, *sw));
                                        }
                                    },
                                }
                            },
                            None => {},
                        }
                    }
                }
                proof {
                    assert(wf.states@.take(n as int) =~= wf.states@);
                    let fnow = finding_views(findings@);
                    let rf = reachability_findings(name@, *wf);
                    assert(fr =~= fh + rf);
                    assert(fnow.subrange(0, fh.len() as int) =~= fh) by {
                        assert(fnow.subrange(0, fh.len() as int) =~= fnow.subrange(0, fr.len() as int).subrange(0, fh.len() as int));
                    }
                    assert(fnow.subrange(fh.len() as int, fnow.len() as int) =~= rf + fnow.subrange(fr.len() as int, fnow.len() as int)) by {
                        assert(fnow.subrange(fh.len() as int, fr.len() as int) =~= fnow.subrange(0, fr.len() as int).subrange(fh.len() as int, fr.len() as int));
                    }
                }
            },
        }
        proof {
            lemma_nodup_len(views(visited@), u);
            assert(views(visited@).len() == visited@.len());
            assert(visited@.len() >= vh.len());
            let fnow = finding_views(findings@);
            assert(k > 0);
            assert(fnow.subrange(0, f0.len() as int) =~= f0) by {
                assert(fnow.subrange(0, f0.len() as int) =~= fnow.subrange(0, fh.len() as int).subrange(0, f0.len() as int));
            }
            assert(fnow.subrange(f0.len() as int, fnow.len() as int) =~= fh.subrange(f0.len() as int, fh.len() as int)
                + fnow.subrange(fh.len() as int, fnow.len() as int)) by {
                assert(fnow.subrange(f0.len() as int, fh.len() as int) =~= fnow.subrange(0, fh.len() as int).subrange(f0.len() as int, fh.len() as int));
            }
        }
        head = head + 1;
    }
    proof {
        assert(walk(ws, views(visited@), head as int, (fuel - head) as nat) == (Seq::<FindingView>::empty(), views(visited@)));
    }
    let ghost vfinal = views(visited@);
    let ghost f3 = finding_views(findings@);
    let names = registry.names();
    let nn: usize = names.len();
    let ghost wn = ws_names(ws);
    proof {
        assert(strs(names@) =~= wn);
    }
    for i in 0..nn
        invariant
            nn == names@.len(),
            strs(names@) == wn,
            vfinal == views(visited@),
            finding_views(findings@) == f3 + orphan_findings(wn.take(i as int), vfinal),
    {
        proof {
            assert(wn.take(i + 1).drop_last() =~= wn.take(i as int));
            assert(wn.take(i + 1).last() == names@[i as int]@);
        }
        let n = names[i];
        if !holds(&visited, n) {
            let mut msg = String::from_str("workflow '");
            msg.append(n);
            msg.append("' is not reachable from any entry point");
            let ghost before = finding_views(findings@);
            report(findings, finding(AuditSeverity::Warning, n, msg, Some(owned("add a kind: workflow reference from a reachable workflow, or remove it"))));
            proof {
                assert(before.push(fv(AuditSeverity::Warning, n@, msg_orphan(n@), Some("add a kind: workflow reference from a reachable workflow, or remove it"@))) =~= f3 + orphan_findings(wn.take(i + 1), vfinal));
            }
        }
    }
    proof {
        assert(wn.take(nn as int) =~= wn);
        assert(f3 =~= f0 + walk(ws, v0, 0, fuel).0);
        assert(finding_views(findings@) =~= f0 + graph_findings(ws, rs));
    }
}

/// The entry points among the first `k` workflows, in name order: those
/// not used as sub-workflows, and those with a `schedule` or `trigger`.
pub open spec fn roots_of(ws: Seq<(String, BlueprintWorkflow)>, k: int) -> Seq<Seq<char>>
    decreases k,
{
    if k <= 0 {
        Seq::empty()
    } else {
        let prev = roots_of(ws, k - 1);
        let p = ws[k - 1];
        if !is_sub_workflow(ws, p.0@) || p.1.schedule is Some || p.1.trigger is Some {
            prev.push(p.0@)
        } else {
            prev
        }
    }
}

/// The names of the top-level workflows: those not only used as
/// sub-workflows, or that carry a `schedule` or `trigger` block.
pub fn entry_point_roots(registry: &WorkflowRegistry) -> (r: Vec<String>)
    ensures
        views(r@) == roots_of(registry.entries(), registry.entries().len() as int),
{
    let ghost ws = registry.entries();
    let subs = registry.sub_workflow_names();
    let mut out: Vec<String> = Vec::new();
    let n: usize = registry.len();
    for i in 0..n
        invariant
            n == ws.len(),
            ws == registry.entries(),
            forall|x: Seq<char>| views(subs@).contains(x) <==> is_sub_workflow(ws, x),
            views(out@) == roots_of(ws, i as int),
    {
        let e = registry.entry(i);
        if !holds(&subs, e.0.as_str()) || e.1.schedule.is_some() || e.1.trigger.is_some() {
            let ghost before = views(out@);
            out.push(e.0.clone());
            proof {
                assert(views(out@) =~= before.push(e.0@));
            }
        }
    }
    out
}

pub open spec fn msg_template(e: Seq<char>) -> Seq<char> {
    "embedded template failed to load: "@ + e
}

/// The structural audit of a set of workflows: the findings of loading
/// them, the walk from every entry point, and a failure to load the default
/// template set.
pub open spec fn structural_findings(load: Seq<AuditFinding>, ws: Seq<(String, BlueprintWorkflow)>, template_error: Option<Seq<char>>) -> Seq<FindingView> {
    finding_views(load) + graph_findings(ws, roots_of(ws, ws.len() as int)) + match template_error {
        Some(e) => seq![fv(AuditSeverity::Error, "default-template"@, msg_template(e), None)],
        None => Seq::empty(),
    }
}

/// The structural audit: no file system access.  `load_findings` holds what
/// loading the workflows reported; `template_error` is the error of loading
/// the default template set, if any.
pub fn run_structural_audit(registry: &WorkflowRegistry, load_findings: Vec<AuditFinding>, template_error: Option<String>) -> (r: StateMachineAudit)
    ensures
        finding_views(r.findings@) == structural_findings(load_findings@, registry.entries(), os(template_error)),
{
    let mut findings = load_findings;
    let roots = entry_point_roots(registry);
    audit_workflow_graph(&roots, registry, &mut findings);
    match template_error {
        Some(e) => {
            let mut m = String::from_str("embedded template failed to load: ");
            m.append(e.as_str());
            report(&mut findings, finding(AuditSeverity::Error, "default-template", m, None));
        },
        None => {},
    }
    StateMachineAudit { findings }
}

// ── File-name suggestions ────────────────────────────────────────────────────

/// `s` with every trailing copy of `p` removed (`trim_end_matches`).
pub open spec fn trim_suffix(s: Seq<char>, p: Seq<char>) -> Seq<char>
    decreases s.len(),
{
    if p.len() > 0 && p.len() <= s.len() && s.subrange(s.len() - p.len(), s.len() as int) == p {
        trim_suffix(s.subrange(0, s.len() - p.len()), p)
    } else {
        s
    }
}

pub fn trim_end(v: &Vec<char>, p: &str) -> (r: usize)
    ensures
        r <= v@.len(),
        v@.subrange(0, r as int) == trim_suffix(v@, p@),
{
    let pv = crate::text::chars_of(p);
    let m: usize = pv.len();
    let mut end: usize = v.len();
    proof {
        assert(v@.subrange(0, end as int) =~= v@);
    }
    while m > 0 && m <= end && crate::text::has_at(v, end - m, &pv)
        invariant
            pv@ == p@,
            m == pv@.len(),
            end <= v@.len(),
            trim_suffix(v@.subrange(0, end as int), p@) == trim_suffix(v@, p@),
        decreases end,
    {
        proof {
            let s = v@.subrange(0, end as int);
            assert(s.subrange(s.len() - m, s.len() as int) =~= v@.subrange(end - m, end as int));
            assert(s.subrange(0, s.len() - m) =~= v@.subrange(0, end - m));
        }
        end = end - m;
    }
    proof {
        let s = v@.subrange(0, end as int);
        if m > 0 && m <= end {
            assert(s.subrange(s.len() - m, s.len() as int) =~= v@.subrange(end - m, end as int));
        }
    }
    end
}

/// The part after the last `/` (the whole string when there is none).
pub open spec fn after_last_slash(s: Seq<char>) -> Seq<char>
    decreases s.len(),
{
    if s.len() == 0 {
        s
    } else if s.last() == '/' {
        Seq::empty()
    } else {
        after_last_slash(s.drop_last()).push(s.last())
    }
}

/// The base name of a workflow path: after the last `/`, without trailing
/// `.yml` and then `.yaml`.
pub open spec fn base_name(s: Seq<char>) -> Seq<char> {
    trim_suffix(trim_suffix(after_last_slash(s), ".yml"@), ".yaml"@)
}

/// A file name without trailing `.yml` and then `.yaml`.
pub open spec fn stem_of(s: Seq<char>) -> Seq<char> {
    trim_suffix(trim_suffix(s, ".yml"@), ".yaml"@)
}

fn last_segment(v: &Vec<char>) -> (r: Vec<char>)
    ensures
        r@ == after_last_slash(v@),
{
    let n: usize = v.len();
    let mut start: usize = 0;
    for i in 0..n
        invariant
            n == v@.len(),
            start <= i,
            v@.subrange(start as int, i as int) == after_last_slash(v@.take(i as int)),
    {
        proof {
            assert(v@.take(i + 1).drop_last() =~= v@.take(i as int));
            assert(v@.take(i + 1).last() == v@[i as int]);
        }
        if v[i] == '/' {
            start = i + 1;
            proof {
                assert(v@.subrange(start as int, i + 1) =~= Seq::<char>::empty());
            }
        } else {
            proof {
                assert(v@.subrange(start as int, i + 1) =~= v@.subrange(start as int, i as int).push(v@[i as int]));
            }
        }
    }
    proof {
        assert(v@.take(n as int) =~= v@);
    }
    let mut out: Vec<char> = Vec::new();
    for j in start..n
        invariant
            start <= n == v@.len(),
            out@ == v@.subrange(start as int, j as int),
    {
        out.push(v[j]);
        proof {
            assert(v@.subrange(start as int, j + 1) =~= v@.subrange(start as int, j as int).push(v@[j as int]));
        }
    }
    out
}

pub(crate) fn trimmed(v: Vec<char>) -> (r: Vec<char>)
    ensures
        r@ == stem_of(v@),
{
    let a = trim_end(&v, ".yml");
    let mut w: Vec<char> = Vec::new();
    for j in 0..a
        invariant
            a <= v@.len(),
            w@ == v@.subrange(0, j as int),
    {
        w.push(v[j]);
        proof {
            assert(v@.subrange(0, j + 1) =~= v@.subrange(0, j as int).push(v@[j as int]));
        }
    }
    let b = trim_end(&w, ".yaml");
    let mut out: Vec<char> = Vec::new();
    for j in 0..b
        invariant
            b <= w@.len(),
            out@ == w@.subrange(0, j as int),
    {
        out.push(w[j]);
        proof {
            assert(w@.subrange(0, j + 1) =~= w@.subrange(0, j as int).push(w@[j as int]));
        }
    }
    out
}

/// How many distinct characters the two strings have in common.
pub open spec fn common_chars(a: Seq<char>, b: Seq<char>) -> nat {
    a.to_set().intersect(b.to_set()).len()
}

/// The number of distinct characters `a` and `b` have in common.
pub fn common_char_count(a: &Vec<char>, b: &Vec<char>) -> (n: usize)
    ensures
        n == common_chars(a@, b@),
{
    let mut seen: Vec<char> = Vec::new();
    let n: usize = a.len();
    for i in 0..n
        invariant
            n == a@.len(),
            seen@.no_duplicates(),
            seen@.len() <= i,
            seen@.to_set() =~= a@.take(i as int).to_set().intersect(b@.to_set()),
    {
        let c = a[i];
        let ghost ti = a@.take(i as int);
        let ghost tn = a@.take(i + 1);
        let mut in_b = false;
        let mut in_seen = false;
        let m: usize = b.len();
        for j in 0..m
            invariant
                m == b@.len(),
                in_b == (exists|k: int| 0 <= k < j && b@[k] == c),
        {
            if b[j] == c {
                in_b = true;
            }
        }
        let s: usize = seen.len();
        for j in 0..s
            invariant
                s == seen@.len(),
                in_seen == (exists|k: int| 0 <= k < j && seen@[k] == c),
        {
            if seen[j] == c {
                in_seen = true;
            }
        }
        let ghost before = seen@;
        proof {
            assert(a@.take(i + 1) =~= a@.take(i as int).push(c));
            assert(in_b == b@.contains(c));
            assert(in_seen == before.contains(c));
        }
        if in_b && !in_seen {
            seen.push(c);
        }
        proof {
            assert(seen@.to_set() =~= a@.take(i + 1).to_set().intersect(b@.to_set())) by {
                assert forall|x: char| seen@.to_set().contains(x) <==> a@.take(i + 1).to_set().intersect(b@.to_set()).contains(x) by {
                    if seen@.contains(x) {
                        let q = choose|q: int| 0 <= q < seen@.len() && seen@[q] == x;
                        if q < before.len() {
                            assert(before.contains(x));
                            assert(before.to_set().contains(x));
                            assert(a@.take(i as int).to_set().contains(x));
                            let w = choose|w: int| 0 <= w < ti.len() && ti[w] == x;
                            assert(tn[w] == x);
                        } else {
                            assert(tn[i as int] == x);
                        }
                    }
                    if a@.take(i + 1).contains(x) && b@.contains(x) {
                        let w = choose|w: int| 0 <= w < tn.len() && tn[w] == x;
                        if w < i {
                            assert(ti[w] == x);
                            assert(a@.take(i as int).to_set().contains(x));
                            assert(before.to_set().contains(x));
                            let q = choose|q: int| 0 <= q < before.len() && before[q] == x;
                            assert(seen@[q] == x);
                        } else {
                            if !before.contains(x) {
                                assert(seen@[before.len() as int] == x);
                            } else {
                                let q = choose|q: int| 0 <= q < before.len() && before[q] == x;
                                assert(seen@[q] == x);
                            }
                        }
                    }
                }
            }
        }
    }
    proof {
        assert(a@.take(n as int) =~= a@);
        seen@.unique_seq_to_set();
    }
    seen.len()
}

/// The best-scoring candidate among the file names of `available`: a
/// candidate whose stem contains, or is contained in, the target's base
/// name; the score is the number of distinct characters in common; the
/// first of equal scores wins.
pub open spec fn best_match(target: Seq<char>, files: Seq<Seq<char>>) -> Option<(Seq<char>, nat)>
    decreases files.len(),
{
    if files.len() == 0 {
        None
    } else {
        let prev = best_match(target, files.drop_last());
        let f = files.last();
        let base = base_name(target);
        let cand = stem_of(f);
        if crate::text::seq_contains_sub(cand, base) || crate::text::seq_contains_sub(base, cand) {
            let score = common_chars(base, cand);
            match prev {
                None => Some((f, score)),
                Some(p) => if score > p.1 { Some((f, score)) } else { prev },
            }
        } else {
            prev
        }
    }
}

/// Suggests the GitHub Actions file whose name best matches `target`.
pub fn suggest_filename(target: &str, available: &Vec<(String, GhaWorkflow)>) -> (r: Option<String>)
    ensures
        match best_match(target@, available@.map_values(|p: (String, GhaWorkflow)| p.0@)) {
            Some(b) => r matches Some(s) && s@ == b.0,
            None => r is None,
        },
{
    let tv = crate::text::chars_of(target);
    let base = trimmed(last_segment(&tv));
    let ghost files = available@.map_values(|p: (String, GhaWorkflow)| p.0@);
    let mut best: Option<(usize, usize)> = None;
    let n: usize = available.len();
    for i in 0..n
        invariant
            n == available@.len(),
            files == available@.map_values(|p: (String, GhaWorkflow)| p.0@),
            base@ == base_name(target@),
            match best_match(target@, files.take(i as int)) {
                Some(b) => best matches Some(x) && x.0 < i && files[x.0 as int] == b.0 && x.1 == b.1,
                None => best is None,
            },
    {
        proof {
            assert(files.take(i + 1).drop_last() =~= files.take(i as int));
            assert(files.take(i + 1).last() == available@[i as int].0@);
        }
        let fv_chars = crate::text::chars_of(available[i].0.as_str());
        let cand = trimmed(fv_chars);
        if crate::text::contains_sub(&cand, &base) || crate::text::contains_sub(&base, &cand) {
            let score = common_char_count(&base, &cand);
            let better = match best {
                None => true,
                Some(b) => score > b.1,
            };
            if better {
                best = Some((i, score));
            }
        }
    }
    proof {
        assert(files.take(n as int) =~= files);
    }
    match best {
        Some(b) => Some(available[b.0].0.clone()),
        None => None,
    }
}

/// Whether two names are equal up to ASCII case.
pub fn names_match(a: &str, b: &str) -> (r: bool)
    ensures
        r == (a@.len() == b@.len() && forall|i: int| 0 <= i < a@.len() ==> crate::error::eq_ignore_case(#[trigger] a@[i], b@[i])),
{
    let x = crate::text::chars_of(a);
    let y = crate::text::chars_of(b);
    if x.len() != y.len() {
        return false;
    }
    let n: usize = x.len();
    for i in 0..n
        invariant
            n == x@.len(),
            n == y@.len(),
            x@ == a@,
            y@ == b@,
            forall|k: int| 0 <= k < i ==> crate::error::eq_ignore_case(#[trigger] a@[k], b@[k]),
    {
        if !crate::error::chars_eq_ignore_case(x[i], y[i]) {
            return false;
        }
    }
    true
}

// ── Workflow references ──────────────────────────────────────────────────────

/// Whether two names are equal up to ASCII case.
pub open spec fn same_name(a: Seq<char>, b: Seq<char>) -> bool {
    a.len() == b.len() && forall|i: int| 0 <= i < a.len() ==> crate::error::eq_ignore_case(#[trigger] a[i], b[i])
}

/// Whether `i` is the first GHA file named `file`.
pub open spec fn first_file(available: Seq<(String, GhaWorkflow)>, file: Seq<char>, i: int) -> bool {
    0 <= i < available.len() && available[i].0@ == file && forall|k: int| 0 <= k < i ==> available[k].0@ != file
}

/// The GHA file named `file`.
pub open spec fn gha_of(available: Seq<(String, GhaWorkflow)>, file: Seq<char>) -> Option<GhaWorkflow> {
    if exists|i: int| first_file(available, file, i) {
        Some(available[choose|i: int| first_file(available, file, i)].1)
    } else {
        None
    }
}

/// The file names of the available GHA files.
pub open spec fn file_names(available: Seq<(String, GhaWorkflow)>) -> Seq<Seq<char>> {
    available.map_values(|p: (String, GhaWorkflow)| p.0@)
}

/// What checking a reference to the workflow file `wf_path` finds: a missing
/// file (with the best-matching file as a suggestion), or, for an existing
/// file whose GHA `name` differs from the declared one, a warning.
pub open spec fn reference_findings(
    source: Seq<char>,
    context: Seq<char>,
    wf_path: Seq<char>,
    declared: Option<Seq<char>>,
    missing_severity: AuditSeverity,
    file_exists: bool,
    available: Seq<(String, GhaWorkflow)>,
) -> Seq<FindingView> {
    if !file_exists {
        let suggestion = match best_match(wf_path, file_names(available)) {
            Some(b) => Some("did you mean .github/workflows/"@ + b.0 + "?"@),
            None => None,
        };
        seq![fv(missing_severity, source, context + ": workflow file not found: "@ + wf_path, suggestion)]
    } else {
        match declared {
            Some(d) => match gha_of(available, after_last_slash(wf_path)) {
                Some(g) => match g.name {
                    Some(actual) => if !same_name(d, actual@) {
                        seq![
                            fv(
                                AuditSeverity::Warning,
                                source,
                                context + ": workflow_name mismatch — declared '"@ + d + "' but GHA file has '"@ + actual@
                                    + "'"@,
                                Some("update workflow_name to '"@ + actual@ + "'"@),
                            ),
                        ]
                    } else {
                        Seq::empty()
                    },
                    None => Seq::empty(),
                },
                None => Seq::empty(),
            },
            None => Seq::empty(),
        }
    }
}

fn find_gha<'a>(available: &'a Vec<(String, GhaWorkflow)>, file: &str) -> (r: Option<&'a GhaWorkflow>)
    ensures
        match gha_of(available@, file@) {
            Some(g) => r matches Some(x) && *x == g,
            None => r is None,
        },
{
    let n: usize = available.len();
    for i in 0..n
        invariant
            n == available@.len(),
            forall|k: int| 0 <= k < i ==> available@[k].0@ != file@,
    {
        if str_eq(available[i].0.as_str(), file) {
            proof {
                assert(first_file(available@, file@, i as int));
                let c = choose|c: int| first_file(available@, file@, c);
                if c < i {
                } else if c > i {
                    assert(available@[i as int].0@ == file@);
                }
            }
            return Some(&available[i].1);
        }
    }
    proof {
        if exists|c: int| first_file(available@, file@, c) {
            let c = choose|c: int| first_file(available@, file@, c);
            assert(available@[c].0@ == file@);
        }
    }
    None
}

fn file_part(path: &str) -> (r: String)
    ensures
        r@ == after_last_slash(path@),
{
    let v = crate::text::chars_of(path);
    let seg = last_segment(&v);
    let k: usize = seg.len();
    let r = crate::text::string_of(&seg, 0, k);
    proof {
        assert(seg@.subrange(0, k as int) =~= seg@);
    }
    r
}

/// Checks a reference to the workflow file `wf_path` (whose existence the
/// caller looked up as `file_exists`): a missing file is reported with
/// `missing_severity` and a suggestion; an existing one whose GHA `name`
/// differs (ignoring ASCII case) from `declared_name` gets a warning.
pub fn validate_workflow_reference(
    source: &str,
    context: &str,
    wf_path: &str,
    declared_name: Option<&str>,
    missing_severity: AuditSeverity,
    file_exists: bool,
    available: &Vec<(String, GhaWorkflow)>,
    findings: &mut Vec<AuditFinding>,
)
    ensures
        finding_views(final(findings)@) == finding_views(old(findings)@) + reference_findings(
            source@,
            context@,
            wf_path@,
            match declared_name {
                Some(d) => Some(d@),
                None => None,
            },
            missing_severity,
            file_exists,
            available@,
        ),
{
    let ghost start = finding_views(findings@);
    let ghost declared = match declared_name {
        Some(d) => Some(d@),
        None => None,
    };
    if !file_exists {
        let suggestion = match suggest_filename(wf_path, available) {
            Some(s) => {
                let mut t = String::from_str("did you mean .github/workflows/");
                t.append(s.as_str());
                t.append("?");
                Some(t)
            },
            None => None,
        };
        let mut m = String::from_str(context);
        m.append(": workflow file not found: ");
        m.append(wf_path);
        report(findings, finding(missing_severity, source, m, suggestion));
        proof {
            assert(finding_views(findings@) =~= start + reference_findings(
                source@, context@, wf_path@, declared, missing_severity, file_exists, available@,
            ));
        }
        return;
    }
    match declared_name {
        Some(declared_text) => {
            let file = file_part(wf_path);
            match find_gha(available, file.as_str()) {
                Some(g) => match &g.name {
                    Some(actual) => {
                        if !names_match(declared_text, actual.as_str()) {
                            let mut m = String::from_str(context);
                            m.append(": workflow_name mismatch — declared '");
                            m.append(declared_text);
                            m.append("' but GHA file has '");
                            m.append(actual.as_str());
                            m.append("'");
                            let mut sug = String::from_str("update workflow_name to '");
                            sug.append(actual.as_str());
                            sug.append("'");
                            report(findings, finding(AuditSeverity::Warning, source, m, Some(sug)));
                            proof {
                                assert(finding_views(findings@) =~= start + reference_findings(
                                    source@, context@, wf_path@, declared, missing_severity, file_exists, available@,
                                ));
                            }
                            return;
                        }
                    },
                    None => {},
                },
                None => {},
            }
        },
        None => {},
    }
    proof {
        assert(finding_views(findings@) =~= start + reference_findings(
            source@, context@, wf_path@, declared, missing_severity, file_exists, available@,
        ));
    }
}

/// The job list shown beside a missing job key.
pub open spec fn jobs_text(jobs: Seq<Seq<char>>) -> Seq<char> {
    if jobs.len() == 0 {
        "none"@
    } else {
        seq_join(jobs, ", "@)
    }
}

/// One error per key of `keys` that is not a job of `gha`.
pub open spec fn missing_key_findings(
    source: Seq<char>,
    context: Seq<char>,
    wf_path: Seq<char>,
    keys: Seq<Seq<char>>,
    gha: GhaWorkflow,
) -> Seq<FindingView>
    decreases keys.len(),
{
    if keys.len() == 0 {
        Seq::empty()
    } else {
        let prev = missing_key_findings(source, context, wf_path, keys.drop_last(), gha);
        let key = keys.last();
        if views(gha.jobs@).contains(key) {
            prev
        } else {
            prev.push(
                fv(
                    AuditSeverity::Error,
                    source,
                    context + ": job key '"@ + key + "' not found in "@ + wf_path + " (available: "@ + jobs_text(
                        views(gha.jobs@),
                    ) + ")"@,
                    None,
                ),
            )
        }
    }
}

/// What checking the job keys of a reference finds (nothing when the file
/// is not among the available ones).
pub open spec fn job_key_findings(
    source: Seq<char>,
    context: Seq<char>,
    wf_path: Seq<char>,
    keys: Seq<Seq<char>>,
    available: Seq<(String, GhaWorkflow)>,
) -> Seq<FindingView> {
    match gha_of(available, after_last_slash(wf_path)) {
        Some(g) => missing_key_findings(source, context, wf_path, keys, g),
        None => Seq::empty(),
    }
}

fn has_job(jobs: &Vec<String>, key: &str) -> (b: bool)
    ensures
        b == views(jobs@).contains(key@),
{
    let n: usize = jobs.len();
    for i in 0..n
        invariant
            n == jobs@.len(),
            forall|k: int| 0 <= k < i ==> jobs@[k]@ != key@,
    {
        if str_eq(jobs[i].as_str(), key) {
            proof {
                assert(views(jobs@)[i as int] == key@);
            }
            return true;
        }
    }
    proof {
        assert forall|k: int| 0 <= k < views(jobs@).len() implies views(jobs@)[k] != key@ by {
            assert(views(jobs@)[k] == jobs@[k]@);
        }
    }
    false
}

/// Checks that each of `job_keys` is a job of the referenced GHA file; a
/// file that is not available is skipped (its absence is reported by the
/// reference check).
pub fn validate_job_keys(
    source: &str,
    context: &str,
    wf_path: &str,
    job_keys: &Vec<String>,
    available: &Vec<(String, GhaWorkflow)>,
    findings: &mut Vec<AuditFinding>,
)
    ensures
        finding_views(final(findings)@) == finding_views(old(findings)@) + job_key_findings(
            source@,
            context@,
            wf_path@,
            views(job_keys@),
            available@,
        ),
{
    let ghost start = finding_views(findings@);
    let file = file_part(wf_path);
    let gha = match find_gha(available, file.as_str()) {
        Some(g) => g,
        None => {
            proof {
                assert(finding_views(findings@) =~= start + Seq::<FindingView>::empty());
            }
            return;
        },
    };
    let listed = if gha.jobs.len() == 0 {
        String::from_str("none")
    } else {
        crate::text::join(&gha.jobs, ", ")
    };
    let ghost keys = views(job_keys@);
    let n: usize = job_keys.len();
    proof {
        assert(finding_views(findings@) =~= start + missing_key_findings(source@, context@, wf_path@, keys.take(0), *gha));
    }
    for i in 0..n
        invariant
            n == job_keys@.len(),
            keys == views(job_keys@),
            listed@ == jobs_text(views(gha.jobs@)),
            finding_views(findings@) == start + missing_key_findings(source@, context@, wf_path@, keys.take(i as int), *gha),
    {
        proof {
            assert(keys.take(i + 1).drop_last() =~= keys.take(i as int));
            assert(keys.take(i + 1).last() == job_keys@[i as int]@);
        }
        let key = job_keys[i].as_str();
        if !has_job(&gha.jobs, key) {
            let mut m = String::from_str(context);
            m.append(": job key '");
            m.append(key);
            m.append("' not found in ");
            m.append(wf_path);
            m.append(" (available: ");
            m.append(listed.as_str());
            m.append(")");
            let ghost before = finding_views(findings@);
            report(findings, finding(AuditSeverity::Error, source, m, None));
            proof {
                assert(finding_views(findings@) =~= start + missing_key_findings(source@, context@, wf_path@, keys.take(i + 1), *gha));
            }
        }
    }
    proof {
        assert(keys.take(n as int) =~= keys);
    }
}

} // verus!
