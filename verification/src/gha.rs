//! Reading blueprint workflows written as GitHub Actions documents.
//!
//! A blueprint workflow is a GHA file: each job is a state, the first job
//! without `needs:` is the initial state, the steps say what kind of actor
//! runs the state, and transitions come from the `needs:` and `if:` of the
//! downstream jobs (`if: needs.<job>.outputs.event == '<event>'`).
//!
//! The program decodes the YAML into [`GhaWorkflowDoc`]; everything after
//! that is here.
use crate::blueprint_workflows::{
    os, AgentCost, BlueprintWorkflow, ExecutionTarget, NextEntry, NextSpec, NextValue, ScheduleConfig,
    StateConfig, StateKind, TriggerConfig,
};
use crate::sm_audit::{stem_of, trimmed};
use crate::text::{chars_of, has_at, owned, seq_contains_sub, seq_has_at, str_contains, str_eq};
use vstd::prelude::*;

verus! {

// ── Documents ────────────────────────────────────────────────────────────────

/// The `needs:` of a job as written.
#[derive(Debug, Clone)]
pub enum GhaNeeds {
    /// No `needs:` key.
    Absent,
    /// `needs: job`.
    One(String),
    /// `needs: [a, b]`; an entry is `None` when it is not a string.
    Many(Vec<Option<String>>),
    /// Any other value.
    Other,
}

/// A step of a job: its `uses:`, its `run:` and the string values of its
/// `with:` mapping (`None` for a value that is not a string).
#[derive(Debug, Clone)]
pub struct GhaStep {
    pub uses: Option<String>,
    pub run: Option<String>,
    pub with_fields: Option<Vec<(String, Option<String>)>>,
}

/// A job of the document.
#[derive(Debug, Clone)]
pub struct GhaJob {
    pub needs: GhaNeeds,
    pub if_condition: Option<String>,
    pub runs_on: Option<String>,
    pub uses: Option<String>,
    pub steps: Vec<GhaStep>,
}

/// The `workflow_dispatch:` trigger.
#[derive(Debug, Clone)]
pub enum GhaDispatch {
    /// `workflow_dispatch:` with no value.
    Null,
    /// Any other value; the fields hold `inputs.event.description` and
    /// `inputs.event.default` when those are strings.
    Value { event_description: Option<String>, event_default: Option<String> },
}

/// What the document's `on:` says: the `cron` of the first `schedule:` entry
/// (when it is a string) and the `workflow_dispatch:` trigger, if present.
#[derive(Debug, Clone)]
pub struct GhaTriggers {
    pub first_cron: Option<String>,
    pub dispatch: Option<GhaDispatch>,
}

/// A GHA workflow document: its name, its `on:` triggers and its jobs in
/// document order.
#[derive(Debug, Clone)]
pub struct GhaWorkflowDoc {
    pub name: Option<String>,
    pub on: Option<GhaTriggers>,
    pub jobs: Vec<(String, GhaJob)>,
}

// ── Needs ────────────────────────────────────────────────────────────────────

/// The present values of a list of optional strings, in order.
pub open spec fn present(v: Seq<Option<String>>) -> Seq<Seq<char>>
    decreases v.len(),
{
    if v.len() == 0 {
        Seq::empty()
    } else {
        match v.last() {
            Some(s) => present(v.drop_last()).push(s@),
            None => present(v.drop_last()),
        }
    }
}

/// The job names a `needs:` value lists.
pub open spec fn needs_of(n: GhaNeeds) -> Seq<Seq<char>> {
    match n {
        GhaNeeds::One(s) => seq![s@],
        GhaNeeds::Many(v) => present(v@),
        _ => Seq::empty(),
    }
}

/// The job names listed by `needs:` (a single string, or the strings of a
/// list).
pub fn parse_needs(n: &GhaNeeds) -> (r: Vec<String>)
    ensures
        crate::text::views(r@) == needs_of(*n),
{
    let mut out: Vec<String> = Vec::new();
    match n {
        GhaNeeds::One(s) => {
            out.push(s.clone());
            proof {
                assert(crate::text::views(out@) =~= seq![s@]);
            }
        },
        GhaNeeds::Many(v) => {
            let k: usize = v.len();
            for i in 0..k
                invariant
                    k == v@.len(),
                    crate::text::views(out@) == present(v@.take(i as int)),
            {
                proof {
                    assert(v@.take(i + 1).drop_last() =~= v@.take(i as int));
                    assert(v@.take(i + 1).last() == v@[i as int]);
                }
                match &v[i] {
                    Some(s) => {
                        let ghost before = out@;
                        out.push(s.clone());
                        proof {
                            assert(crate::text::views(out@) =~= crate::text::views(before).push(s@));
                        }
                    },
                    None => {},
                }
            }
            proof {
                assert(v@.take(k as int) =~= v@);
            }
        },
        _ => {
            proof {
                assert(crate::text::views(out@) =~= Seq::<Seq<char>>::empty());
            }
        },
    }
    out
}

/// Whether a list of names contains `name`.
fn names_contain(v: &Vec<String>, name: &str) -> (b: bool)
    ensures
        b == crate::text::views(v@).contains(name@),
{
    let n: usize = v.len();
    for i in 0..n
        invariant
            n == v@.len(),
            forall|k: int| 0 <= k < i ==> v@[k]@ != name@,
    {
        if str_eq(v[i].as_str(), name) {
            proof {
                assert(crate::text::views(v@)[i as int] == name@);
            }
            return true;
        }
    }
    proof {
        assert forall|k: int| 0 <= k < crate::text::views(v@).len() implies crate::text::views(v@)[k] != name@ by {
            assert(crate::text::views(v@)[k] == v@[k]@);
        }
    }
    false
}

// ── Initial state and dependents ─────────────────────────────────────────────

/// Whether some job lists `name` in its `needs:`.
pub open spec fn has_dependents(jobs: Seq<(String, GhaJob)>, name: Seq<char>) -> bool {
    exists|j: int| 0 <= j < jobs.len() && #[trigger] needs_of(jobs[j].1.needs).contains(name)
}

/// Whether job `i` is the first job without `needs:`.
pub open spec fn first_root(jobs: Seq<(String, GhaJob)>, i: int) -> bool {
    &&& 0 <= i < jobs.len()
    &&& needs_of(jobs[i].1.needs).len() == 0
    &&& forall|k: int| 0 <= k < i ==> needs_of(#[trigger] jobs[k].1.needs).len() != 0
}

/// The initial state: the first job without `needs:`, else the first job
/// (a cyclic graph), else none.
pub open spec fn initial_of(jobs: Seq<(String, GhaJob)>) -> Option<Seq<char>> {
    if exists|i: int| first_root(jobs, i) {
        Some(jobs[choose|i: int| first_root(jobs, i)].0@)
    } else if jobs.len() > 0 {
        Some(jobs[0].0@)
    } else {
        None
    }
}

fn dependents_contain(jobs: &Vec<(String, GhaJob)>, name: &str) -> (b: bool)
    ensures
        b == has_dependents(jobs@, name@),
{
    let n: usize = jobs.len();
    for j in 0..n
        invariant
            n == jobs@.len(),
            forall|k: int| 0 <= k < j ==> !needs_of(#[trigger] jobs@[k].1.needs).contains(name@),
    {
        let needs = parse_needs(&jobs[j].1.needs);
        if names_contain(&needs, name) {
            return true;
        }
    }
    false
}

fn initial_state(jobs: &Vec<(String, GhaJob)>) -> (r: Option<String>)
    ensures
        os(r) == initial_of(jobs@),
{
    let n: usize = jobs.len();
    for i in 0..n
        invariant
            n == jobs@.len(),
            forall|k: int| 0 <= k < i ==> needs_of(#[trigger] jobs@[k].1.needs).len() != 0,
    {
        let needs = parse_needs(&jobs[i].1.needs);
        if needs.len() == 0 {
            proof {
                assert(first_root(jobs@, i as int));
                let c = choose|c: int| first_root(jobs@, c);
                if c < i {
                } else if c > i {
                    assert(needs_of(jobs@[i as int].1.needs).len() != 0);
                }
            }
            return Some(jobs[i].0.clone());
        }
    }
    proof {
        if exists|c: int| first_root(jobs@, c) {
            let c = choose|c: int| first_root(jobs@, c);
            assert(needs_of(jobs@[c].1.needs).len() != 0);
        }
    }
    if n > 0 {
        Some(jobs[0].0.clone())
    } else {
        None
    }
}

// ── State kinds ──────────────────────────────────────────────────────────────

/// The kind a step's `uses:` names, if any.
pub open spec fn uses_kind(u: Seq<char>) -> Option<StateKind> {
    if seq_contains_sub(u, "calypso-agent"@) {
        Some(StateKind::Agent)
    } else if seq_contains_sub(u, "calypso-human-gate"@) {
        Some(StateKind::Human)
    } else if seq_contains_sub(u, "calypso-github-poller"@) {
        Some(StateKind::Github)
    } else if seq_contains_sub(u, "calypso-function"@) {
        Some(StateKind::Function)
    } else {
        None
    }
}

/// The kind a step decides: its `uses:` action if that names one, else its
/// `run:` command (a terminal marker or a deterministic command).
pub open spec fn step_kind(st: GhaStep) -> Option<StateKind> {
    let by_uses = match st.uses {
        Some(u) => uses_kind(u@),
        None => None,
    };
    match by_uses {
        Some(k) => Some(k),
        None => match st.run {
            Some(r) => if seq_contains_sub(r@, "Terminal state:"@) {
                Some(StateKind::Terminal)
            } else {
                Some(StateKind::Deterministic)
            },
            None => None,
        },
    }
}

/// The kind decided by the first step that decides one.
pub open spec fn steps_kind(steps: Seq<GhaStep>) -> Option<StateKind>
    decreases steps.len(),
{
    if steps.len() == 0 {
        None
    } else {
        match step_kind(steps[0]) {
            Some(k) => Some(k),
            None => steps_kind(steps.drop_first()),
        }
    }
}

/// Whether a job delegates to a reusable workflow file.
pub open spec fn delegates(job: GhaJob) -> bool {
    job.uses matches Some(u) && seq_contains_sub(u@, ".github/workflows/"@)
}

/// The kind of a job's state: a workflow delegation, else what its steps
/// decide, else terminal for a job with no steps, no `uses:` and no
/// dependents, else deterministic.
pub open spec fn kind_of(job: GhaJob, has_dependent: bool) -> StateKind {
    if delegates(job) {
        StateKind::Workflow
    } else {
        match steps_kind(job.steps@) {
            Some(k) => k,
            None => if !has_dependent && job.steps@.len() == 0 && job.uses is None {
                StateKind::Terminal
            } else {
                StateKind::Deterministic
            },
        }
    }
}

fn opt_contains(o: &Option<String>, p: &str) -> (b: bool)
    ensures
        b == (o matches Some(s) && seq_contains_sub(s@, p@)),
{
    match o {
        Some(s) => str_contains(s.as_str(), p),
        None => false,
    }
}

fn step_kind_of(st: &GhaStep) -> (r: Option<StateKind>)
    ensures
        r == step_kind(*st),
{
    match &st.uses {
        Some(u) => {
            if str_contains(u.as_str(), "calypso-agent") {
                return Some(StateKind::Agent);
            }
            if str_contains(u.as_str(), "calypso-human-gate") {
                return Some(StateKind::Human);
            }
            if str_contains(u.as_str(), "calypso-github-poller") {
                return Some(StateKind::Github);
            }
            if str_contains(u.as_str(), "calypso-function") {
                return Some(StateKind::Function);
            }
        },
        None => {},
    }
    match &st.run {
        Some(r) => {
            if str_contains(r.as_str(), "Terminal state:") {
                Some(StateKind::Terminal)
            } else {
                Some(StateKind::Deterministic)
            }
        },
        None => None,
    }
}

/// The kind of a job's state (`has_dependent`: some job needs it).
pub fn derive_kind(job: &GhaJob, has_dependent: bool) -> (k: StateKind)
    ensures
        k == kind_of(*job, has_dependent),
{
    if opt_contains(&job.uses, ".github/workflows/") {
        return StateKind::Workflow;
    }
    let n: usize = job.steps.len();
    proof {
        assert(job.steps@.skip(0) =~= job.steps@);
    }
    for i in 0..n
        invariant
            n == job.steps@.len(),
            !delegates(*job),
            steps_kind(job.steps@.skip(i as int)) == steps_kind(job.steps@),
    {
        let ghost rest = job.steps@.skip(i as int);
        proof {
            assert(rest[0] == job.steps@[i as int]);
            assert(rest.drop_first() =~= job.steps@.skip(i + 1));
        }
        match step_kind_of(&job.steps[i]) {
            Some(k) => {
                return k;
            },
            None => {},
        }
    }
    proof {
        assert(job.steps@.skip(n as int).len() == 0);
    }
    if !has_dependent && n == 0 && job.uses.is_none() {
        StateKind::Terminal
    } else {
        StateKind::Deterministic
    }
}

// ── Agent configuration, commands, delegation ───────────────────────────────

/// Whether `i` is the first entry with key `key`.
pub open spec fn first_field(w: Seq<(String, Option<String>)>, key: Seq<char>, i: int) -> bool {
    0 <= i < w.len() && w[i].0@ == key && forall|k: int| 0 <= k < i ==> w[k].0@ != key
}

/// The string value of `key` in a `with:` mapping.
pub open spec fn field(w: Seq<(String, Option<String>)>, key: Seq<char>) -> Option<Seq<char>> {
    if exists|i: int| first_field(w, key, i) {
        os(w[choose|i: int| first_field(w, key, i)].1)
    } else {
        None
    }
}

/// The cost tier a `cost:` value names.
pub open spec fn cost_of(s: Seq<char>) -> AgentCost {
    if s == "guru"@ {
        AgentCost::Guru
    } else if s == "cheap"@ {
        AgentCost::Cheap
    } else {
        AgentCost::Default
    }
}

/// `(role, cost, prompt)` of a step whose `with:` names a role or a prompt.
pub open spec fn step_agent(st: GhaStep) -> Option<(Option<Seq<char>>, Option<AgentCost>, Option<Seq<char>>)> {
    match st.with_fields {
        Some(w) => {
            let role = field(w@, "role"@);
            let prompt = field(w@, "prompt"@);
            let cost = match field(w@, "cost"@) {
                Some(c) => Some(cost_of(c)),
                None => None,
            };
            if role is Some || prompt is Some {
                Some((role, cost, prompt))
            } else {
                None
            }
        },
        None => None,
    }
}

/// The agent configuration of the first step that has one.
pub open spec fn agent_config(steps: Seq<GhaStep>) -> (Option<Seq<char>>, Option<AgentCost>, Option<Seq<char>>)
    decreases steps.len(),
{
    if steps.len() == 0 {
        (None, None, None)
    } else {
        match step_agent(steps[0]) {
            Some(c) => c,
            None => agent_config(steps.drop_first()),
        }
    }
}

/// The `run:` command of the first step that has one.
pub open spec fn command_of(steps: Seq<GhaStep>) -> Option<Seq<char>>
    decreases steps.len(),
{
    if steps.len() == 0 {
        None
    } else {
        match steps[0].run {
            Some(r) => Some(r@),
            None => command_of(steps.drop_first()),
        }
    }
}

/// `s` with every leading copy of `p` removed (`trim_start_matches`).
pub open spec fn trim_prefix(s: Seq<char>, p: Seq<char>) -> Seq<char>
    decreases s.len(),
{
    if p.len() > 0 && seq_has_at(s, 0, p) {
        trim_prefix(s.skip(p.len() as int), p)
    } else {
        s
    }
}

/// The stem of the workflow file a delegating job names.
pub open spec fn workflow_ref_of(job: GhaJob) -> Option<Seq<char>> {
    if delegates(job) {
        Some(stem_of(trim_prefix(job.uses->0@, "./.github/workflows/"@)))
    } else {
        None
    }
}

/// Where a job runs: on GitHub when it has `runs-on:`.
pub open spec fn target_of(job: GhaJob) -> ExecutionTarget {
    if job.runs_on is Some {
        ExecutionTarget::GitHub
    } else {
        ExecutionTarget::Local
    }
}

fn field_value(w: &Vec<(String, Option<String>)>, key: &str) -> (r: Option<String>)
    ensures
        os(r) == field(w@, key@),
{
    let n: usize = w.len();
    for i in 0..n
        invariant
            n == w@.len(),
            forall|k: int| 0 <= k < i ==> w@[k].0@ != key@,
    {
        if str_eq(w[i].0.as_str(), key) {
            proof {
                assert(first_field(w@, key@, i as int));
                let c = choose|c: int| first_field(w@, key@, c);
                if c < i {
                } else if c > i {
                    assert(w@[i as int].0@ == key@);
                }
            }
            return crate::blueprint_workflows::copy_opt(&w[i].1);
        }
    }
    proof {
        if exists|c: int| first_field(w@, key@, c) {
            let c = choose|c: int| first_field(w@, key@, c);
            assert(w@[c].0@ == key@);
        }
    }
    None
}

fn agent_of_step(st: &GhaStep) -> (r: Option<(Option<String>, Option<AgentCost>, Option<String>)>)
    ensures
        match step_agent(*st) {
            Some((role, cost, prompt)) => r matches Some((a, b, c)) && os(a) == role && b == cost && os(c) == prompt,
            None => r is None,
        },
{
    match &st.with_fields {
        Some(w) => {
            let role = field_value(w, "role");
            let prompt = field_value(w, "prompt");
            let cost = match field_value(w, "cost") {
                Some(c) => {
                    if str_eq(c.as_str(), "guru") {
                        Some(AgentCost::Guru)
                    } else if str_eq(c.as_str(), "cheap") {
                        Some(AgentCost::Cheap)
                    } else {
                        Some(AgentCost::Default)
                    }
                },
                None => None,
            };
            if role.is_some() || prompt.is_some() {
                Some((role, cost, prompt))
            } else {
                None
            }
        },
        None => None,
    }
}

/// `(role, cost, prompt)` from the first step whose `with:` names a role or
/// a prompt.
pub fn extract_agent_config(job: &GhaJob) -> (r: (Option<String>, Option<AgentCost>, Option<String>))
    ensures
        (os(r.0), r.1, os(r.2)) == agent_config(job.steps@),
{
    let n: usize = job.steps.len();
    proof {
        assert(job.steps@.skip(0) =~= job.steps@);
    }
    for i in 0..n
        invariant
            n == job.steps@.len(),
            agent_config(job.steps@.skip(i as int)) == agent_config(job.steps@),
    {
        let ghost rest = job.steps@.skip(i as int);
        proof {
            assert(rest[0] == job.steps@[i as int]);
            assert(rest.drop_first() =~= job.steps@.skip(i + 1));
        }
        match agent_of_step(&job.steps[i]) {
            Some(c) => {
                return c;
            },
            None => {},
        }
    }
    proof {
        assert(job.steps@.skip(n as int).len() == 0);
    }
    (None, None, None)
}

/// The `run:` command of the first step that has one.
pub fn extract_command(job: &GhaJob) -> (r: Option<String>)
    ensures
        os(r) == command_of(job.steps@),
{
    let n: usize = job.steps.len();
    proof {
        assert(job.steps@.skip(0) =~= job.steps@);
    }
    for i in 0..n
        invariant
            n == job.steps@.len(),
            command_of(job.steps@.skip(i as int)) == command_of(job.steps@),
    {
        let ghost rest = job.steps@.skip(i as int);
        proof {
            assert(rest[0] == job.steps@[i as int]);
            assert(rest.drop_first() =~= job.steps@.skip(i + 1));
        }
        match &job.steps[i].run {
            Some(c) => {
                return Some(c.clone());
            },
            None => {},
        }
    }
    proof {
        assert(job.steps@.skip(n as int).len() == 0);
    }
    None
}

/// The index where the leading copies of `p` end.
fn trim_start(v: &Vec<char>, p: &Vec<char>) -> (r: usize)
    ensures
        r <= v@.len(),
        v@.skip(r as int) == trim_prefix(v@, p@),
{
    let m: usize = p.len();
    let mut start: usize = 0;
    proof {
        assert(v@.skip(0) =~= v@);
    }
    let n: usize = v.len();
    while m > 0 && has_at(v, start, p)
        invariant
            m == p@.len(),
            n == v@.len(),
            start <= v@.len(),
            trim_prefix(v@.skip(start as int), p@) == trim_prefix(v@, p@),
        decreases v@.len() - start,
    {
        proof {
            let s = v@.skip(start as int);
            assert(s.subrange(0, m as int) =~= v@.subrange(start as int, start + m));
            assert(s.skip(m as int) =~= v@.skip(start + m));
        }
        assert(start + m <= n);
        start = start + m;
    }
    proof {
        let s = v@.skip(start as int);
        if m > 0 && start + m <= v@.len() {
            assert(s.subrange(0, m as int) =~= v@.subrange(start as int, start + m));
        }
    }
    start
}

/// The workflow stem a job delegates to (`uses: ./.github/workflows/x.yml`
/// gives `x`).
pub fn extract_workflow_ref(job: &GhaJob) -> (r: Option<String>)
    ensures
        os(r) == workflow_ref_of(*job),
{
    match &job.uses {
        Some(u) => {
            if !str_contains(u.as_str(), ".github/workflows/") {
                return None;
            }
            let v = chars_of(u.as_str());
            let p = chars_of("./.github/workflows/");
            let start = trim_start(&v, &p);
            let mut rest: Vec<char> = Vec::new();
            for j in start..v.len()
                invariant
                    start <= v@.len(),
                    rest@ == v@.subrange(start as int, j as int),
            {
                rest.push(v[j]);
                proof {
                    assert(v@.subrange(start as int, j + 1) =~= v@.subrange(start as int, j as int).push(v@[j as int]));
                }
            }
            proof {
                assert(rest@ =~= v@.skip(start as int));
            }
            let stem = trimmed(rest);
            let k: usize = stem.len();
            let s = crate::text::string_of(&stem, 0, k);
            proof {
                assert(stem@.subrange(0, k as int) =~= stem@);
            }
            Some(s)
        },
        None => None,
    }
}

/// `GitHub` for a job with `runs-on:`, `Local` otherwise.
pub fn derive_execution_target(job: &GhaJob) -> (t: ExecutionTarget)
    ensures
        t == target_of(*job),
{
    if job.runs_on.is_some() {
        ExecutionTarget::GitHub
    } else {
        ExecutionTarget::Local
    }
}

// ── Triggers ─────────────────────────────────────────────────────────────────

/// The cron of the first `schedule:` entry.
pub open spec fn cron_of(on: Option<GhaTriggers>) -> Option<Seq<char>> {
    match on {
        Some(t) => os(t.first_cron),
        None => None,
    }
}

/// Whether a dispatch input description names an event (`a-b`, no spaces).
pub open spec fn names_event(d: Seq<char>) -> bool {
    seq_contains_sub(d, "-"@) && !seq_contains_sub(d, " "@)
}

/// `(event, pattern)` of the manual trigger, when `workflow_dispatch:` is
/// present.
pub open spec fn trigger_of(on: Option<GhaTriggers>) -> Option<(Option<Seq<char>>, Option<Seq<char>>)> {
    match on {
        Some(t) => match t.dispatch {
            Some(GhaDispatch::Value { event_description: Some(d), event_default }) => if names_event(d@) {
                Some((Some(d@), os(event_default)))
            } else {
                Some((None, None))
            },
            Some(_) => Some((None, None)),
            None => None,
        },
        None => None,
    }
}

/// The schedule of the document: the first `schedule:` cron.
pub fn extract_schedule(on: &Option<GhaTriggers>) -> (r: Option<ScheduleConfig>)
    ensures
        match cron_of(*on) {
            Some(c) => r matches Some(s) && s.cron@ == c && s.description is None,
            None => r is None,
        },
{
    match on {
        Some(t) => match &t.first_cron {
            Some(c) => Some(ScheduleConfig { cron: c.clone(), description: None }),
            None => None,
        },
        None => None,
    }
}

fn manual_trigger() -> (t: TriggerConfig)
    ensures
        t.event is None && t.pattern is None && t.branch_constraint is None && t.ci_entry is None,
{
    TriggerConfig { event: None, pattern: None, branch_constraint: None, ci_entry: None }
}

/// The manual trigger of the document: `workflow_dispatch:` with no value
/// is a plain manual trigger; one whose `inputs.event.description` names an
/// event (a hyphenated word) carries that event and the input's default as
/// its pattern.
pub fn extract_trigger(on: &Option<GhaTriggers>) -> (r: Option<TriggerConfig>)
    ensures
        match trigger_of(*on) {
            Some((e, p)) => r matches Some(t) && os(t.event) == e && os(t.pattern) == p
                && t.branch_constraint is None && t.ci_entry is None,
            None => r is None,
        },
{
    let t = match on {
        Some(t) => t,
        None => return None,
    };
    match &t.dispatch {
        None => None,
        Some(GhaDispatch::Null) => Some(manual_trigger()),
        Some(GhaDispatch::Value { event_description, event_default }) => match event_description {
            Some(d) => {
                if str_contains(d.as_str(), "-") && !str_contains(d.as_str(), " ") {
                    Some(TriggerConfig {
                        event: Some(d.clone()),
                        pattern: crate::blueprint_workflows::copy_opt(event_default),
                        branch_constraint: None,
                        ci_entry: None,
                    })
                } else {
                    Some(manual_trigger())
                }
            },
            None => Some(manual_trigger()),
        },
    }
}

// ── Transition conditions ────────────────────────────────────────────────────

/// Whether `at` is the first position where `p` occurs in `s`.
pub open spec fn first_match(s: Seq<char>, p: Seq<char>, at: int) -> bool {
    seq_has_at(s, at, p) && forall|k: int| 0 <= k < at ==> !seq_has_at(s, k, p)
}

/// The pieces of `s` between the occurrences of `p`, left to right
/// (`str::split` with a non-empty string pattern).
pub open spec fn split_on(s: Seq<char>, p: Seq<char>) -> Seq<Seq<char>>
    decreases s.len(),
{
    if p.len() > 0 && exists|at: int| first_match(s, p, at) {
        let at = choose|at: int| first_match(s, p, at);
        seq![s.take(at)] + split_on(s.skip(at + p.len()), p)
    } else {
        seq![s]
    }
}

/// Whether `i` is the position of the first `'` in `s`.
pub open spec fn first_quote(s: Seq<char>, i: int) -> bool {
    0 <= i < s.len() && s[i] == '\'' && forall|k: int| 0 <= k < i ==> s[k] != '\''
}

/// The event a piece of an `if:` condition names: the text before its first
/// `'`, unless the piece starts with `needs.` or has no `'`.
pub open spec fn event_of(seg: Seq<char>) -> Option<Seq<char>> {
    if seq_has_at(seg, 0, "needs."@) || !(exists|i: int| 0 <= i < seg.len() && seg[i] == '\'') {
        None
    } else {
        Some(seg.take(choose|i: int| first_quote(seg, i)))
    }
}

/// The text that precedes an event of `job` in a condition.
pub open spec fn event_pattern(job: Seq<char>) -> Seq<char> {
    "needs."@ + job + ".outputs.event == '"@
}

/// The events named by a list of condition pieces, in order.
pub open spec fn segment_events(segs: Seq<Seq<char>>) -> Seq<Seq<char>>
    decreases segs.len(),
{
    if segs.len() == 0 {
        Seq::empty()
    } else {
        match event_of(segs[0]) {
            Some(e) => seq![e] + segment_events(segs.drop_first()),
            None => segment_events(segs.drop_first()),
        }
    }
}

/// The events of `job` an `if:` condition tests, in order.
pub open spec fn events_in(cond: Seq<char>, job: Seq<char>) -> Seq<Seq<char>> {
    segment_events(split_on(cond, event_pattern(job)))
}

proof fn lemma_first_match_unique(s: Seq<char>, p: Seq<char>, a: int, b: int)
    requires
        first_match(s, p, a),
        first_match(s, p, b),
    ensures
        a == b,
{
}

proof fn lemma_split_at(s: Seq<char>, p: Seq<char>, at: int)
    requires
        p.len() > 0,
        first_match(s, p, at),
    ensures
        split_on(s, p) == seq![s.take(at)] + split_on(s.skip(at + p.len()), p),
{
    let c = choose|c: int| first_match(s, p, c);
    lemma_first_match_unique(s, p, at, c);
}

/// The event a segment names.
fn segment_event(seg: &Vec<char>) -> (r: Option<String>)
    ensures
        os(r) == event_of(seg@),
{
    let needs = chars_of("needs.");
    let n: usize = seg.len();
    let mut q: usize = 0;
    while q < n && seg[q] != '\''
        invariant
            n == seg@.len(),
            q <= n,
            forall|k: int| 0 <= k < q ==> seg@[k] != '\'',
        decreases n - q,
    {
        q = q + 1;
    }
    if has_at(seg, 0, &needs) || q == n {
        proof {
            if q == n {
                assert(!(exists|i: int| 0 <= i < seg@.len() && seg@[i] == '\''));
            }
        }
        return None;
    }
    proof {
        assert(first_quote(seg@, q as int));
        let c = choose|c: int| first_quote(seg@, c);
        if c < q {
        } else if c > q {
            assert(seg@[q as int] == '\'');
        }
    }
    let r = crate::text::string_of(seg, 0, q);
    proof {
        assert(seg@.subrange(0, q as int) =~= seg@.take(q as int));
    }
    Some(r)
}

/// The event-pattern text of a job: `needs.<job>.outputs.event == '`.
fn pattern_for(job: &str) -> (r: Vec<char>)
    ensures
        r@ == event_pattern(job@),
        r@.len() > 0,
{
    let mut s = String::from_str("needs.");
    s.append(job);
    s.append(".outputs.event == '");
    proof {
        reveal_strlit("needs.");
    }
    chars_of(s.as_str())
}

/// The characters `v[from..to]`.
fn chars_between(v: &Vec<char>, from: usize, to: usize) -> (r: Vec<char>)
    requires
        from <= to <= v@.len(),
    ensures
        r@ == v@.subrange(from as int, to as int),
{
    let mut out: Vec<char> = Vec::new();
    for j in from..to
        invariant
            from <= to <= v@.len(),
            out@ == v@.subrange(from as int, j as int),
    {
        out.push(v[j]);
        proof {
            assert(v@.subrange(from as int, j + 1) =~= v@.subrange(from as int, j as int).push(v@[j as int]));
        }
    }
    out
}

/// The events of `job` that an `if:` condition tests
/// (`needs.<job>.outputs.event == '<event>'`), in order.
pub fn condition_events(cond: &str, job: &str) -> (r: Vec<String>)
    ensures
        crate::text::views(r@) == events_in(cond@, job@),
{
    let v = chars_of(cond);
    let p = pattern_for(job);
    let ghost pat = event_pattern(job@);
    let n: usize = v.len();
    let m: usize = p.len();
    let mut out: Vec<String> = Vec::new();
    let mut start: usize = 0;
    let mut i: usize = 0;
    proof {
        assert(v@.skip(0) =~= v@);
        assert(crate::text::views(out@) =~= Seq::<Seq<char>>::empty());
        assert(Seq::<Seq<char>>::empty() + segment_events(split_on(v@, pat)) =~= segment_events(split_on(v@, pat)));
    }
    while i < n
        invariant
            v@ == cond@,
            p@ == pat,
            pat == event_pattern(job@),
            n == v@.len(),
            m == p@.len(),
            m > 0,
            start <= i <= n,
            forall|k: int| start <= k < i ==> !seq_has_at(v@, k, pat),
            crate::text::views(out@) + segment_events(split_on(v@.skip(start as int), pat))
                == segment_events(split_on(v@, pat)),
        decreases n - i,
    {
        if has_at(&v, i, &p) {
            let ghost rest = v@.skip(start as int);
            let ghost at = i - start;
            let ghost tail = split_on(v@.skip(i + m), pat);
            proof {
                assert forall|k: int| 0 <= k < at implies !seq_has_at(rest, k, pat) by {
                    if seq_has_at(rest, k, pat) {
                        assert(rest.subrange(k, k + m) =~= v@.subrange(start + k, start + k + m));
                        assert(seq_has_at(v@, start + k, pat));
                    }
                }
                assert(rest.subrange(at, at + m) =~= v@.subrange(i as int, i + m));
                assert(first_match(rest, pat, at));
                lemma_split_at(rest, pat, at);
                assert(rest.take(at) =~= v@.subrange(start as int, i as int));
                assert(rest.skip(at + m) =~= v@.skip(i + m));
                let whole = seq![rest.take(at)] + tail;
                assert(split_on(rest, pat) == whole);
                assert(whole[0] == rest.take(at));
                assert(whole.drop_first() =~= tail);
            }
            let seg = chars_between(&v, start, i);
            let ev = segment_event(&seg);
            match ev {
                Some(e) => {
                    let ghost before = out@;
                    out.push(e);
                    proof {
                        assert(crate::text::views(out@) =~= crate::text::views(before).push(e@));
                        assert(crate::text::views(before).push(e@) + segment_events(tail) =~= crate::text::views(
                            before,
                        ) + (seq![e@] + segment_events(tail)));
                    }
                },
                None => {},
            }
            start = i + m;
            i = start;
        } else {
            i = i + 1;
        }
    }
    let ghost rest = v@.skip(start as int);
    proof {
        assert forall|at: int| !first_match(rest, pat, at) by {
            if first_match(rest, pat, at) {
                assert(rest.subrange(at, at + m) =~= v@.subrange(start + at, start + at + m));
                assert(seq_has_at(v@, start + at, pat));
            }
        }
        assert(rest =~= v@.subrange(start as int, n as int));
        assert(split_on(rest, pat) == seq![rest]);
        assert(seq![rest][0] == rest);
        assert(seq![rest].drop_first() =~= Seq::<Seq<char>>::empty());
        assert(segment_events(Seq::<Seq<char>>::empty()) =~= Seq::<Seq<char>>::empty());
    }
    let seg = chars_between(&v, start, n);
    proof {
        assert(seg@ == rest);
    }
    match segment_event(&seg) {
        Some(e) => {
            let ghost before = out@;
            out.push(e);
            proof {
                assert(crate::text::views(out@) =~= crate::text::views(before).push(e@));
                assert(crate::text::views(before) + (seq![e@] + Seq::<Seq<char>>::empty()) =~= crate::text::views(out@));
            }
        },
        None => {
            proof {
                assert(crate::text::views(out@) + Seq::<Seq<char>>::empty() =~= crate::text::views(out@));
            }
        },
    }
    out
}

// ── Transitions ──────────────────────────────────────────────────────────────

/// The jobs with their names as values.
pub open spec fn job_views(jobs: Seq<(String, GhaJob)>) -> Seq<(Seq<char>, GhaJob)> {
    jobs.map_values(|p: (String, GhaJob)| (p.0@, p.1))
}

/// Whether entry `k` is the last one with its key.
pub open spec fn last_of_key<V>(s: Seq<(Seq<char>, V)>, k: int) -> bool {
    forall|j: int| k < j < s.len() ==> s[j].0 != s[k].0
}

/// Among the first `n` entries, those that are the last of their key (in
/// the whole list), in order.
pub open spec fn last_entries<V>(s: Seq<(Seq<char>, V)>, n: nat) -> Seq<(Seq<char>, V)>
    decreases n,
{
    if n == 0 {
        Seq::empty()
    } else {
        let prev = last_entries(s, (n - 1) as nat);
        if last_of_key(s, n - 1) {
            prev.push(s[n - 1])
        } else {
            prev
        }
    }
}

/// One entry per key: a later entry replaces an earlier one with the same
/// key, as inserting into a map does.
pub open spec fn dedup<V>(s: Seq<(Seq<char>, V)>) -> Seq<(Seq<char>, V)> {
    last_entries(s, s.len())
}

/// The transitions from job `name` into one job: one per event of `name`
/// that the job's `if:` tests, or an `on_complete` transition when the job
/// needs `name` unconditionally.
pub open spec fn job_transitions(name: Seq<char>, target: (Seq<char>, GhaJob)) -> Seq<(Seq<char>, Seq<char>)> {
    if needs_of(target.1.needs).contains(name) {
        match target.1.if_condition {
            Some(c) => events_in(c@, name).map_values(|e: Seq<char>| (e, target.0)),
            None => seq![("on_complete"@, target.0)],
        }
    } else {
        Seq::empty()
    }
}

/// The transitions from job `name` into each of `jobs`, in order.
pub open spec fn transitions(name: Seq<char>, jobs: Seq<(Seq<char>, GhaJob)>) -> Seq<(Seq<char>, Seq<char>)>
    decreases jobs.len(),
{
    if jobs.len() == 0 {
        Seq::empty()
    } else {
        transitions(name, jobs.drop_last()) + job_transitions(name, jobs.last())
    }
}

/// The transition mapping of job `name`: `(event, target)` pairs, one per
/// event, or none when no job follows it.
pub open spec fn next_of(name: Seq<char>, jobs: Seq<(Seq<char>, GhaJob)>) -> Option<Seq<(Seq<char>, Seq<char>)>> {
    let ts = transitions(name, jobs);
    if ts.len() == 0 {
        None
    } else {
        Some(dedup(ts))
    }
}

/// The entries a transition mapping holds.
pub open spec fn mapping_entries(ts: Seq<(Seq<char>, Seq<char>)>) -> Seq<(Option<Seq<char>>, crate::blueprint_workflows::EntryView)> {
    ts.map_values(|p: (Seq<char>, Seq<char>)| (Some(p.0), crate::blueprint_workflows::EntryView::Text(p.1)))
}

/// Whether `n` is the spec for the transition mapping `t`.
pub open spec fn next_matches(n: Option<NextSpec>, t: Option<Seq<(Seq<char>, Seq<char>)>>) -> bool {
    match t {
        None => n is None,
        Some(ts) => n matches Some(spec) && spec is Mapping && crate::blueprint_workflows::spec_entries(spec)
            == mapping_entries(ts),
    }
}

pub open spec fn pair_views(v: Seq<(String, String)>) -> Seq<(Seq<char>, Seq<char>)> {
    v.map_values(|p: (String, String)| (p.0@, p.1@))
}

fn is_last_job(jobs: &Vec<(String, GhaJob)>, i: usize) -> (b: bool)
    requires
        i < jobs@.len(),
    ensures
        b == last_of_key(job_views(jobs@), i as int),
{
    let n: usize = jobs.len();
    let ghost jv = job_views(jobs@);
    for j in i + 1..n
        invariant
            i < n == jobs@.len(),
            jv == job_views(jobs@),
            forall|k: int| i < k < j ==> jv[k].0 != jv[i as int].0,
    {
        if str_eq(jobs[j].0.as_str(), jobs[i].0.as_str()) {
            proof {
                assert(jv[j as int].0 == jv[i as int].0);
            }
            return false;
        }
    }
    true
}

/// The positions of the jobs that are the last of their name.
fn last_jobs(jobs: &Vec<(String, GhaJob)>) -> (ks: Vec<usize>)
    ensures
        forall|t: int| 0 <= t < ks@.len() ==> ks@[t] < jobs@.len(),
        ks@.map_values(|k: usize| job_views(jobs@)[k as int]) == dedup(job_views(jobs@)),
{
    let n: usize = jobs.len();
    let ghost jv = job_views(jobs@);
    let mut ks: Vec<usize> = Vec::new();
    for i in 0..n
        invariant
            n == jobs@.len(),
            jv == job_views(jobs@),
            jv.len() == n,
            forall|t: int| 0 <= t < ks@.len() ==> ks@[t] < n,
            ks@.map_values(|k: usize| jv[k as int]) == last_entries(jv, i as nat),
    {
        if is_last_job(jobs, i) {
            let ghost before = ks@;
            ks.push(i);
            proof {
                assert(ks@.map_values(|k: usize| jv[k as int]) =~= before.map_values(|k: usize| jv[k as int]).push(
                    jv[i as int],
                ));
            }
        }
    }
    ks
}

/// The transitions from `name` into one job.
fn transitions_into(name: &str, target: &String, job: &GhaJob) -> (r: Vec<(String, String)>)
    ensures
        pair_views(r@) == job_transitions(name@, (target@, *job)),
{
    let mut out: Vec<(String, String)> = Vec::new();
    let needs = parse_needs(&job.needs);
    if !names_contain(&needs, name) {
        proof {
            assert(pair_views(out@) =~= Seq::<(Seq<char>, Seq<char>)>::empty());
        }
        return out;
    }
    match &job.if_condition {
        Some(c) => {
            let events = condition_events(c.as_str(), name);
            let ghost es = events_in(c@, name@);
            let k: usize = events.len();
            for i in 0..k
                invariant
                    k == events@.len(),
                    crate::text::views(events@) == es,
                    pair_views(out@) == es.take(i as int).map_values(|e: Seq<char>| (e, target@)),
            {
                let ghost before = out@;
                out.push((events[i].clone(), target.clone()));
                proof {
                    assert(crate::text::views(events@)[i as int] == events@[i as int]@);
                    assert(es.take(i + 1) =~= es.take(i as int).push(es[i as int]));
                    assert(pair_views(out@) =~= pair_views(before).push((es[i as int], target@)));
                    assert(es.take(i + 1).map_values(|e: Seq<char>| (e, target@)) =~= es.take(i as int).map_values(
                        |e: Seq<char>| (e, target@),
                    ).push((es[i as int], target@)));
                }
            }
            proof {
                assert(es.take(k as int) =~= es);
            }
        },
        None => {
            out.push((String::from_str("on_complete"), target.clone()));
            proof {
                assert(pair_views(out@) =~= seq![("on_complete"@, target@)]);
            }
        },
    }
    out
}

/// The transitions from `name` into the jobs at positions `ks`, in order.
fn transitions_from(name: &str, jobs: &Vec<(String, GhaJob)>, ks: &Vec<usize>) -> (r: Vec<(String, String)>)
    requires
        forall|t: int| 0 <= t < ks@.len() ==> ks@[t] < jobs@.len(),
    ensures
        pair_views(r@) == transitions(name@, ks@.map_values(|k: usize| job_views(jobs@)[k as int])),
{
    let ghost uniq = ks@.map_values(|k: usize| job_views(jobs@)[k as int]);
    let mut out: Vec<(String, String)> = Vec::new();
    let m: usize = ks.len();
    proof {
        assert(pair_views(out@) =~= Seq::<(Seq<char>, Seq<char>)>::empty());
        assert(uniq.take(0).len() == 0);
    }
    for t in 0..m
        invariant
            m == ks@.len(),
            forall|x: int| 0 <= x < ks@.len() ==> ks@[x] < jobs@.len(),
            uniq == ks@.map_values(|k: usize| job_views(jobs@)[k as int]),
            pair_views(out@) == transitions(name@, uniq.take(t as int)),
    {
        let k = ks[t];
        let more = transitions_into(name, &jobs[k].0, &jobs[k].1);
        let ghost before = out@;
        let mut w: usize = 0;
        while w < more.len()
            invariant
                w <= more@.len(),
                pair_views(out@) == pair_views(before) + pair_views(more@).take(w as int),
            decreases more@.len() - w,
        {
            let ghost mid = out@;
            out.push((more[w].0.clone(), more[w].1.clone()));
            proof {
                assert(pair_views(out@) =~= pair_views(mid).push(pair_views(more@)[w as int]));
                assert(pair_views(more@).take(w + 1) =~= pair_views(more@).take(w as int).push(pair_views(more@)[w as int]));
            }
            w = w + 1;
        }
        proof {
            assert(pair_views(more@).take(more@.len() as int) =~= pair_views(more@));
            assert(uniq.take(t + 1).drop_last() =~= uniq.take(t as int));
            assert(uniq.take(t + 1).last() == job_views(jobs@)[k as int]);
            assert(job_views(jobs@)[k as int] == (jobs@[k as int].0@, jobs@[k as int].1));
        }
    }
    proof {
        assert(uniq.take(m as int) =~= uniq);
    }
    out
}

fn is_last_pair(ts: &Vec<(String, String)>, i: usize) -> (b: bool)
    requires
        i < ts@.len(),
    ensures
        b == last_of_key(pair_views(ts@), i as int),
{
    let n: usize = ts.len();
    let ghost pv = pair_views(ts@);
    for j in i + 1..n
        invariant
            i < n == ts@.len(),
            pv == pair_views(ts@),
            forall|k: int| i < k < j ==> pv[k].0 != pv[i as int].0,
    {
        if str_eq(ts[j].0.as_str(), ts[i].0.as_str()) {
            proof {
                assert(pv[j as int].0 == pv[i as int].0);
            }
            return false;
        }
    }
    true
}

pub open spec fn next_entry_views(es: Seq<NextEntry>) -> Seq<(Option<Seq<char>>, crate::blueprint_workflows::EntryView)> {
    es.map_values(|e: NextEntry| (os(e.key), crate::blueprint_workflows::entry_value(e)))
}

/// The mapping of a list of transitions: one entry per event, the last
/// target given for it.
fn transition_mapping(ts: &Vec<(String, String)>) -> (es: Vec<NextEntry>)
    ensures
        next_entry_views(es@) == mapping_entries(dedup(pair_views(ts@))),
{
    let n: usize = ts.len();
    let ghost pv = pair_views(ts@);
    let mut es: Vec<NextEntry> = Vec::new();
    for i in 0..n
        invariant
            n == ts@.len(),
            pv == pair_views(ts@),
            pv.len() == n,
            next_entry_views(es@) == mapping_entries(last_entries(pv, i as nat)),
    {
        if is_last_pair(ts, i) {
            let ghost before = es@;
            let e = NextEntry { key: Some(ts[i].0.clone()), value: NextValue::Text(ts[i].1.clone()) };
            es.push(e);
            proof {
                assert(next_entry_views(es@) =~= next_entry_views(before).push((Some(pv[i as int].0), crate::blueprint_workflows::EntryView::Text(pv[i as int].1))));
                assert(mapping_entries(last_entries(pv, (i + 1) as nat)) =~= mapping_entries(last_entries(pv, i as nat)).push(
                    (Some(pv[i as int].0), crate::blueprint_workflows::EntryView::Text(pv[i as int].1)),
                ));
            }
        }
    }
    es
}

/// The transition spec of job `name`, from the `needs:` and `if:` of the
/// jobs at positions `ks`.
fn build_next_spec(name: &str, jobs: &Vec<(String, GhaJob)>, ks: &Vec<usize>) -> (r: Option<NextSpec>)
    requires
        forall|t: int| 0 <= t < ks@.len() ==> ks@[t] < jobs@.len(),
    ensures
        next_matches(r, next_of(name@, ks@.map_values(|k: usize| job_views(jobs@)[k as int]))),
{
    let ts = transitions_from(name, jobs, ks);
    if ts.len() == 0 {
        return None;
    }
    let es = transition_mapping(&ts);
    Some(NextSpec::Mapping(es))
}

// ── Workflows ────────────────────────────────────────────────────────────────

/// The jobs that make the states: one per job name, a later job replacing
/// an earlier one of the same name.
pub open spec fn state_jobs(doc: GhaWorkflowDoc) -> Seq<(Seq<char>, GhaJob)> {
    dedup(job_views(doc.jobs@))
}

/// Whether `c` is the state configuration derived from job `job` named
/// `name` of document `doc`.
pub open spec fn config_matches(c: StateConfig, name: Seq<char>, job: GhaJob, doc: GhaWorkflowDoc) -> bool {
    &&& c.kind == Some(kind_of(job, has_dependents(doc.jobs@, name)))
    &&& (os(c.role), c.cost, os(c.prompt)) == agent_config(job.steps@)
    &&& c.execution_target == target_of(job)
    &&& os(c.command) == command_of(job.steps@)
    &&& os(c.workflow) == workflow_ref_of(job)
    &&& next_matches(c.next, next_of(name, state_jobs(doc)))
    &&& c.description is None && c.function is None && c.actor is None && c.trigger is None
    &&& c.workflows is None && c.poll_cmd is None && c.ci_job is None && c.completion is None
    &&& c.cleanup is None && c.gates is None
}

/// Whether `w` is the workflow derived from `doc`.
pub open spec fn derived_from(w: BlueprintWorkflow, doc: GhaWorkflowDoc) -> bool {
    let jobs = state_jobs(doc);
    &&& os(w.name) == os(doc.name)
    &&& os(w.initial_state) == initial_of(doc.jobs@)
    &&& match cron_of(doc.on) {
        Some(c) => w.schedule matches Some(s) && s.cron@ == c && s.description is None,
        None => w.schedule is None,
    }
    &&& match trigger_of(doc.on) {
        Some((e, p)) => w.trigger matches Some(t) && os(t.event) == e && os(t.pattern) == p
            && t.branch_constraint is None && t.ci_entry is None,
        None => w.trigger is None,
    }
    &&& w.states@.len() == jobs.len()
    &&& states_match(w.states@, jobs, doc, jobs.len() as int)
}

/// Whether the first `n` states are derived from the first `n` jobs.
pub open spec fn states_match(states: Seq<(String, StateConfig)>, jobs: Seq<(Seq<char>, GhaJob)>, doc: GhaWorkflowDoc, n: int) -> bool {
    forall|i: int|
        0 <= i < n ==> (#[trigger] states[i]).0@ == jobs[i].0 && config_matches(states[i].1, jobs[i].0, jobs[i].1, doc)
}

impl BlueprintWorkflow {
    /// Derives the state machine of a GHA document: one state per job, the
    /// first job without `needs:` as the initial state (else the first job),
    /// the schedule and manual trigger from `on:`, each state's kind, agent
    /// configuration, command, delegated workflow and execution target from
    /// the job, and its transitions from the jobs that need it.
    pub fn from_gha(doc: GhaWorkflowDoc) -> (r: BlueprintWorkflow)
        ensures
            derived_from(r, doc),
    {
        let schedule = extract_schedule(&doc.on);
        let trigger = extract_trigger(&doc.on);
        let initial_state = initial_state(&doc.jobs);
        let ks = last_jobs(&doc.jobs);
        let ghost jobs = state_jobs(doc);
        let mut states: Vec<(String, StateConfig)> = Vec::new();
        let m: usize = ks.len();
        let mut t: usize = 0;
        while t < m
            invariant
                m == ks@.len(),
                t <= m,
                forall|x: int| 0 <= x < ks@.len() ==> ks@[x] < doc.jobs@.len(),
                jobs == ks@.map_values(|k: usize| job_views(doc.jobs@)[k as int]),
                jobs == state_jobs(doc),
                states@.len() == t,
                states_match(states@, jobs, doc, t as int),
            decreases m - t,
        {
            let k = ks[t];
            let name = &doc.jobs[k].0;
            let job = &doc.jobs[k].1;
            proof {
                assert(jobs[t as int] == job_views(doc.jobs@)[k as int]);
                assert(jobs[t as int] == (name@, *job));
            }
            let kind = derive_kind(job, dependents_contain(&doc.jobs, name.as_str()));
            let (role, cost, prompt) = extract_agent_config(job);
            let command = extract_command(job);
            let workflow = extract_workflow_ref(job);
            let execution_target = derive_execution_target(job);
            let next = build_next_spec(name.as_str(), &doc.jobs, &ks);
            let config = StateConfig {
                kind: Some(kind),
                role,
                cost,
                description: None,
                prompt,
                execution_target,
                function: None,
                command,
                workflow,
                actor: None,
                trigger: None,
                workflows: None,
                poll_cmd: None,
                ci_job: None,
                completion: None,
                cleanup: None,
                gates: None,
                next,
            };
            proof {
                assert(config_matches(config, name@, *job, doc));
            }
            let ghost before = states@;
            states.push((name.clone(), config));
            proof {
                assert forall|i: int| 0 <= i < t + 1 implies (#[trigger] states@[i]).0@ == jobs[i].0 && config_matches(
                    states@[i].1,
                    jobs[i].0,
                    jobs[i].1,
                    doc,
                ) by {
                    if i < t {
                        assert(states@[i] == before[i]);
                    }
                }
            }
            t = t + 1;
        }
        BlueprintWorkflow { name: doc.name, initial_state, schedule, trigger, states }
    }
}

// ── Well-formedness of derived workflows ─────────────────────────────────────

/// The transition targets a state configuration names.
pub open spec fn config_targets(c: StateConfig) -> Seq<Seq<char>> {
    match c.next {
        Some(n) => crate::blueprint_workflows::spec_targets(crate::blueprint_workflows::spec_entries(n)),
        None => Seq::empty(),
    }
}

/// Whether some state of `w` is named `n`.
pub open spec fn names_state(w: BlueprintWorkflow, n: Seq<char>) -> bool {
    exists|i: int| 0 <= i < w.states@.len() && #[trigger] w.states@[i].0@ == n
}

/// Every entry kept by `last_entries` is an entry of the list.
proof fn lemma_last_entries_from<V>(s: Seq<(Seq<char>, V)>, n: nat, x: (Seq<char>, V))
    requires
        n <= s.len(),
        last_entries(s, n).contains(x),
    ensures
        s.contains(x),
    decreases n,
{
    if n > 0 {
        let prev = last_entries(s, (n - 1) as nat);
        if last_of_key(s, n - 1) && x == s[n - 1] {
        } else {
            if last_of_key(s, n - 1) {
                let j = choose|j: int| 0 <= j < last_entries(s, n).len() && last_entries(s, n)[j] == x;
                assert(prev.push(s[n - 1])[j] == x);
                if j < prev.len() {
                    assert(prev[j] == x);
                }
            }
            lemma_last_entries_from(s, (n - 1) as nat, x);
        }
    }
}

/// The last entry with a key is kept by `last_entries`.
proof fn lemma_last_entries_keeps<V>(s: Seq<(Seq<char>, V)>, n: nat, k: int)
    requires
        n <= s.len(),
        0 <= k < n,
        last_of_key(s, k),
    ensures
        last_entries(s, n).contains(s[k]),
    decreases n,
{
    let prev = last_entries(s, (n - 1) as nat);
    if k == n - 1 {
        assert(prev.push(s[k])[prev.len() as int] == s[k]);
    } else {
        lemma_last_entries_keeps(s, (n - 1) as nat, k);
        let j = choose|j: int| 0 <= j < prev.len() && prev[j] == s[k];
        if last_of_key(s, n - 1) {
            assert(prev.push(s[n - 1])[j] == s[k]);
        }
    }
}

/// Every key of a list is the key of an entry `dedup` keeps.
proof fn lemma_dedup_keeps_key<V>(s: Seq<(Seq<char>, V)>, k: int)
    requires
        0 <= k < s.len(),
    ensures
        exists|j: int| 0 <= j < dedup(s).len() && #[trigger] dedup(s)[j].0 == s[k].0,
    decreases s.len() - k,
{
    if last_of_key(s, k) {
        lemma_last_entries_keeps(s, s.len(), k);
        let j = choose|j: int| 0 <= j < dedup(s).len() && dedup(s)[j] == s[k];
        assert(dedup(s)[j].0 == s[k].0);
    } else {
        let later = choose|j: int| k < j < s.len() && s[j].0 == s[k].0;
        lemma_dedup_keeps_key(s, later);
    }
}

/// Every target of the transitions into `jobs` is the name of one of them.
proof fn lemma_transition_targets(name: Seq<char>, jobs: Seq<(Seq<char>, GhaJob)>, x: (Seq<char>, Seq<char>))
    requires
        transitions(name, jobs).contains(x),
    ensures
        exists|j: int| 0 <= j < jobs.len() && #[trigger] jobs[j].0 == x.1,
    decreases jobs.len(),
{
    let prev = transitions(name, jobs.drop_last());
    let last = job_transitions(name, jobs.last());
    let i = choose|i: int| 0 <= i < transitions(name, jobs).len() && transitions(name, jobs)[i] == x;
    if i < prev.len() {
        assert((prev + last)[i] == prev[i]);
        assert(prev.contains(x));
        lemma_transition_targets(name, jobs.drop_last(), x);
        let j = choose|j: int| 0 <= j < jobs.drop_last().len() && #[trigger] jobs.drop_last()[j].0 == x.1;
        assert(jobs[j].0 == x.1);
    } else {
        assert((prev + last)[i] == last[i - prev.len()]);
        assert(jobs[jobs.len() - 1].0 == x.1);
    }
}

/// Every target a transition mapping lists is the target of one of its pairs.
proof fn lemma_mapping_targets(ts: Seq<(Seq<char>, Seq<char>)>, t: Seq<char>)
    requires
        crate::blueprint_workflows::spec_targets(mapping_entries(ts)).contains(t),
    ensures
        exists|i: int| 0 <= i < ts.len() && #[trigger] ts[i].1 == t,
    decreases ts.len(),
{
    let es = mapping_entries(ts);
    assert(es.drop_last() =~= mapping_entries(ts.drop_last()));
    let prev = crate::blueprint_workflows::spec_targets(mapping_entries(ts.drop_last()));
    let last = ts.last();
    if last.0 == "on"@ {
        assert(crate::blueprint_workflows::spec_targets(es) == prev);
    } else {
        assert(crate::blueprint_workflows::spec_targets(es) == prev.push(last.1));
    }
    if prev.contains(t) {
        lemma_mapping_targets(ts.drop_last(), t);
        let i = choose|i: int| 0 <= i < ts.drop_last().len() && #[trigger] ts.drop_last()[i].1 == t;
        assert(ts[i].1 == t);
    } else {
        let i = choose|i: int| 0 <= i < crate::blueprint_workflows::spec_targets(es).len()
            && crate::blueprint_workflows::spec_targets(es)[i] == t;
        assert(prev.push(last.1)[i] == t);
        assert(ts[ts.len() - 1].1 == t);
    }
}

/// A workflow derived from a GHA document is closed: its initial state, when
/// there is one, is one of its states, and every transition of every state
/// targets one of its states.
pub proof fn lemma_derived_workflow_closed(doc: GhaWorkflowDoc, w: BlueprintWorkflow)
    requires
        derived_from(w, doc),
    ensures
        w.initial_state matches Some(s) ==> names_state(w, s@),
        forall|i: int, t: Seq<char>|
            0 <= i < w.states@.len() && #[trigger] config_targets(w.states@[i].1).contains(t) ==> names_state(w, t),
{
    let jobs = state_jobs(doc);
    let jv = job_views(doc.jobs@);
    if w.initial_state is Some {
        let s = w.initial_state->0;
        let k = if exists|i: int| first_root(doc.jobs@, i) { choose|i: int| first_root(doc.jobs@, i) } else { 0 };
        assert(jv[k].0 == s@);
        lemma_dedup_keeps_key(jv, k);
        let j = choose|j: int| 0 <= j < dedup(jv).len() && #[trigger] dedup(jv)[j].0 == jv[k].0;
        assert(w.states@[j].0@ == s@);
    }
    assert forall|i: int, t: Seq<char>|
        0 <= i < w.states@.len() && #[trigger] config_targets(w.states@[i].1).contains(t) implies names_state(w, t) by {
        let n = w.states@[i].1.next->0;
        assert(config_matches(w.states@[i].1, jobs[i].0, jobs[i].1, doc));
        let ts = transitions(jobs[i].0, jobs);
        assert(ts.len() > 0);
        let d = dedup(ts);
        assert(crate::blueprint_workflows::spec_entries(n) == mapping_entries(d));
        lemma_mapping_targets(d, t);
        let p = choose|p: int| 0 <= p < d.len() && #[trigger] d[p].1 == t;
        assert(d.contains(d[p]));
        lemma_last_entries_from(ts, ts.len(), d[p]);
        lemma_transition_targets(jobs[i].0, jobs, d[p]);
        let j = choose|j: int| 0 <= j < jobs.len() && #[trigger] jobs[j].0 == d[p].1;
        assert(w.states@[j].0@ == t);
    }
}

} // verus!
