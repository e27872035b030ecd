//! Workflow interpreter: drives execution through the blueprint workflow graph.
//!
//! The registry holds every loaded workflow by name.  Execution is tracked as
//! a `(workflow, state)` position plus a call stack: entering a `kind:
//! workflow` state pushes a frame and moves to the sub-workflow's initial
//! state; reaching a terminal state inside a sub-workflow pops the frame and
//! follows the parent state's transition named after the terminal state.
use crate::blueprint_workflows::{
    copy_opt, os, spec_target_for, state_of, BlueprintWorkflow, StateConfig, StateKind,
};
use crate::named::{get_named, get_of, keys_sorted, lemma_get_after_put, put, put_all, put_named};
use crate::text::{owned, str_eq, views};
use vstd::prelude::*;

verus! {

// ── Entry points ─────────────────────────────────────────────────────────────

/// A classified entry point discovered by scanning all workflows.
#[derive(Debug, Clone, PartialEq, Eq)]
pub enum EntryPoint {
    /// The initial state is `kind: human`: a user must act to start it.
    UserAction { workflow: String, description: Option<String>, prompt: Option<String> },
    /// Has a `trigger:` block: started by an external event.
    EventTriggered { workflow: String, event: String, pattern: Option<String> },
    /// Has a `schedule:` block: started on a cron schedule.
    CronScheduled { workflow: String, cron: String, description: Option<String> },
    /// No explicit trigger: starts automatically.
    AutoStart { workflow: String, description: Option<String> },
}

/// The value of an entry point.
pub enum EntryView {
    UserAction { workflow: Seq<char>, description: Option<Seq<char>>, prompt: Option<Seq<char>> },
    EventTriggered { workflow: Seq<char>, event: Seq<char>, pattern: Option<Seq<char>> },
    CronScheduled { workflow: Seq<char>, cron: Seq<char>, description: Option<Seq<char>> },
    AutoStart { workflow: Seq<char>, description: Option<Seq<char>> },
}

impl View for EntryPoint {
    type V = EntryView;

    open spec fn view(&self) -> EntryView {
        match self {
            EntryPoint::UserAction { workflow, description, prompt } => EntryView::UserAction {
                workflow: workflow@,
                description: os(*description),
                prompt: os(*prompt),
            },
            EntryPoint::EventTriggered { workflow, event, pattern } => EntryView::EventTriggered {
                workflow: workflow@,
                event: event@,
                pattern: os(*pattern),
            },
            EntryPoint::CronScheduled { workflow, cron, description } => EntryView::CronScheduled {
                workflow: workflow@,
                cron: cron@,
                description: os(*description),
            },
            EntryPoint::AutoStart { workflow, description } => EntryView::AutoStart {
                workflow: workflow@,
                description: os(*description),
            },
        }
    }
}

impl EntryPoint {
    /// The workflow this entry point starts.
    pub fn workflow(&self) -> (r: &str)
        ensures
            r@ == entry_workflow(self@),
    {
        match self {
            EntryPoint::UserAction { workflow, .. } => workflow.as_str(),
            EntryPoint::EventTriggered { workflow, .. } => workflow.as_str(),
            EntryPoint::CronScheduled { workflow, .. } => workflow.as_str(),
            EntryPoint::AutoStart { workflow, .. } => workflow.as_str(),
        }
    }
}

pub open spec fn entry_workflow(e: EntryView) -> Seq<char> {
    match e {
        EntryView::UserAction { workflow, .. } => workflow,
        EntryView::EventTriggered { workflow, .. } => workflow,
        EntryView::CronScheduled { workflow, .. } => workflow,
        EntryView::AutoStart { workflow, .. } => workflow,
    }
}

// ── Cron scheduling ──────────────────────────────────────────────────────────

#[verifier::external_type_specification]
#[verifier::external_body]
pub struct ExSchedule(cron::Schedule);

/// Whether `<cron::Schedule as FromStr>::from_str` accepts an expression:
/// a function of the text alone, which the cron crate's grammar decides.
pub uninterp spec fn cron_parses(expr: Seq<char>) -> bool;

/// Parses a cron expression (`<cron::Schedule as FromStr>::from_str`),
/// giving the parse error's text on failure.
///
/// Trusted: it succeeds exactly on the expressions the cron crate accepts
/// (`cron_parses`); which those are, and the schedule and error text, are
/// not stated.
#[verifier::external_body]
fn parse_cron(expr: &str) -> (r: Result<cron::Schedule, String>)
    ensures
        r is Ok <==> cron_parses(expr@),
{
    expr.parse::<cron::Schedule>().map_err(|e| e.to_string())
}

/// The next fire of a cron expression strictly after a UTC instant, as
/// cron computes it (the expression parsed as a `cron::Schedule`, the
/// instant made a `DateTime<Utc>`, then `Schedule::after(..).next()`), as
/// seconds and nanoseconds since the epoch; `None` when the expression does
/// not parse or the schedule has no later fire.  A function of the
/// expression and the instant alone.
pub uninterp spec fn cron_next(expr: Seq<char>, secs: int, nanos: nat) -> Option<(int, nat)>;

/// The latest second handed to cron: the end of year 9999 (cron adds a
/// second to the instant, which must stay within chrono's range).
pub const CRON_MAX_SECS: i64 = 253_402_300_799;

/// The next fire of `expr` after the instant `(secs, nanos)`
/// (`str::parse::<cron::Schedule>`, `DateTime::<Utc>::from_timestamp`,
/// `Schedule::after(..).next()`, then `DateTime::timestamp` and
/// `timestamp_subsec_nanos`).
///
/// Trusted: the result is named (`cron_next`), not spelled out.
#[verifier::external_body]
fn cron_next_after(expr: &str, secs: i64, nanos: u32) -> (r: Option<(i64, u32)>)
    requires
        -CRON_MAX_SECS <= secs <= CRON_MAX_SECS,
        nanos < 1_000_000_000,
    ensures
        match r {
            Some(t) => cron_next(expr@, secs as int, nanos as nat) == Some((t.0 as int, t.1 as nat)),
            None => cron_next(expr@, secs as int, nanos as nat) is None,
        },
{
    let schedule = expr.parse::<cron::Schedule>().ok()?;
    let now = chrono::DateTime::<chrono::Utc>::from_timestamp(secs, nanos)?;
    schedule.after(&now).next().map(|t| (t.timestamp(), t.timestamp_subsec_nanos()))
}

/// The wait from the instant `(s, n)` to the instant `(t, m)`, as seconds and
/// nanoseconds below a second; zero when `(t, m)` is not later.
pub open spec fn wait_between(t: int, m: int, s: int, n: int) -> (int, int) {
    let d = (t - s) * 1_000_000_000 + m - n;
    if d <= 0 {
        (0, 0)
    } else {
        (d / 1_000_000_000, d % 1_000_000_000)
    }
}

/// The wait from now `(s, n)` to a fire instant `(t, m)` (seconds and
/// nanoseconds) is zero when the fire instant is not later; otherwise its
/// nanoseconds are below a second and adding it to now gives the fire
/// instant exactly.
pub proof fn lemma_wait_reaches_fire_instant(t: int, m: int, s: int, n: int)
    requires
        0 <= m < 1_000_000_000,
        0 <= n < 1_000_000_000,
    ensures
        !(t > s || (t == s && m > n)) ==> wait_between(t, m, s, n) == (0int, 0int),
        (t > s || (t == s && m > n)) ==> {
            let w = wait_between(t, m, s, n);
            &&& 0 <= w.0
            &&& 0 <= w.1 < 1_000_000_000
            &&& (s + w.0) * 1_000_000_000 + n + w.1 == t * 1_000_000_000 + m
        },
{
    let d = (t - s) * 1_000_000_000 + m - n;
    if t > s {
        assert((t - s) * 1_000_000_000 >= 1_000_000_000) by (nonlinear_arith)
            requires
                t > s,
        ;
    } else if t < s {
        assert((t - s) * 1_000_000_000 <= -1_000_000_000) by (nonlinear_arith)
            requires
                t < s,
        ;
    }
    if d > 0 {
        let q = d / 1_000_000_000;
        let r = d % 1_000_000_000;
        assert(d == q * 1_000_000_000 + r && 0 <= r < 1_000_000_000 && q >= 0) by (nonlinear_arith)
            requires
                d > 0,
                q == d / 1_000_000_000,
                r == d % 1_000_000_000,
        ;
        assert((s + q) * 1_000_000_000 == s * 1_000_000_000 + q * 1_000_000_000) by (nonlinear_arith);
        assert((t - s) * 1_000_000_000 == t * 1_000_000_000 - s * 1_000_000_000) by (nonlinear_arith);
    }
}

/// The wait from the instant `(s, n)` to the instant `(t, m)`.
pub fn wait_until(t: i64, m: u32, s: i64, n: u32) -> (r: (u64, u32))
    requires
        -CRON_MAX_SECS <= s <= CRON_MAX_SECS,
    ensures
        (r.0 as int, r.1 as int) == wait_between(t as int, m as int, s as int, n as int),
{
    let d: i128 = (t as i128 - s as i128) * 1_000_000_000i128 + m as i128 - n as i128;
    if d <= 0 {
        (0, 0)
    } else {
        let q: i128 = d / 1_000_000_000i128;
        let rem: i128 = d % 1_000_000_000i128;
        assert(q <= (t as int - s as int) + 5) by (nonlinear_arith)
            requires
                d == (t as int - s as int) * 1_000_000_000 + m as int - n as int,
                d > 0,
                q == d / 1_000_000_000,
                m < 4_294_967_296,
                n >= 0,
        ;
        assert(0 <= rem < 1_000_000_000);
        assert(q >= 0);
        (q as u64, rem as u32)
    }
}

/// The current instant as handed to cron: the clock, held within the years
/// cron is given.
fn clock_for_cron() -> (r: (i64, u32))
    ensures
        -CRON_MAX_SECS <= r.0 <= CRON_MAX_SECS,
        r.1 < 1_000_000_000,
{
    let (secs, nanos) = crate::timefmt::clock_instant();
    let s: i64 = if secs > CRON_MAX_SECS {
        CRON_MAX_SECS
    } else if secs < -CRON_MAX_SECS {
        -CRON_MAX_SECS
    } else {
        secs
    };
    (s, nanos)
}

/// The error for an expression with no upcoming fire.
pub open spec fn no_fire_message(expr: Seq<char>) -> Seq<char> {
    "cron expression '"@ + expr + "' has no upcoming fires"@
}

/// The wait until the next fire of a cron expression (six fields, second
/// granularity: `sec min hour day month weekday`), as seconds and
/// nanoseconds.
///
/// An expression the cron crate rejects gives an `invalid cron expression`
/// error.  For an accepted one, the clock is read once (an instant `now`),
/// and the result is the wait from `now` to the next fire cron finds after
/// it (zero when that is not later), or an error when there is none.
pub fn next_fire_in(cron_expr: &str) -> (r: Result<(u64, u32), String>)
    ensures
        !cron_parses(cron_expr@) ==> (r matches Err(m) && m@.len() >= 25 + cron_expr@.len() && m@.take(
            25 + cron_expr@.len() as int,
        ) == "invalid cron expression '"@ + cron_expr@),
        cron_parses(cron_expr@) ==> exists|s: i64, n: u32|
            -CRON_MAX_SECS <= s <= CRON_MAX_SECS && n < 1_000_000_000 && match #[trigger] cron_next(cron_expr@, s as int, n as nat) {
                Some(t) => r matches Ok(d) && (d.0 as int, d.1 as int) == wait_between(t.0, t.1 as int, s as int, n as int),
                None => r matches Err(m) && m@ == no_fire_message(cron_expr@),
            },
{
    match parse_cron(cron_expr) {
        Ok(_) => {},
        Err(e) => {
            let mut m = String::from_str("invalid cron expression '");
            m.append(cron_expr);
            let ghost head = m@;
            m.append("': ");
            m.append(e.as_str());
            proof {
                reveal_strlit("invalid cron expression '");
                assert(m@.take(25 + cron_expr@.len() as int) =~= head);
            }
            return Err(m);
        },
    }
    let (s, n) = clock_for_cron();
    let r = match cron_next_after(cron_expr, s, n) {
        Some((t, m)) => Ok(wait_until(t, m, s, n)),
        None => {
            let mut m = String::from_str("cron expression '");
            m.append(cron_expr);
            m.append("' has no upcoming fires");
            Err(m)
        },
    };
    proof {
        assert(-CRON_MAX_SECS <= s <= CRON_MAX_SECS && n < 1_000_000_000 && match cron_next(cron_expr@, s as int, n as nat) {
            Some(t) => r matches Ok(d) && (d.0 as int, d.1 as int) == wait_between(t.0, t.1 as int, s as int, n as int),
            None => r matches Err(m) && m@ == no_fire_message(cron_expr@),
        });
    }
    r
}

// ── Position & call stack ────────────────────────────────────────────────────

/// Position in the workflow graph: a workflow name and a state name.
#[derive(Debug, Clone, PartialEq, Eq)]
pub struct WorkflowPosition {
    pub workflow: String,
    pub state: String,
}

/// A frame of the call stack: the parent workflow and the state that
/// delegated to a sub-workflow.
#[derive(Debug, Clone, PartialEq, Eq)]
pub struct CallFrame {
    pub workflow: String,
    pub state: String,
}

/// Persistent execution state: the current position and the call stack.
#[derive(Debug, Clone, PartialEq, Eq)]
pub struct WorkflowExecutionState {
    pub position: WorkflowPosition,
    pub call_stack: Vec<CallFrame>,
}

/// A position (or frame) as `(workflow, state)`.
pub type Spot = (Seq<char>, Seq<char>);

/// The value of an execution state.
pub struct ExecView {
    pub position: Spot,
    pub call_stack: Seq<Spot>,
}

impl View for WorkflowPosition {
    type V = Spot;

    open spec fn view(&self) -> Spot {
        (self.workflow@, self.state@)
    }
}

impl View for CallFrame {
    type V = Spot;

    open spec fn view(&self) -> Spot {
        (self.workflow@, self.state@)
    }
}

pub open spec fn frame_views(s: Seq<CallFrame>) -> Seq<Spot> {
    s.map_values(|f: CallFrame| f@)
}

impl View for WorkflowExecutionState {
    type V = ExecView;

    open spec fn view(&self) -> ExecView {
        ExecView { position: self.position@, call_stack: frame_views(self.call_stack@) }
    }
}

impl WorkflowPosition {
    /// An exact copy.
    pub fn duplicate(&self) -> (r: WorkflowPosition)
        ensures
            r@ == self@,
    {
        WorkflowPosition { workflow: self.workflow.clone(), state: self.state.clone() }
    }
}

// ── Step outcome ─────────────────────────────────────────────────────────────

/// The result of advancing one step.
#[derive(Debug, Clone, PartialEq, Eq)]
pub enum StepOutcome {
    /// Moved to a new state within the current workflow.
    Advanced(WorkflowPosition),
    /// Entered a sub-workflow through a `kind: workflow` state.
    EnteredSubWorkflow { parent: WorkflowPosition, child: WorkflowPosition },
    /// A sub-workflow reached a terminal state; execution returned to the parent.
    ReturnedToParent { terminal_state: String, parent: WorkflowPosition },
    /// Reached a terminal state at the root: execution is complete.
    Terminal(WorkflowPosition),
    /// Invalid state, missing workflow, missing transition, ...
    Error(String),
}

/// The value of a step outcome.
pub enum OutcomeView {
    Advanced(Spot),
    Entered { parent: Spot, child: Spot },
    Returned { terminal_state: Seq<char>, parent: Spot },
    Terminal(Spot),
    Error(Seq<char>),
}

impl View for StepOutcome {
    type V = OutcomeView;

    open spec fn view(&self) -> OutcomeView {
        match self {
            StepOutcome::Advanced(p) => OutcomeView::Advanced(p@),
            StepOutcome::EnteredSubWorkflow { parent, child } => OutcomeView::Entered {
                parent: parent@,
                child: child@,
            },
            StepOutcome::ReturnedToParent { terminal_state, parent } => OutcomeView::Returned {
                terminal_state: terminal_state@,
                parent: parent@,
            },
            StepOutcome::Terminal(p) => OutcomeView::Terminal(p@),
            StepOutcome::Error(e) => OutcomeView::Error(e@),
        }
    }
}

// ── Messages ─────────────────────────────────────────────────────────────────

pub open spec fn msg_workflow_missing(n: Seq<char>) -> Seq<char> {
    "workflow '"@ + n + "' not found"@
}

pub open spec fn msg_no_initial(n: Seq<char>) -> Seq<char> {
    "workflow '"@ + n + "' has no initial_state"@
}

pub open spec fn msg_state_missing(st: Seq<char>, wf: Seq<char>) -> Seq<char> {
    "state '"@ + st + "' not found in workflow '"@ + wf + "'"@
}

pub open spec fn msg_no_next(st: Seq<char>, wf: Seq<char>) -> Seq<char> {
    "state '"@ + st + "' in '"@ + wf + "' has no next transitions"@
}

pub open spec fn msg_no_transition(st: Seq<char>, wf: Seq<char>, ev: Seq<char>) -> Seq<char> {
    "state '"@ + st + "' in '"@ + wf + "' has no transition for event '"@ + ev + "'"@
}

pub open spec fn msg_target_missing(t: Seq<char>, wf: Seq<char>) -> Seq<char> {
    "transition target '"@ + t + "' not found in workflow '"@ + wf + "'"@
}

pub open spec fn msg_parent_missing(st: Seq<char>, wf: Seq<char>) -> Seq<char> {
    "parent state '"@ + st + "' in '"@ + wf + "' not found when popping call stack"@
}

pub open spec fn msg_parent_no_next(st: Seq<char>, wf: Seq<char>) -> Seq<char> {
    "parent state '"@ + st + "' in '"@ + wf + "' has no next transitions"@
}

pub open spec fn msg_parent_no_handler(st: Seq<char>, wf: Seq<char>, term: Seq<char>) -> Seq<char> {
    "parent state '"@ + st + "' in '"@ + wf + "' has no handler for terminal '"@ + term + "'"@
}

pub open spec fn msg_no_workflow_field(d: Seq<char>) -> Seq<char> {
    "state '"@ + d + "' is kind: workflow but has no workflow field"@
}

pub open spec fn msg_sub_missing(n: Seq<char>) -> Seq<char> {
    "sub-workflow '"@ + n + "' not found in registry"@
}

pub open spec fn msg_sub_no_initial(n: Seq<char>) -> Seq<char> {
    "sub-workflow '"@ + n + "' has no initial_state"@
}

// ── Registry ─────────────────────────────────────────────────────────────────

/// The workflow stored under a name.
pub open spec fn reg_get(ws: Seq<(String, BlueprintWorkflow)>, name: Seq<char>) -> Option<BlueprintWorkflow> {
    get_of(ws, name)
}

/// The configuration of state `st` in workflow `wf`.
pub open spec fn reg_state(ws: Seq<(String, BlueprintWorkflow)>, wf: Seq<char>, st: Seq<char>) -> Option<StateConfig> {
    match reg_get(ws, wf) {
        Some(w) => state_of(w, st),
        None => None,
    }
}

/// Registry of loaded workflow definitions, in name order.
pub struct WorkflowRegistry {
    workflows: Vec<(String, BlueprintWorkflow)>,
}

impl WorkflowRegistry {
    #[verifier::type_invariant]
    spec fn well_formed(&self) -> bool {
        keys_sorted(self.workflows@)
    }

    /// The `(name, workflow)` pairs, in strictly increasing name order.
    pub closed spec fn entries(&self) -> Seq<(String, BlueprintWorkflow)> {
        self.workflows@
    }

    /// A registry holding each workflow of `list` under its name; a later
    /// pair replaces an earlier one of the same name.
    pub fn from_workflows(list: Vec<(String, BlueprintWorkflow)>) -> (r: WorkflowRegistry)
        ensures
            r.entries() == put_all(Seq::<(String, BlueprintWorkflow)>::empty(), list@),
            keys_sorted(r.entries()),
    {
        let mut ws: Vec<(String, BlueprintWorkflow)> = Vec::new();
        let mut list = list;
        let ghost all = list@;
        let n: usize = list.len();
        let mut rest: Vec<(String, BlueprintWorkflow)> = Vec::new();
        // Process in order: reverse into `rest` and pop.
        while list.len() > 0
            invariant
                list@.len() + rest@.len() == n,
                all == list@ + rest@.reverse(),
            decreases list@.len(),
        {
            let ghost before_list = list@;
            let ghost before_rest = rest@;
            let p = list.pop().unwrap();
            rest.push(p);
            proof {
                assert(before_list == list@.push(p));
                assert(rest@.reverse() =~= seq![p] + before_rest.reverse());
                assert(all =~= list@ + rest@.reverse());
            }
        }
        proof {
            assert(all =~= rest@.reverse());
            assert(all.skip(0) =~= all);
        }
        let mut i: usize = 0;
        while rest.len() > 0
            invariant
                rest@.len() + i == n,
                all.skip(i as int) == rest@.reverse(),
                i <= n,
                all.len() == n,
                keys_sorted(ws@),
                ws@ == put_all(Seq::<(String, BlueprintWorkflow)>::empty(), all.take(i as int)),
            decreases rest@.len(),
        {
            let ghost before_rest = rest@;
            let ghost old_skip = all.skip(i as int);
            let p = rest.pop().unwrap();
            proof {
                assert(before_rest == rest@.push(p));
                assert(before_rest.reverse() =~= seq![p] + rest@.reverse());
                assert(all.skip(i as int)[0] == p);
                assert(all[i as int] == p);
                assert(all.take(i + 1).drop_last() =~= all.take(i as int));
                assert(all.take(i + 1).last() == p);
            }
            put_named(&mut ws, p.0, p.1);
            i = i + 1;
            proof {
                assert(old_skip =~= seq![old_skip[0]] + rest@.reverse());
                assert(all.skip(i as int) =~= old_skip.drop_first());
                assert(old_skip.drop_first() =~= rest@.reverse());
            }
        }
        proof {
            assert(all.take(n as int) =~= all);
        }
        WorkflowRegistry { workflows: ws }
    }

    /// Looks up a workflow by name.
    pub fn get(&self, name: &str) -> (r: Option<&BlueprintWorkflow>)
        ensures
            match reg_get(self.entries(), name@) {
                Some(w) => r matches Some(x) && *x == w,
                None => r is None,
            },
    {
        proof {
            use_type_invariant(self);
        }
        get_named(&self.workflows, name)
    }

    /// All workflow names, in name order.
    pub fn names(&self) -> (r: Vec<&str>)
        ensures
            r@.len() == self.entries().len(),
            forall|i: int| 0 <= i < r@.len() ==> #[trigger] r@[i]@ == self.entries()[i].0@,
    {
        let mut out: Vec<&str> = Vec::new();
        let n: usize = self.workflows.len();
        for i in 0..n
            invariant
                n == self.workflows@.len(),
                out@.len() == i,
                forall|k: int| 0 <= k < i ==> #[trigger] out@[k]@ == self.workflows@[k].0@,
        {
            out.push(self.workflows[i].0.as_str());
        }
        out
    }

    /// The number of workflows.
    pub fn len(&self) -> (n: usize)
        ensures
            n == self.entries().len(),
    {
        self.workflows.len()
    }

    /// The `i`-th `(name, workflow)` pair in name order.
    pub fn entry(&self, i: usize) -> (r: &(String, BlueprintWorkflow))
        requires
            i < self.entries().len(),
        ensures
            *r == self.entries()[i as int],
    {
        &self.workflows[i]
    }

    /// Looks up the configuration of a state within a workflow.
    pub fn get_state(&self, workflow: &str, state: &str) -> (r: Option<&StateConfig>)
        ensures
            match reg_state(self.entries(), workflow@, state@) {
                Some(c) => r matches Some(x) && *x == c,
                None => r is None,
            },
    {
        match self.get(workflow) {
            Some(w) => w.state(state),
            None => None,
        }
    }
}

// ── Sub-workflows and entry points ───────────────────────────────────────────

/// State `j` of the `i`-th workflow is a `kind: workflow` state that
/// delegates to the workflow named `n`.
pub open spec fn delegates_in(ws: Seq<(String, BlueprintWorkflow)>, i: int, j: int, n: Seq<char>) -> bool {
    &&& 0 <= i < ws.len()
    &&& 0 <= j < ws[i].1.states@.len()
    &&& ws[i].1.states@[j].1.kind == Some(StateKind::Workflow)
    &&& os(ws[i].1.states@[j].1.workflow) == Some(n)
}

/// Some state of some workflow delegates to `n`.
pub open spec fn is_sub_workflow(ws: Seq<(String, BlueprintWorkflow)>, n: Seq<char>) -> bool {
    exists|i: int, j: int| #[trigger] delegates_in(ws, i, j, n)
}

/// A state before state `j` of workflow `i` delegates to `n`.
pub open spec fn delegated_before(ws: Seq<(String, BlueprintWorkflow)>, i: int, j: int, n: Seq<char>) -> bool {
    exists|a: int, b: int| #[trigger] delegates_in(ws, a, b, n) && (a < i || (a == i && b < j))
}

/// The entry point a workflow offers, if any.
pub open spec fn entry_for(name: Seq<char>, w: BlueprintWorkflow, is_sub: bool) -> Option<EntryView> {
    if is_sub && w.schedule is None && w.trigger is None {
        None
    } else {
        Some(
            match w.schedule {
                Some(s) => EntryView::CronScheduled { workflow: name, cron: s.cron@, description: os(s.description) },
                None => match w.trigger {
                    Some(t) => EntryView::EventTriggered {
                        workflow: name,
                        event: match os(t.event) {
                            Some(e) => e,
                            None => Seq::empty(),
                        },
                        pattern: os(t.pattern),
                    },
                    None => {
                        let init = match os(w.initial_state) {
                            Some(s) => state_of(w, s),
                            None => None,
                        };
                        match init {
                            Some(c) => if c.kind == Some(StateKind::Human) {
                                EntryView::UserAction { workflow: name, description: os(c.description), prompt: os(c.prompt) }
                            } else {
                                EntryView::AutoStart { workflow: name, description: os(c.description) }
                            },
                            None => EntryView::AutoStart { workflow: name, description: None },
                        }
                    },
                },
            },
        )
    }
}

/// The entry points of the first `k` workflows, in name order.
pub open spec fn spec_entry_points(ws: Seq<(String, BlueprintWorkflow)>, k: int) -> Seq<EntryView>
    decreases k,
{
    if k <= 0 {
        Seq::empty()
    } else {
        let prev = spec_entry_points(ws, k - 1);
        match entry_for(ws[k - 1].0@, ws[k - 1].1, is_sub_workflow(ws, ws[k - 1].0@)) {
            Some(e) => prev.push(e),
            None => prev,
        }
    }
}

pub open spec fn entry_views(v: Seq<EntryPoint>) -> Seq<EntryView> {
    v.map_values(|e: EntryPoint| e@)
}

/// Whether the list holds the string `s`.
fn contains_string(v: &Vec<String>, s: &str) -> (b: bool)
    ensures
        b == views(v@).contains(s@),
{
    let n: usize = v.len();
    for i in 0..n
        invariant
            n == v@.len(),
            forall|k: int| 0 <= k < i ==> #[trigger] v@[k]@ != s@,
    {
        if str_eq(v[i].as_str(), s) {
            proof {
                assert(views(v@)[i as int] == s@);
            }
            return true;
        }
    }
    proof {
        if views(v@).contains(s@) {
            let k = choose|k: int| 0 <= k < views(v@).len() && views(v@)[k] == s@;
            assert(v@[k]@ == s@);
        }
    }
    false
}

impl WorkflowRegistry {
    /// The names of the workflows that some `kind: workflow` state delegates
    /// to (pure sub-workflows), each once, in order of first reference.
    pub fn sub_workflow_names(&self) -> (r: Vec<String>)
        ensures
            views(r@).no_duplicates(),
            forall|n: Seq<char>| views(r@).contains(n) <==> is_sub_workflow(self.entries(), n),
    {
        let ghost ws = self.entries();
        let mut names: Vec<String> = Vec::new();
        let n: usize = self.workflows.len();
        proof {
            assert forall|x: Seq<char>| views(names@).contains(x) <==> delegated_before(ws, 0, 0, x) by {
                if delegated_before(ws, 0, 0, x) {
                    let (a, b) = choose|a: int, b: int| #[trigger] delegates_in(ws, a, b, x) && (a < 0 || (a == 0 && b < 0));
                }
            }
        }
        for i in 0..n
            invariant
                n == ws.len(),
                ws == self.workflows@,
                views(names@).no_duplicates(),
                forall|x: Seq<char>| views(names@).contains(x) <==> delegated_before(ws, i as int, 0, x),
        {
            let states = &self.workflows[i].1.states;
            let m: usize = states.len();
            for j in 0..m
                invariant
                    n == ws.len(),
                    ws == self.workflows@,
                    0 <= i < n,
                    *states == ws[i as int].1.states,
                    m == states@.len(),
                    views(names@).no_duplicates(),
                    forall|x: Seq<char>| views(names@).contains(x) <==> delegated_before(ws, i as int, j as int, x),
            {
                let c = &states[j].1;
                let ghost before = names@;
                if matches!(c.kind, Some(StateKind::Workflow)) {
                    match &c.workflow {
                        Some(t) => {
                            if !contains_string(&names, t.as_str()) {
                                names.push(t.clone());
                                proof {
                                    assert(views(names@) =~= views(before).push(t@));
                                }
                            }
                        },
                        None => {},
                    }
                }
                proof {
                    assert forall|x: Seq<char>| views(names@).contains(x) <==> delegated_before(ws, i as int, j + 1, x) by {
                        if delegated_before(ws, i as int, j + 1, x) {
                            let (a, b) = choose|a: int, b: int| #[trigger] delegates_in(ws, a, b, x) && (a < i || (a == i && b < j + 1));
                            if a == i && b == j {
                                assert(x == t_of(c));
                                if !views(before).contains(x) {
                                    assert(views(names@).last() == x);
                                }
                            } else {
                                assert(delegated_before(ws, i as int, j as int, x));
                                assert(views(before).contains(x));
                                let k = choose|k: int| 0 <= k < views(before).len() && views(before)[k] == x;
                                assert(views(names@)[k] == x);
                            }
                        }
                        if views(names@).contains(x) {
                            if views(before).contains(x) {
                                let (a, b) = choose|a: int, b: int| #[trigger] delegates_in(ws, a, b, x) && (a < i || (a == i && b < j));
                                assert(delegates_in(ws, a, b, x) && (a < i || (a == i && b < j + 1)));
                            } else {
                                let k = choose|k: int| 0 <= k < views(names@).len() && views(names@)[k] == x;
                                assert(k == before.len());
                                assert(delegates_in(ws, i as int, j as int, x));
                            }
                        }
                    }
                }
            }
            proof {
                assert forall|x: Seq<char>| views(names@).contains(x) <==> delegated_before(ws, i + 1, 0, x) by {
                    if delegated_before(ws, i + 1, 0, x) {
                        let (a, b) = choose|a: int, b: int| #[trigger] delegates_in(ws, a, b, x) && (a < i + 1 || (a == i + 1 && b < 0));
                        assert(delegates_in(ws, a, b, x) && (a < i || (a == i && b < m)));
                    }
                    if delegated_before(ws, i as int, m as int, x) {
                        let (a, b) = choose|a: int, b: int| #[trigger] delegates_in(ws, a, b, x) && (a < i || (a == i && b < m));
                        assert(delegates_in(ws, a, b, x) && (a < i + 1 || (a == i + 1 && b < 0)));
                    }
                }
            }
        }
        proof {
            assert forall|x: Seq<char>| views(names@).contains(x) <==> is_sub_workflow(ws, x) by {
                if is_sub_workflow(ws, x) {
                    let (a, b) = choose|a: int, b: int| #[trigger] delegates_in(ws, a, b, x);
                    assert(delegates_in(ws, a, b, x) && (a < n || (a == n && b < 0)));
                }
            }
        }
        names
    }

    /// Every workflow's entry point, in name order: pure sub-workflows are
    /// left out unless they carry a `schedule` or `trigger` block.
    pub fn entry_points(&self) -> (r: Vec<EntryPoint>)
        ensures
            entry_views(r@) == spec_entry_points(self.entries(), self.entries().len() as int),
    {
        let ghost ws = self.entries();
        let subs = self.sub_workflow_names();
        let mut entries: Vec<EntryPoint> = Vec::new();
        let n: usize = self.workflows.len();
        for i in 0..n
            invariant
                n == ws.len(),
                ws == self.workflows@,
                forall|x: Seq<char>| views(subs@).contains(x) <==> is_sub_workflow(ws, x),
                entry_views(entries@) == spec_entry_points(ws, i as int),
        {
            let name = &self.workflows[i].0;
            let wf = &self.workflows[i].1;
            let is_sub = contains_string(&subs, name.as_str());
            let ghost before = entries@;
            let entry: Option<EntryPoint> = if is_sub && wf.schedule.is_none() && wf.trigger.is_none() {
                None
            } else {
                match &wf.schedule {
                    Some(sc) => Some(EntryPoint::CronScheduled {
                        workflow: name.clone(),
                        cron: sc.cron.clone(),
                        description: copy_opt(&sc.description),
                    }),
                    None => match &wf.trigger {
                        Some(t) => Some(EntryPoint::EventTriggered {
                            workflow: name.clone(),
                            event: match &t.event {
                                Some(e) => e.clone(),
                                None => String::new(),
                            },
                            pattern: copy_opt(&t.pattern),
                        }),
                        None => {
                            let init: Option<&StateConfig> = match &wf.initial_state {
                                Some(s) => wf.state(s.as_str()),
                                None => None,
                            };
                            match init {
                                Some(c) => if matches!(c.kind, Some(StateKind::Human)) {
                                    Some(EntryPoint::UserAction {
                                        workflow: name.clone(),
                                        description: copy_opt(&c.description),
                                        prompt: copy_opt(&c.prompt),
                                    })
                                } else {
                                    Some(EntryPoint::AutoStart { workflow: name.clone(), description: copy_opt(&c.description) })
                                },
                                None => Some(EntryPoint::AutoStart { workflow: name.clone(), description: None }),
                            }
                        },
                    },
                }
            };
            proof {
                assert(opt_entry_view(entry) == entry_for(ws[i as int].0@, ws[i as int].1, is_sub_workflow(ws, ws[i as int].0@)));
            }
            match entry {
                Some(e) => {
                    entries.push(e);
                    proof {
                        assert(entry_views(entries@) =~= entry_views(before).push(e@));
                    }
                },
                None => {},
            }
        }
        entries
    }
}

pub open spec fn opt_entry_view(o: Option<EntryPoint>) -> Option<EntryView> {
    match o {
        Some(e) => Some(e@),
        None => None,
    }
}

pub open spec fn t_of(c: &StateConfig) -> Seq<char> {
    match c.workflow {
        Some(t) => t@,
        None => Seq::empty(),
    }
}

// ── Interpreter ──────────────────────────────────────────────────────────────

/// The next execution state and outcome of reaching terminal state `term`
/// (the current position) with execution state `e`.
pub open spec fn spec_terminal(ws: Seq<(String, BlueprintWorkflow)>, e: ExecView, term: Seq<char>) -> (ExecView, OutcomeView) {
    if e.call_stack.len() == 0 {
        (e, OutcomeView::Terminal(e.position))
    } else {
        let frame = e.call_stack.last();
        let popped = ExecView { position: e.position, call_stack: e.call_stack.drop_last() };
        match reg_state(ws, frame.0, frame.1) {
            None => (popped, OutcomeView::Error(msg_parent_missing(frame.1, frame.0))),
            Some(pc) => match pc.next {
                None => (popped, OutcomeView::Error(msg_parent_no_next(frame.1, frame.0))),
                Some(next) => match spec_target_for(next, term) {
                    None => (popped, OutcomeView::Error(msg_parent_no_handler(frame.1, frame.0, term))),
                    Some(pt) => (
                        ExecView { position: (frame.0, pt), call_stack: e.call_stack.drop_last() },
                        OutcomeView::Returned { terminal_state: term, parent: (frame.0, pt) },
                    ),
                },
            },
        }
    }
}

/// The next execution state and outcome of arriving at the `kind: workflow`
/// state `d` (the current position, configured by `c`).
pub open spec fn spec_enter(ws: Seq<(String, BlueprintWorkflow)>, e: ExecView, d: Seq<char>, c: StateConfig) -> (ExecView, OutcomeView) {
    match os(c.workflow) {
        None => (e, OutcomeView::Error(msg_no_workflow_field(d))),
        Some(sub) => match reg_get(ws, sub) {
            None => (e, OutcomeView::Error(msg_sub_missing(sub))),
            Some(w) => match os(w.initial_state) {
                None => (e, OutcomeView::Error(msg_sub_no_initial(sub))),
                Some(init) => (
                    ExecView { position: (sub, init), call_stack: e.call_stack.push((e.position.0, d)) },
                    OutcomeView::Entered { parent: e.position, child: (sub, init) },
                ),
            },
        },
    }
}

/// The next execution state and outcome of advancing `e` with `event`.
pub open spec fn spec_advance(ws: Seq<(String, BlueprintWorkflow)>, e: ExecView, event: Seq<char>) -> (ExecView, OutcomeView) {
    let wf = e.position.0;
    let st = e.position.1;
    match reg_state(ws, wf, st) {
        None => (e, OutcomeView::Error(msg_state_missing(st, wf))),
        Some(c) => match c.next {
            None => (e, OutcomeView::Error(msg_no_next(st, wf))),
            Some(next) => match spec_target_for(next, event) {
                None => (e, OutcomeView::Error(msg_no_transition(st, wf, event))),
                Some(t) => match reg_state(ws, wf, t) {
                    None => (e, OutcomeView::Error(msg_target_missing(t, wf))),
                    Some(tc) => {
                        let moved = ExecView { position: (wf, t), call_stack: e.call_stack };
                        match tc.kind {
                            Some(StateKind::Terminal) => spec_terminal(ws, moved, t),
                            Some(StateKind::Workflow) => spec_enter(ws, moved, t, tc),
                            _ => (moved, OutcomeView::Advanced((wf, t))),
                        }
                    },
                },
            },
        },
    }
}

/// The interpreter: drives execution through the workflow graph.
pub struct WorkflowInterpreter {
    pub registry: WorkflowRegistry,
}

impl WorkflowInterpreter {
    /// An interpreter over the given workflows.
    pub fn new(registry: WorkflowRegistry) -> (r: WorkflowInterpreter)
        ensures
            r.registry == registry,
    {
        WorkflowInterpreter { registry }
    }

    /// An execution state at the initial state of the named workflow, with an
    /// empty call stack.
    pub fn start(&self, workflow_name: &str) -> (r: Result<WorkflowExecutionState, String>)
        ensures
            match reg_get(self.registry.entries(), workflow_name@) {
                None => r matches Err(m) && m@ == msg_workflow_missing(workflow_name@),
                Some(w) => match os(w.initial_state) {
                    None => r matches Err(m) && m@ == msg_no_initial(workflow_name@),
                    Some(init) => r matches Ok(x) && x@ == ExecView {
                        position: (workflow_name@, init),
                        call_stack: Seq::empty(),
                    },
                },
            },
    {
        let wf = match self.registry.get(workflow_name) {
            Some(w) => w,
            None => {
                let mut m = String::from_str("workflow '");
                m.append(workflow_name);
                m.append("' not found");
                return Err(m);
            },
        };
        let initial = match &wf.initial_state {
            Some(s) => s,
            None => {
                let mut m = String::from_str("workflow '");
                m.append(workflow_name);
                m.append("' has no initial_state");
                return Err(m);
            },
        };
        let r = WorkflowExecutionState {
            position: WorkflowPosition { workflow: owned(workflow_name), state: initial.clone() },
            call_stack: Vec::new(),
        };
        proof {
            assert(frame_views(r.call_stack@) =~= Seq::<Spot>::empty());
        }
        Ok(r)
    }

    /// The configuration of the current state.
    pub fn current_state_config(&self, exec: &WorkflowExecutionState) -> (r: Option<&StateConfig>)
        ensures
            match reg_state(self.registry.entries(), exec@.position.0, exec@.position.1) {
                Some(c) => r matches Some(x) && *x == c,
                None => r is None,
            },
    {
        self.registry.get_state(exec.position.workflow.as_str(), exec.position.state.as_str())
    }

    /// The kind of the current state.
    pub fn current_kind(&self, exec: &WorkflowExecutionState) -> (r: Option<StateKind>)
        ensures
            r == match reg_state(self.registry.entries(), exec@.position.0, exec@.position.1) {
                Some(c) => c.kind,
                None => None,
            },
    {
        match self.current_state_config(exec) {
            Some(c) => c.kind,
            None => None,
        }
    }

    /// Every entry point of the loaded workflows.
    pub fn entry_points(&self) -> (r: Vec<EntryPoint>)
        ensures
            entry_views(r@) == spec_entry_points(self.registry.entries(), self.registry.entries().len() as int),
    {
        self.registry.entry_points()
    }

    /// Advances the execution state with the outcome `event` of the current
    /// state (`"on_success"`, `"on_pass"`, an `on:` event key, ...).
    pub fn advance(&self, exec: &mut WorkflowExecutionState, event: &str) -> (r: StepOutcome)
        ensures
            (final(exec)@, r@) == spec_advance(self.registry.entries(), old(exec)@, event@),
    {
        let ghost ws = self.registry.entries();
        let ghost e0 = exec@;
        let cfg = match self.current_state_config(exec) {
            Some(c) => c,
            None => {
                let mut m = String::from_str("state '");
                m.append(exec.position.state.as_str());
                m.append("' not found in workflow '");
                m.append(exec.position.workflow.as_str());
                m.append("'");
                return StepOutcome::Error(m);
            },
        };
        let next = match &cfg.next {
            Some(n) => n,
            None => {
                let mut m = String::from_str("state '");
                m.append(exec.position.state.as_str());
                m.append("' in '");
                m.append(exec.position.workflow.as_str());
                m.append("' has no next transitions");
                return StepOutcome::Error(m);
            },
        };
        let target: String = match next.target_for(event) {
            Some(t) => owned(t),
            None => {
                let mut m = String::from_str("state '");
                m.append(exec.position.state.as_str());
                m.append("' in '");
                m.append(exec.position.workflow.as_str());
                m.append("' has no transition for event '");
                m.append(event);
                m.append("'");
                return StepOutcome::Error(m);
            },
        };
        let target_cfg = match self.registry.get_state(exec.position.workflow.as_str(), target.as_str()) {
            Some(c) => c,
            None => {
                let mut m = String::from_str("transition target '");
                m.append(target.as_str());
                m.append("' not found in workflow '");
                m.append(exec.position.workflow.as_str());
                m.append("'");
                return StepOutcome::Error(m);
            },
        };
        let target_kind = target_cfg.kind;
        exec.position.state = target.clone();
        let new_pos = exec.position.duplicate();
        proof {
            assert(exec@ == ExecView { position: (e0.position.0, target@), call_stack: e0.call_stack });
        }
        match target_kind {
            Some(StateKind::Terminal) => self.handle_terminal(exec, target, new_pos),
            Some(StateKind::Workflow) => self.handle_workflow_entry(exec, target, target_cfg),
            _ => StepOutcome::Advanced(new_pos),
        }
    }

    /// Arriving at a terminal state: pop the call stack or finish.
    fn handle_terminal(&self, exec: &mut WorkflowExecutionState, terminal_name: String, terminal_pos: WorkflowPosition) -> (r: StepOutcome)
        requires
            terminal_pos@ == old(exec)@.position,
            terminal_name@ == old(exec)@.position.1,
        ensures
            (final(exec)@, r@) == spec_terminal(self.registry.entries(), old(exec)@, terminal_name@),
    {
        let ghost e0 = exec@;
        let frame = match exec.call_stack.pop() {
            Some(f) => f,
            None => {
                proof {
                    assert(e0.call_stack =~= Seq::<Spot>::empty());
                }
                return StepOutcome::Terminal(terminal_pos);
            },
        };
        proof {
            assert(frame_views(exec.call_stack@) =~= e0.call_stack.drop_last());
            assert(frame@ == e0.call_stack.last());
        }
        let parent_cfg = match self.registry.get_state(frame.workflow.as_str(), frame.state.as_str()) {
            Some(c) => c,
            None => {
                let mut m = String::from_str("parent state '");
                m.append(frame.state.as_str());
                m.append("' in '");
                m.append(frame.workflow.as_str());
                m.append("' not found when popping call stack");
                return StepOutcome::Error(m);
            },
        };
        let parent_next = match &parent_cfg.next {
            Some(n) => n,
            None => {
                let mut m = String::from_str("parent state '");
                m.append(frame.state.as_str());
                m.append("' in '");
                m.append(frame.workflow.as_str());
                m.append("' has no next transitions");
                return StepOutcome::Error(m);
            },
        };
        let parent_target: String = match parent_next.target_for(terminal_name.as_str()) {
            Some(t) => owned(t),
            None => {
                let mut m = String::from_str("parent state '");
                m.append(frame.state.as_str());
                m.append("' in '");
                m.append(frame.workflow.as_str());
                m.append("' has no handler for terminal '");
                m.append(terminal_name.as_str());
                m.append("'");
                return StepOutcome::Error(m);
            },
        };
        exec.position = WorkflowPosition { workflow: frame.workflow, state: parent_target };
        let parent = exec.position.duplicate();
        StepOutcome::ReturnedToParent { terminal_state: terminal_name, parent }
    }

    /// Arriving at a `kind: workflow` state: push a frame and enter the
    /// sub-workflow at its initial state.
    fn handle_workflow_entry(&self, exec: &mut WorkflowExecutionState, delegating_state: String, target_cfg: &StateConfig) -> (r: StepOutcome)
        requires
            delegating_state@ == old(exec)@.position.1,
        ensures
            (final(exec)@, r@) == spec_enter(self.registry.entries(), old(exec)@, delegating_state@, *target_cfg),
    {
        let ghost e0 = exec@;
        let sub_wf_name: String = match &target_cfg.workflow {
            Some(n) => n.clone(),
            None => {
                let mut m = String::from_str("state '");
                m.append(delegating_state.as_str());
                m.append("' is kind: workflow but has no workflow field");
                return StepOutcome::Error(m);
            },
        };
        let sub_wf = match self.registry.get(sub_wf_name.as_str()) {
            Some(w) => w,
            None => {
                let mut m = String::from_str("sub-workflow '");
                m.append(sub_wf_name.as_str());
                m.append("' not found in registry");
                return StepOutcome::Error(m);
            },
        };
        let sub_initial: String = match &sub_wf.initial_state {
            Some(s) => s.clone(),
            None => {
                let mut m = String::from_str("sub-workflow '");
                m.append(sub_wf_name.as_str());
                m.append("' has no initial_state");
                return StepOutcome::Error(m);
            },
        };
        let parent_pos = exec.position.duplicate();
        let frame = CallFrame { workflow: exec.position.workflow.clone(), state: delegating_state };
        exec.call_stack.push(frame);
        exec.position = WorkflowPosition { workflow: sub_wf_name, state: sub_initial };
        proof {
            assert(frame_views(exec.call_stack@) =~= e0.call_stack.push((e0.position.0, delegating_state@)));
        }
        let child = exec.position.duplicate();
        StepOutcome::EnteredSubWorkflow { parent: parent_pos, child }
    }
}

// ── Laws ─────────────────────────────────────────────────────────────────────

/// One step changes the call stack by at most one frame: entering a
/// sub-workflow pushes the delegating position; returning to the parent pops
/// the top frame and resumes in that frame's workflow; finishing happens only
/// with an empty stack; a plain advance stays in the same workflow; an error
/// leaves the stack as it was, or popped when the parent could not take the
/// terminal state.
pub proof fn lemma_advance_call_stack(ws: Seq<(String, BlueprintWorkflow)>, e: ExecView, event: Seq<char>)
    ensures
        ({
            let (e2, o) = spec_advance(ws, e, event);
            &&& (o matches OutcomeView::Entered { parent, child } ==> e2.call_stack == e.call_stack.push(parent)
                && e2.position == child && parent.0 == e.position.0)
            &&& (o matches OutcomeView::Returned { terminal_state, parent } ==> e.call_stack.len() > 0
                && e2.call_stack == e.call_stack.drop_last() && e2.position == parent && parent.0
                == e.call_stack.last().0)
            &&& (o matches OutcomeView::Terminal(p) ==> e.call_stack.len() == 0 && e2.call_stack
                == e.call_stack && e2.position == p && p.0 == e.position.0)
            &&& (o matches OutcomeView::Advanced(p) ==> e2.call_stack == e.call_stack && e2.position == p
                && p.0 == e.position.0)
            &&& (o is Error ==> e2.call_stack == e.call_stack || (e.call_stack.len() > 0 && e2.call_stack
                == e.call_stack.drop_last()))
        }),
{
}

/// Entering a sub-workflow and later returning from it at the same depth
/// restores the caller's call stack and resumes in the caller's workflow.
pub proof fn lemma_enter_then_return(
    ws: Seq<(String, BlueprintWorkflow)>,
    e: ExecView,
    enter_event: Seq<char>,
    later: ExecView,
    return_event: Seq<char>,
)
    requires
        spec_advance(ws, e, enter_event).1 is Entered,
        later.call_stack == spec_advance(ws, e, enter_event).0.call_stack,
        spec_advance(ws, later, return_event).1 is Returned,
    ensures
        spec_advance(ws, later, return_event).0.call_stack == e.call_stack,
        spec_advance(ws, later, return_event).0.position.0 == e.position.0,
{
    lemma_advance_call_stack(ws, e, enter_event);
    lemma_advance_call_stack(ws, later, return_event);
    assert(e.call_stack.push(spec_advance(ws, e, enter_event).0.call_stack.last()).drop_last() =~= e.call_stack);
}

/// Looking a name up in a registry built from a list gives the workflow of
/// the last pair with that name.
pub proof fn lemma_registry_last_wins(list: Seq<(String, BlueprintWorkflow)>, name: Seq<char>)
    ensures
        keys_sorted(put_all(Seq::<(String, BlueprintWorkflow)>::empty(), list)),
        reg_get(put_all(Seq::<(String, BlueprintWorkflow)>::empty(), list), name) == last_named(list, name),
    decreases list.len(),
{
    if list.len() > 0 {
        lemma_registry_last_wins(list.drop_last(), name);
        let p = list.last();
        let s = put_all(Seq::<(String, BlueprintWorkflow)>::empty(), list.drop_last());
        lemma_get_after_put(s, p.0, p.1, name);
        crate::named::lemma_put_sorted(s, p.0, p.1);
    }
}

/// The workflow of the last pair named `name`.
pub open spec fn last_named(list: Seq<(String, BlueprintWorkflow)>, name: Seq<char>) -> Option<BlueprintWorkflow>
    decreases list.len(),
{
    if list.len() == 0 {
        None
    } else if list.last().0@ == name {
        Some(list.last().1)
    } else {
        last_named(list.drop_last(), name)
    }
}

} // verus!
