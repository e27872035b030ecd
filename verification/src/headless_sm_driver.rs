//! Headless state-machine driver — executes a [`HeadlessStateMachine`] end to
//! end without any display.
//!
//! The driver loops until one of four things happens:
//!
//! 1. A `terminal` state is reached — [`ExitReason::Terminal`].
//! 2. A shutdown signal is received — [`ExitReason::Interrupted`].
//! 3. An agent or builtin step reports a fatal error — [`ExitReason::Error`].
//! 4. The step limit is reached — [`ExitReason::StepLimitReached`].
//!
//! | action     | resolution                                                  |
//! |------------|-------------------------------------------------------------|
//! | `agent`    | [`StepExecutor::run_agent`]: success → `on_success`, failure → `on_failure` |
//! | `builtin`  | [`StepExecutor::run_builtin`]: pass → `on_pass`, fail → `on_fail` |
//! | `loop`     | jumps unconditionally to `target`                           |
//! | `terminal` | stops with [`ExitReason::Terminal`]                         |
//!
//! Every state entered, every executor outcome, every transition taken and
//! the stop are appended to the run's log of [`DriverEvent`]s, which the
//! program writes out.
//!
//! When a snapshot path is configured, the driver records a snapshot through
//! a [`RunJournal`] before each state action and on every non-terminal exit,
//! and asks the journal to delete it after a terminal exit.
use crate::headless_persist::{ExitReasonTag, HeadlessRunState};
use crate::headless_sm::{
    graph_well_formed, state_names, ActionView, HeadlessAction, HeadlessStateMachine, MachineView,
};
use crate::signal::{signal_name, ShutdownSignal};
use crate::text::{decimal, str_eq};
use vstd::prelude::*;

verus! {

/// Default upper bound on the number of steps the driver executes.
pub const DEFAULT_MAX_STEPS: usize = 10000;

/// Outcome of one `agent` step.
#[derive(Debug, Clone, PartialEq, Eq)]
pub enum AgentOutcome {
    /// The agent completed successfully.
    Success,
    /// The agent completed with a recoverable failure.
    Failure { reason: String },
    /// The agent hit a fatal error.
    Error { error: String },
}

/// Outcome of one `builtin` step.
#[derive(Debug, Clone, PartialEq, Eq)]
pub enum BuiltinOutcome {
    /// The check passed.
    Pass,
    /// The check did not pass (normal, not an error).
    Fail { reason: String },
    /// The evaluation hit a fatal error.
    Error { error: String },
}

/// Pluggable execution layer for agent and builtin steps.
///
/// An executor may describe the answers it gives (`agent_answer`,
/// `builtin_answer`); one that does not describes none (any answer).
pub trait StepExecutor {
    /// Whether `o` is an answer this executor gives for the agent of `state`.
    open spec fn agent_answer(&self, state: Seq<char>, o: AgentView) -> bool {
        true
    }

    /// Whether `o` is an answer this executor gives for the builtin `builtin`
    /// of `state`.
    open spec fn builtin_answer(&self, state: Seq<char>, builtin: Seq<char>, o: BuiltinView) -> bool {
        true
    }

    /// Run an `agent` action for the given state.
    fn run_agent(&self, state_name: &str) -> (r: AgentOutcome)
        ensures
            self.agent_answer(state_name@, agent_view(r)),
    ;

    /// Evaluate a `builtin` function for the given state and builtin key.
    fn run_builtin(&self, state_name: &str, builtin_key: &str) -> (r: BuiltinOutcome)
        ensures
            self.builtin_answer(state_name@, builtin_key@, builtin_view(r)),
    ;
}

/// A log event is one the executor answered: an agent or builtin outcome in
/// the log is an answer the executor gives for that state (and builtin).
pub open spec fn event_answered<E: StepExecutor>(e: E, ev: EventView) -> bool {
    match ev {
        EventView::Agent { state, outcome } => e.agent_answer(state, outcome),
        EventView::Builtin { state, builtin, outcome } => e.builtin_answer(state, builtin, outcome),
        _ => true,
    }
}

/// Every event of a stretch of the log is one the executor answered.
pub open spec fn answered<E: StepExecutor>(e: E, ev: Seq<EventView>) -> bool {
    forall|i: int| 0 <= i < ev.len() ==> event_answered(e, #[trigger] ev[i])
}

/// A request the driver makes of a journal.
pub enum JournalRequest {
    /// Write a snapshot at `path`: the run is at `state` in `iteration`, or
    /// stopped there for `reason` with `detail`.
    Record { path: Seq<char>, state: Seq<char>, iteration: usize, reason: ExitReasonTag, detail: Option<Seq<char>> },
    /// Delete the snapshot at `path`.
    Clear { path: Seq<char> },
}

/// The text of an optional detail.
pub open spec fn detail_view(d: Option<String>) -> Option<Seq<char>> {
    match d {
        Some(s) => Some(s@),
        None => None,
    }
}

/// Where the driver's snapshots go.  The program implements it with files.
///
/// A journal that keeps a log of the requests it received
/// (`keeps_requests`) appends each request to `requests`.
pub trait RunJournal {
    /// Whether this journal keeps the log that `requests` gives; a journal
    /// keeps none unless it says so.
    open spec fn keeps_requests() -> bool {
        false
    }

    /// The requests received so far, oldest first.
    open spec fn requests(&self) -> Seq<JournalRequest> {
        Seq::empty()
    }

    /// Record that the run is at `state` in `iteration` (for `Interrupted`
    /// with no detail: the position before a state's action runs), or that
    /// it stopped there for `reason`.
    fn record(&mut self, path: &str, state: &str, iteration: usize, reason: ExitReasonTag, detail: Option<String>)
        ensures
            Self::keeps_requests() ==> final(self).requests() == old(self).requests().push(
                JournalRequest::Record { path: path@, state: state@, iteration, reason, detail: detail_view(detail) },
            ),
    ;

    /// Delete the snapshot after a clean terminal exit.
    fn clear(&mut self, path: &str)
        ensures
            Self::keeps_requests() ==> final(self).requests() == old(self).requests().push(
                JournalRequest::Clear { path: path@ },
            ),
    ;
}

/// Sees each event of a run as the driver emits it, for example to write it
/// to a log at once.  Nothing is assumed of what an observer does: the run's
/// contract is stated over the events it appends to its log.
pub trait EventObserver {
    fn observe(&mut self, event: &DriverEvent);
}

/// An observer that does nothing.
pub struct NoObserver;

impl EventObserver for NoObserver {
    fn observe(&mut self, event: &DriverEvent) {
    }
}

/// A journal that records nothing.
pub struct NoJournal;

impl RunJournal for NoJournal {
    fn record(&mut self, path: &str, state: &str, iteration: usize, reason: ExitReasonTag, detail: Option<String>) {
    }

    fn clear(&mut self, path: &str) {
    }
}

/// The reason the driver stopped.
#[derive(Debug, Clone, PartialEq, Eq)]
pub enum ExitReason {
    /// A `terminal` state was reached.
    Terminal { state: String },
    /// A shutdown signal was received.
    Interrupted { signal: String },
    /// A fatal error occurred in `state`.
    Error { state: String, message: String },
    /// The step limit was reached before a terminal state.
    StepLimitReached { max_steps: usize },
}

/// An agent outcome as text.
pub enum AgentView {
    Success,
    Failure(Seq<char>),
    Error(Seq<char>),
}

pub open spec fn agent_view(o: AgentOutcome) -> AgentView {
    match o {
        AgentOutcome::Success => AgentView::Success,
        AgentOutcome::Failure { reason } => AgentView::Failure(reason@),
        AgentOutcome::Error { error } => AgentView::Error(error@),
    }
}

/// A builtin outcome as text.
pub enum BuiltinView {
    Pass,
    Fail(Seq<char>),
    Error(Seq<char>),
}

pub open spec fn builtin_view(o: BuiltinOutcome) -> BuiltinView {
    match o {
        BuiltinOutcome::Pass => BuiltinView::Pass,
        BuiltinOutcome::Fail { reason } => BuiltinView::Fail(reason@),
        BuiltinOutcome::Error { error } => BuiltinView::Error(error@),
    }
}

/// An exit reason as text.
pub enum ExitView {
    Terminal(Seq<char>),
    Interrupted(Seq<char>),
    Error(Seq<char>, Seq<char>),
    StepLimitReached(usize),
}

pub open spec fn exit_view(r: ExitReason) -> ExitView {
    match r {
        ExitReason::Terminal { state } => ExitView::Terminal(state@),
        ExitReason::Interrupted { signal } => ExitView::Interrupted(signal@),
        ExitReason::Error { state, message } => ExitView::Error(state@, message@),
        ExitReason::StepLimitReached { max_steps } => ExitView::StepLimitReached(max_steps),
    }
}

/// What the driver reports as it runs, in order: the run's log.
#[derive(Debug, Clone, PartialEq, Eq)]
pub enum DriverEvent {
    /// The run starts in `state` with the iteration counter at `iteration`;
    /// `resumed_from` holds the recorded run's exit reason when it continues
    /// a recorded run.
    Started { state: String, iteration: usize, resumed_from: Option<ExitReasonTag> },
    /// `state` is entered in iteration `iteration`; its action runs next.
    StateEntered { state: String, iteration: usize },
    /// The agent of `state` ran and reported `outcome`.
    AgentRan { state: String, outcome: AgentOutcome },
    /// The builtin `builtin` of `state` ran and reported `outcome`.
    BuiltinRan { state: String, builtin: String, outcome: BuiltinOutcome },
    /// The run moves from `from_state` to `to_state` by `transition`
    /// (`loop`, `on_success`, `on_failure`, `on_pass` or `on_fail`).
    TransitionSelected { from_state: String, to_state: String, transition: String },
    /// The run stops in `state` in iteration `iteration` for `reason`.
    Stopped { state: String, iteration: usize, reason: ExitReason },
}

/// A log event as text.
pub enum EventView {
    Started { state: Seq<char>, iteration: usize, resumed_from: Option<ExitReasonTag> },
    Entered { state: Seq<char>, iteration: usize },
    Agent { state: Seq<char>, outcome: AgentView },
    Builtin { state: Seq<char>, builtin: Seq<char>, outcome: BuiltinView },
    Transition { from: Seq<char>, to: Seq<char>, transition: Seq<char> },
    Stopped { state: Seq<char>, iteration: usize, exit: ExitView },
}

pub open spec fn event_view(e: DriverEvent) -> EventView {
    match e {
        DriverEvent::Started { state, iteration, resumed_from } => EventView::Started {
            state: state@,
            iteration,
            resumed_from,
        },
        DriverEvent::StateEntered { state, iteration } => EventView::Entered { state: state@, iteration },
        DriverEvent::AgentRan { state, outcome } => EventView::Agent { state: state@, outcome: agent_view(outcome) },
        DriverEvent::BuiltinRan { state, builtin, outcome } => EventView::Builtin {
            state: state@,
            builtin: builtin@,
            outcome: builtin_view(outcome),
        },
        DriverEvent::TransitionSelected { from_state, to_state, transition } => EventView::Transition {
            from: from_state@,
            to: to_state@,
            transition: transition@,
        },
        DriverEvent::Stopped { state, iteration, reason } => EventView::Stopped {
            state: state@,
            iteration,
            exit: exit_view(reason),
        },
    }
}

pub open spec fn events_view(s: Seq<DriverEvent>) -> Seq<EventView> {
    s.map_values(|e: DriverEvent| event_view(e))
}

/// The error message for a state the graph does not have.
pub open spec fn not_found_message(state: Seq<char>) -> Seq<char> {
    "state '"@ + state + "' not found in state graph"@
}

/// Whether an event is a stop for a received signal.
pub open spec fn is_signal_stop(e: EventView) -> bool {
    e matches EventView::Stopped { exit: ExitView::Interrupted(_), .. }
}

/// The run's log from the point where it is about to take step `steps` in
/// state `cur`, the iteration counter at `it`, is `ev`, and the run ends with
/// `x`.  Each iteration first counts the iteration; then, in order: at the
/// step limit the run stops; a received signal (only with a shutdown signal,
/// `sig`) stops it; a state the graph does not have is an error; otherwise
/// the state is entered and its action resolved: `terminal` stops, `loop`
/// moves to its target, an agent's success or failure moves to `on_success`
/// or `on_failure`, a builtin's pass or fail to `on_pass` or `on_fail`, and
/// an agent's or builtin's error stops the run with that error.
#[verifier::opaque]
pub open spec fn run_from(
    m: MachineView,
    cur: Seq<char>,
    steps: nat,
    limit: usize,
    it: nat,
    sig: bool,
    ev: Seq<EventView>,
    x: ExitView,
) -> bool
    decreases limit - steps,
{
    let i = (it + 1) as usize;
    let stop = EventView::Stopped { state: cur, iteration: i, exit: x };
    if steps >= limit {
        ev == seq![stop] && x == ExitView::StepLimitReached(limit)
    } else if ev.len() > 0 && is_signal_stop(ev[0]) {
        sig && ev == seq![stop] && (x == ExitView::Interrupted("SIGINT"@) || x == ExitView::Interrupted("SIGTERM"@))
    } else {
        match action_of(m, cur) {
            None => ev == seq![stop] && x == ExitView::Error(cur, not_found_message(cur)),
            Some(a) => {
                &&& ev.len() >= 2
                &&& ev[0] == EventView::Entered { state: cur, iteration: i }
                &&& match a {
                    ActionView::Terminal => ev[1] == stop && ev.len() == 2 && x == ExitView::Terminal(cur),
                    ActionView::Loop { target } => {
                        &&& ev[1] == EventView::Transition { from: cur, to: target, transition: "loop"@ }
                        &&& run_from(m, target, steps + 1, limit, it + 1, sig, ev.skip(2), x)
                    },
                    ActionView::Agent { on_success, on_failure } => match ev[1] {
                        EventView::Agent { state, outcome } => state == cur && ev.len() >= 3 && match outcome {
                            AgentView::Error(e) => ev[2] == stop && ev.len() == 3 && x == ExitView::Error(cur, e),
                            AgentView::Success => {
                                &&& ev[2] == EventView::Transition { from: cur, to: on_success, transition: "on_success"@ }
                                &&& run_from(m, on_success, steps + 1, limit, it + 1, sig, ev.skip(3), x)
                            },
                            AgentView::Failure(_) => {
                                &&& ev[2] == EventView::Transition { from: cur, to: on_failure, transition: "on_failure"@ }
                                &&& run_from(m, on_failure, steps + 1, limit, it + 1, sig, ev.skip(3), x)
                            },
                        },
                        _ => false,
                    },
                    ActionView::Builtin { builtin, on_pass, on_fail } => match ev[1] {
                        EventView::Builtin { state, builtin: b, outcome } => state == cur && b == builtin && ev.len() >= 3
                            && match outcome {
                            BuiltinView::Error(e) => ev[2] == stop && ev.len() == 3 && x == ExitView::Error(cur, e),
                            BuiltinView::Pass => {
                                &&& ev[2] == EventView::Transition { from: cur, to: on_pass, transition: "on_pass"@ }
                                &&& run_from(m, on_pass, steps + 1, limit, it + 1, sig, ev.skip(3), x)
                            },
                            BuiltinView::Fail(_) => {
                                &&& ev[2] == EventView::Transition { from: cur, to: on_fail, transition: "on_fail"@ }
                                &&& run_from(m, on_fail, steps + 1, limit, it + 1, sig, ev.skip(3), x)
                            },
                        },
                        _ => false,
                    },
                }
            },
        }
    }
}

/// The snapshot requests a journal at `p` receives for one log event.
pub open spec fn event_requests(p: Seq<char>, e: EventView) -> Seq<JournalRequest> {
    match e {
        EventView::Entered { state, iteration } => seq![
            JournalRequest::Record { path: p, state, iteration, reason: ExitReasonTag::Interrupted, detail: None },
        ],
        EventView::Stopped { state, iteration, exit } => match exit {
            ExitView::Terminal(_) => seq![JournalRequest::Clear { path: p }],
            ExitView::Interrupted(signal) => seq![
                JournalRequest::Record { path: p, state, iteration, reason: ExitReasonTag::Interrupted, detail: Some(signal) },
            ],
            ExitView::Error(_, message) => seq![
                JournalRequest::Record { path: p, state, iteration, reason: ExitReasonTag::Error, detail: Some(message) },
            ],
            ExitView::StepLimitReached(max) => seq![
                JournalRequest::Record {
                    path: p,
                    state,
                    iteration,
                    reason: ExitReasonTag::StepLimitReached,
                    detail: Some("max_steps="@ + decimal(max as nat)),
                },
            ],
        },
        _ => Seq::empty(),
    }
}

/// The snapshot requests for a stretch of the log, in order.
pub open spec fn requests_of(p: Seq<char>, ev: Seq<EventView>) -> Seq<JournalRequest>
    decreases ev.len(),
{
    if ev.len() == 0 {
        Seq::empty()
    } else {
        requests_of(p, ev.drop_last()) + event_requests(p, ev.last())
    }
}

/// What one iteration of a run leads to.
pub enum StepResult {
    /// The run goes on in this state.
    Continue(String),
    /// The run stops for this reason.
    Stop(ExitReason),
}

/// What a step produced for the state's action.
pub enum StepEvent {
    /// No executor was involved (`loop`, `terminal`).
    Unconditional,
    /// An `agent` outcome.
    Agent(AgentOutcome),
    /// A `builtin` outcome.
    Builtin(BuiltinOutcome),
}

/// The state that follows an action given the outcome of its step, or `None`
/// when the run stops there (terminal state, fatal error, or an outcome that
/// does not belong to the action).
pub open spec fn spec_next(action: ActionView, event: StepEvent) -> Option<Seq<char>> {
    match (action, event) {
        (ActionView::Loop { target }, StepEvent::Unconditional) => Some(target),
        (ActionView::Agent { on_success, .. }, StepEvent::Agent(AgentOutcome::Success)) => Some(on_success),
        (ActionView::Agent { on_failure, .. }, StepEvent::Agent(AgentOutcome::Failure { .. })) => Some(on_failure),
        (ActionView::Builtin { on_pass, .. }, StepEvent::Builtin(BuiltinOutcome::Pass)) => Some(on_pass),
        (ActionView::Builtin { on_fail, .. }, StepEvent::Builtin(BuiltinOutcome::Fail { .. })) => Some(on_fail),
        _ => None,
    }
}

/// Whether `i` is the first position of a state named `name`.
pub open spec fn first_named(m: MachineView, name: Seq<char>, i: int) -> bool {
    0 <= i < m.states.len() && m.states[i].0 == name && forall|k: int| 0 <= k < i ==> m.states[k].0 != name
}

/// The action of the (first) state named `name`, if the graph has one.
pub open spec fn action_of(m: MachineView, name: Seq<char>) -> Option<ActionView> {
    if exists|i: int| first_named(m, name, i) {
        let i = choose|i: int| first_named(m, name, i);
        Some(m.states[i].1)
    } else {
        None
    }
}

/// Drives a [`HeadlessStateMachine`] to completion.
pub struct HeadlessSmDriver<'sm> {
    sm: &'sm HeadlessStateMachine,
    max_steps: usize,
    persist_path: Option<String>,
    resume_state: Option<HeadlessRunState>,
}

impl<'sm> HeadlessSmDriver<'sm> {
    /// The state machine being driven.
    pub closed spec fn machine(&self) -> HeadlessStateMachine {
        *self.sm
    }

    /// The configured step limit.
    pub closed spec fn step_limit(&self) -> usize {
        self.max_steps
    }

    /// The configured snapshot path.
    pub closed spec fn snapshot_path(&self) -> Option<Seq<char>> {
        match self.persist_path {
            Some(p) => Some(p@),
            None => None,
        }
    }

    /// The snapshot to resume from.
    pub closed spec fn resume(&self) -> Option<HeadlessRunState> {
        self.resume_state
    }

    /// The state the run starts in.
    pub open spec fn start_state(&self) -> Seq<char> {
        match self.resume() {
            Some(r) => r.current_state@,
            None => self.machine().initial_state@,
        }
    }

    /// The iteration counter the run starts from.
    pub open spec fn start_iteration(&self) -> nat {
        match self.resume() {
            Some(r) => r.iteration as nat,
            None => 0,
        }
    }

    /// A driver with the default step limit, no snapshots and no resume.
    pub fn new(sm: &'sm HeadlessStateMachine) -> (d: Self)
        ensures
            d.machine() == *sm,
            d.step_limit() == DEFAULT_MAX_STEPS,
            d.snapshot_path() is None,
            d.resume() is None,
    {
        HeadlessSmDriver { sm, max_steps: DEFAULT_MAX_STEPS, persist_path: None, resume_state: None }
    }

    /// Overrides the step limit.
    pub fn with_max_steps(self, max_steps: usize) -> (d: Self)
        ensures
            d.machine() == self.machine(),
            d.step_limit() == max_steps,
            d.snapshot_path() == self.snapshot_path(),
            d.resume() == self.resume(),
    {
        HeadlessSmDriver { max_steps, ..self }
    }

    /// Enables snapshots at `path`.
    pub fn with_persist_path(self, path: String) -> (d: Self)
        ensures
            d.machine() == self.machine(),
            d.step_limit() == self.step_limit(),
            d.snapshot_path() == Some(path@),
            d.resume() == self.resume(),
    {
        HeadlessSmDriver { persist_path: Some(path), ..self }
    }

    /// Resumes from a previously recorded snapshot: the run starts in
    /// `resume.current_state` with the iteration counter at
    /// `resume.iteration`.
    pub fn with_resume(self, resume: HeadlessRunState) -> (d: Self)
        ensures
            d.machine() == self.machine(),
            d.step_limit() == self.step_limit(),
            d.snapshot_path() == self.snapshot_path(),
            d.resume() == Some(resume),
    {
        HeadlessSmDriver { resume_state: Some(resume), ..self }
    }

    /// The snapshot path, if snapshots are enabled.
    pub fn persist_path(&self) -> (p: Option<&String>)
        ensures
            match self.snapshot_path() {
                Some(s) => p matches Some(x) && x@ == s,
                None => p is None,
            },
    {
        self.persist_path.as_ref()
    }

    /// Hands a snapshot request to the journal when snapshots are enabled;
    /// leaves the journal untouched otherwise.
    fn record<J: RunJournal>(&self, journal: &mut J, state: &str, iteration: usize, reason: ExitReasonTag, detail: Option<String>)
        ensures
            self.snapshot_path() is None ==> *final(journal) == *old(journal),
            J::keeps_requests() ==> (match self.snapshot_path() {
                Some(p) => final(journal).requests() == old(journal).requests().push(
                    JournalRequest::Record { path: p, state: state@, iteration, reason, detail: detail_view(detail) },
                ),
                None => true,
            }),
    {
        match &self.persist_path {
            Some(path) => journal.record(path.as_str(), state, iteration, reason, detail),
            None => {},
        }
    }

    fn state_index(&self, name: &str) -> (r: Option<usize>)
        ensures
            match r {
                Some(i) => first_named(self.sm@, name@, i as int),
                None => !state_names(self.sm@.states).contains(name@),
            },
    {
        let n: usize = self.sm.states.len();
        for i in 0..n
            invariant
                n == self.sm.states@.len(),
                forall|k: int| 0 <= k < i ==> self.sm.states@[k].name@ != name@,
        {
            if str_eq(self.sm.states[i].name.as_str(), name) {
                proof {
                    assert forall|k: int| 0 <= k < i implies self.sm@.states[k].0 != name@ by {
                        assert(self.sm@.states[k].0 == self.sm.states@[k].name@);
                    }
                }
                return Some(i);
            }
        }
        proof {
            let names = state_names(self.sm@.states);
            assert forall|k: int| 0 <= k < names.len() implies names[k] != name@ by {
                assert(names[k] == self.sm.states@[k].name@);
            }
        }
        None
    }

    /// Executes the state machine until it stops, and says why it stopped.
    ///
    /// The run starts in the initial state (or the resumed state) and steps
    /// through the graph; each executed state counts one step.  The step
    /// limit is checked before the shutdown signal, which is checked before
    /// the state is looked up.  Everything the run does is appended to
    /// `log`, each event shown to `observer` as it is appended: a `Started`
    /// event, then per step the entered state, what the
    /// executor reported and the transition taken, and last the stop
    /// (`run_from`).  With a snapshot path, the journal is asked to record
    /// each entered state and each non-terminal stop, and to clear the
    /// snapshot after a terminal stop (`requests_of`).
    pub fn run<E: StepExecutor, J: RunJournal, O: EventObserver>(
        &self,
        executor: &E,
        journal: &mut J,
        log: &mut Vec<DriverEvent>,
        observer: &mut O,
        shutdown: Option<&ShutdownSignal>,
    ) -> (r: ExitReason)
        requires
            self.start_iteration() + self.step_limit() < usize::MAX,
        ensures
            self.step_limit() == 0 ==> r == (ExitReason::StepLimitReached { max_steps: 0 }),
            match r {
                ExitReason::Terminal { state } => action_of(self.machine()@, state@) == Some(
                    ActionView::Terminal,
                ),
                ExitReason::Interrupted { signal } => shutdown is Some && (signal@ == "SIGINT"@
                    || signal@ == "SIGTERM"@),
                ExitReason::Error { state, .. } => match action_of(self.machine()@, state@) {
                    None => !(graph_well_formed(self.machine()@) && state_names(
                        self.machine()@.states,
                    ).contains(self.start_state())),
                    Some(a) => a is Agent || a is Builtin,
                },
                ExitReason::StepLimitReached { max_steps } => max_steps == self.step_limit(),
            },
            final(log)@.len() > old(log)@.len(),
            events_view(final(log)@).take(old(log)@.len() as int) == events_view(old(log)@),
            events_view(final(log)@)[old(log)@.len() as int] == (EventView::Started {
                state: self.start_state(),
                iteration: self.start_iteration() as usize,
                resumed_from: match self.resume() {
                    Some(r) => Some(r.exit_reason),
                    None => None,
                },
            }),
            run_from(
                self.machine()@,
                self.start_state(),
                0,
                self.step_limit(),
                self.start_iteration(),
                shutdown is Some,
                events_view(final(log)@).skip(old(log)@.len() as int + 1),
                exit_view(r),
            ),
            answered(*executor, events_view(final(log)@).skip(old(log)@.len() as int + 1)),
            self.snapshot_path() is None ==> *final(journal) == *old(journal),
            J::keeps_requests() ==> (match self.snapshot_path() {
                Some(p) => final(journal).requests() == old(journal).requests() + requests_of(
                    p,
                    events_view(final(log)@).skip(old(log)@.len() as int + 1),
                ),
                None => true,
            }),
    {
        let ghost m = self.sm@;
        let ghost wf_start = graph_well_formed(m) && state_names(m.states).contains(self.start_state());
        let ghost n0: int = old(log)@.len() as int;
        let ghost ev_old = events_view(old(log)@);
        let ghost j0 = *old(journal);
        let ghost sig = shutdown is Some;
        let ghost start = self.start_state();
        let ghost it0 = self.start_iteration();
        let ghost path = self.snapshot_path();
        let ghost limit = self.max_steps;
        let (mut current, mut iteration, resumed_from) = match &self.resume_state {
            Some(prev) => (prev.current_state.clone(), prev.iteration, Some(prev.exit_reason)),
            None => (self.sm.initial_state.clone(), 0usize, None),
        };
        emit(log, observer, DriverEvent::Started { state: current.clone(), iteration, resumed_from });
        proof {
            assert(events_view(log@).take(n0) =~= ev_old);
            assert(events_view(log@).skip(n0 + 1) =~= Seq::<EventView>::empty());
            assert(requests_of(path->Some_0, Seq::<EventView>::empty()) =~= Seq::<JournalRequest>::empty());
            assert(j0.requests() + Seq::<JournalRequest>::empty() =~= j0.requests());
            assert forall|t: Seq<EventView>, x: ExitView|
                #[trigger] run_from(m, current@, 0, limit, iteration as nat, sig, t, x) implies run_from(
                m,
                start,
                0,
                limit,
                it0,
                sig,
                events_view(log@).skip(n0 + 1) + t,
                x,
            ) by {
                assert(Seq::<EventView>::empty() + t =~= t);
            }
        }
        let mut steps_taken: usize = 0;
        loop
            invariant
                m == self.sm@,
                limit == self.max_steps,
                sig == (shutdown is Some),
                start == self.start_state(),
                it0 == self.start_iteration(),
                path == self.snapshot_path(),
                n0 == old(log)@.len(),
                ev_old == events_view(old(log)@),
                j0 == *old(journal),
                wf_start == (graph_well_formed(m) && state_names(m.states).contains(self.start_state())),
                steps_taken <= self.max_steps,
                iteration == self.start_iteration() + steps_taken,
                self.start_iteration() + self.max_steps < usize::MAX,
                wf_start ==> state_names(m.states).contains(current@),
                steps_taken == 0 ==> current@ == self.start_state(),
                log@.len() > n0,
                events_view(log@).take(n0) == ev_old,
                events_view(log@)[n0] == (EventView::Started {
                    state: start,
                    iteration: it0 as usize,
                    resumed_from: match self.resume() {
                    Some(r) => Some(r.exit_reason),
                    None => None,
                },
                }),
                forall|t: Seq<EventView>, x: ExitView|
                    #[trigger] run_from(m, current@, steps_taken as nat, limit, iteration as nat, sig, t, x)
                        ==> run_from(m, start, 0, limit, it0, sig, events_view(log@).skip(n0 + 1) + t, x),
                path is None ==> *journal == j0,
                J::keeps_requests() ==> (match path {
                    Some(p) => journal.requests() == j0.requests() + requests_of(p, events_view(log@).skip(n0 + 1)),
                    None => true,
                }),
                answered(*executor, events_view(log@).skip(n0 + 1)),
            decreases self.max_steps - steps_taken,
        {
            let ghost it_head = iteration as nat;
            let ghost steps_head = steps_taken as nat;
            let ghost tr = events_view(log@).skip(n0 + 1);
            let ghost cur = current@;
            let ghost lh = events_view(log@);
            let ghost jh = *journal;
            proof {
                assert(forall|t: Seq<EventView>, x: ExitView|
                    #[trigger] run_from(m, cur, steps_head, limit, it_head, sig, t, x)
                        ==> run_from(m, start, 0, limit, it0, sig, tr + t, x));
            }
            let step = self.take_step(executor, journal, log, observer, &current, iteration, steps_taken, shutdown);
            let ghost c = events_view(log@).skip(lh.len() as int);
            proof {
                assert(events_view(log@) =~= lh + c);
                assert forall|i: int| 0 <= i < (tr + c).len() implies event_answered(*executor, #[trigger] (tr + c)[i]) by {
                    if i < tr.len() {
                        assert((tr + c)[i] == tr[i]);
                    } else {
                        assert((tr + c)[i] == c[i - tr.len()]);
                    }
                }
                assert(events_view(log@).skip(n0 + 1) =~= tr + c);
                assert(events_view(log@).take(n0) =~= lh.take(n0));
                assert(events_view(log@)[n0] == lh[n0]);
                if J::keeps_requests() && path is Some {
                    lemma_requests_concat(path->Some_0, tr, c);
                    assert(journal.requests() =~= j0.requests() + requests_of(path->Some_0, tr + c));
                }
            }
            match step {
                StepResult::Stop(r) => {
                    proof {
                        assert(stop_chunk(m, cur, steps_head, limit, it_head, sig, c, exit_view(r)));
                        lemma_stop(m, cur, steps_head, limit, it_head, sig, c, exit_view(r));
                        assert(run_from(m, start, 0, limit, it0, sig, tr + c, exit_view(r)));
                        if wf_start {
                            assert(state_names(m.states).contains(cur));
                        }
                        if r is Terminal {
                            assert(exit_view(r) == ExitView::Terminal(r->Terminal_state@));
                            assert(r->Terminal_state@ == cur);
                            assert(!(exit_view(r) is Error));
                            assert(action_of(m, cur) == Some(ActionView::Terminal));
                        }
                    }
                    return r;
                },
                StepResult::Continue(next) => {
                    let ghost nx = next@;
                    proof {
                        let a = action_of(m, cur)->Some_0;
                        lemma_advance(m, cur, nx, steps_head, limit, it_head, sig, start, it0, tr, c, a);
                    }
                    iteration = iteration + 1;
                    steps_taken = steps_taken + 1;
                    current = next;
                    proof {
                        assert forall|t: Seq<EventView>, x: ExitView|
                            #[trigger] run_from(m, current@, steps_taken as nat, limit, iteration as nat, sig, t, x) implies run_from(
                            m,
                            start,
                            0,
                            limit,
                            it0,
                            sig,
                            events_view(log@).skip(n0 + 1) + t,
                            x,
                        ) by {
                            assert(run_from(m, nx, steps_head + 1, limit, it_head + 1, sig, t, x));
                        }
                    }
                },
            }
        }
    }

    /// One iteration of the run in state `current`, the iteration counter
    /// at `iteration` before it is counted: stop at the step limit, on a
    /// received signal, or on a state the graph does not have; otherwise
    /// enter the state and resolve its action.
    fn take_step<E: StepExecutor, J: RunJournal, O: EventObserver>(
        &self,
        executor: &E,
        journal: &mut J,
        log: &mut Vec<DriverEvent>,
        observer: &mut O,
        current: &String,
        iteration: usize,
        steps_taken: usize,
        shutdown: Option<&ShutdownSignal>,
    ) -> (r: StepResult)
        requires
            steps_taken <= self.step_limit(),
            iteration < usize::MAX,
        ensures
            events_view(final(log)@).len() > events_view(old(log)@).len(),
            events_view(final(log)@).take(old(log)@.len() as int) == events_view(old(log)@),
            answered(*executor, events_view(final(log)@).skip(old(log)@.len() as int)),
            match r {
                StepResult::Stop(x) => stop_chunk(
                    self.machine()@,
                    current@,
                    steps_taken as nat,
                    self.step_limit(),
                    iteration as nat,
                    shutdown is Some,
                    events_view(final(log)@).skip(old(log)@.len() as int),
                    exit_view(x),
                ),
                StepResult::Continue(next) => {
                    &&& steps_taken < self.step_limit()
                    &&& action_of(self.machine()@, current@) is Some
                    &&& step_chunk(
                        action_of(self.machine()@, current@)->Some_0,
                        current@,
                        (iteration + 1) as usize,
                        events_view(final(log)@).skip(old(log)@.len() as int),
                        next@,
                    )
                    &&& (graph_well_formed(self.machine()@) ==> state_names(self.machine()@.states).contains(next@))
                },
            },
            self.snapshot_path() is None ==> *final(journal) == *old(journal),
            J::keeps_requests() ==> (match self.snapshot_path() {
                Some(p) => final(journal).requests() == old(journal).requests() + requests_of(
                    p,
                    events_view(final(log)@).skip(old(log)@.len() as int),
                ),
                None => true,
            }),
    {
        let ghost m = self.sm@;
        let ghost l0 = events_view(log@);
        let ghost k = l0.len() as int;
        let ghost path = self.snapshot_path();
        let ghost cur = current@;
        let ghost sig = shutdown is Some;
        let iteration = iteration + 1;
        proof {
            assert(requests_of(path->Some_0, Seq::<EventView>::empty()) =~= Seq::<JournalRequest>::empty());
        }
        if steps_taken >= self.max_steps {
            let mut detail = String::from_str("max_steps=");
            crate::text::push_decimal(&mut detail, self.max_steps as u64);
            proof {
                reveal_strlit("max_steps=");
                assert((self.max_steps as u64) as nat == self.max_steps as nat);
            }
            let r = ExitReason::StepLimitReached { max_steps: self.max_steps };
            self.stop_run(journal, log, observer, current, iteration, &r, ExitReasonTag::StepLimitReached, Some(detail));
            proof {
                self.lemma_one_stop(l0, events_view(log@), cur, iteration, exit_view(r));
            }
            return StepResult::Stop(r);
        }
        match shutdown {
            Some(sh) => match sh.try_recv() {
                Some(kind) => {
                    let signal = kind.to_string();
                    let r = ExitReason::Interrupted { signal };
                    self.stop_run(journal, log, observer, current, iteration, &r, ExitReasonTag::Interrupted, Some(kind.to_string()));
                    proof {
                        self.lemma_one_stop(l0, events_view(log@), cur, iteration, exit_view(r));
                    }
                    return StepResult::Stop(r);
                },
                None => {},
            },
            None => {},
        }
        let idx = match self.state_index(current.as_str()) {
            Some(i) => i,
            None => {
                let mut message = String::from_str("state '");
                message.append(current.as_str());
                message.append("' not found in state graph");
                proof {
                    lemma_action_of_absent(m, cur);
                }
                let r = ExitReason::Error { state: current.clone(), message: message.clone() };
                self.stop_run(journal, log, observer, current, iteration, &r, ExitReasonTag::Error, Some(message));
                proof {
                    self.lemma_one_stop(l0, events_view(log@), cur, iteration, exit_view(r));
                }
                return StepResult::Stop(r);
            },
        };
        proof {
            lemma_action_of_present(m, cur, idx as int);
        }
        let ghost a = m.states[idx as int].1;
        let ent_e = DriverEvent::StateEntered { state: current.clone(), iteration };
        emit(log, observer, ent_e);
        self.record(journal, current.as_str(), iteration, ExitReasonTag::Interrupted, None);
        let ghost ent = EventView::Entered { state: cur, iteration };
        proof {
            assert(events_view(log@).skip(k) =~= seq![ent]);
            assert(events_view(log@).take(k) =~= l0);
            if J::keeps_requests() && path is Some {
                lemma_requests_push(path->Some_0, Seq::<EventView>::empty(), ent);
                assert(Seq::<EventView>::empty().push(ent) =~= seq![ent]);
                assert(Seq::<JournalRequest>::empty() + event_requests(path->Some_0, ent) =~= event_requests(
                    path->Some_0,
                    ent,
                ));
            }
        }
        let ghost l1 = events_view(log@);
        let action = &self.sm.states[idx].action;
        assert(action@ == a);
        match action {
            HeadlessAction::Terminal => {
                let r = ExitReason::Terminal { state: current.clone() };
                emit(log, observer, DriverEvent::Stopped { state: current.clone(), iteration, reason: copy_exit(&r) });
                match &self.persist_path {
                    Some(p) => journal.clear(p.as_str()),
                    None => {},
                }
                proof {
                    let sv = EventView::Stopped { state: cur, iteration, exit: exit_view(r) };
                    self.lemma_extend(l0, l1, events_view(log@), sv);
                    assert(events_view(log@).skip(k) =~= seq![ent, sv]);
                    if J::keeps_requests() && path is Some {
                        lemma_requests_push(path->Some_0, seq![ent], sv);
                        assert(seq![ent].push(sv) =~= seq![ent, sv]);
                    }
                }
                StepResult::Stop(r)
            },
            HeadlessAction::Loop { target } => {
                emit(log, observer, DriverEvent::TransitionSelected {
                    from_state: current.clone(),
                    to_state: target.clone(),
                    transition: String::from_str("loop"),
                });
                proof {
                    reveal_strlit("loop");
                    let tv = EventView::Transition { from: cur, to: target@, transition: "loop"@ };
                    self.lemma_extend(l0, l1, events_view(log@), tv);
                    assert(events_view(log@).skip(k) =~= seq![ent, tv]);
                    if J::keeps_requests() && path is Some {
                        lemma_requests_push(path->Some_0, seq![ent], tv);
                        assert(seq![ent].push(tv) =~= seq![ent, tv]);
                    }
                    if graph_well_formed(m) {
                        lemma_next_is_known(m, idx as int, StepEvent::Unconditional);
                    }
                }
                StepResult::Continue(target.clone())
            },
            HeadlessAction::Agent { on_success, on_failure } => {
                let outcome = executor.run_agent(current.as_str());
                emit(log, observer, DriverEvent::AgentRan { state: current.clone(), outcome: copy_agent(&outcome) });
                let ghost av = EventView::Agent { state: cur, outcome: agent_view(outcome) };
                proof {
                    self.lemma_extend(l0, l1, events_view(log@), av);
                    assert(events_view(log@).skip(k) =~= seq![ent, av]);
                    if J::keeps_requests() && path is Some {
                        lemma_requests_push(path->Some_0, seq![ent], av);
                        assert(seq![ent].push(av) =~= seq![ent, av]);
                    }
                }
                let ghost l2 = events_view(log@);
                match outcome {
                    AgentOutcome::Error { error } => {
                        let r = ExitReason::Error { state: current.clone(), message: error.clone() };
                        self.stop_run(journal, log, observer, current, iteration, &r, ExitReasonTag::Error, Some(error));
                        proof {
                            let sv = EventView::Stopped { state: cur, iteration, exit: exit_view(r) };
                            self.lemma_extend(l0, l2, events_view(log@), sv);
                            assert(events_view(log@).skip(k) =~= seq![ent, av, sv]);
                            if J::keeps_requests() && path is Some {
                                lemma_requests_push(path->Some_0, seq![ent, av], sv);
                                assert(seq![ent, av].push(sv) =~= seq![ent, av, sv]);
                            }
                        }
                        StepResult::Stop(r)
                    },
                    AgentOutcome::Success => {
                        emit(log, observer, DriverEvent::TransitionSelected {
                            from_state: current.clone(),
                            to_state: on_success.clone(),
                            transition: String::from_str("on_success"),
                        });
                        proof {
                            reveal_strlit("on_success");
                            let tv = EventView::Transition { from: cur, to: on_success@, transition: "on_success"@ };
                            self.lemma_extend(l0, l2, events_view(log@), tv);
                            assert(events_view(log@).skip(k) =~= seq![ent, av, tv]);
                            if J::keeps_requests() && path is Some {
                                lemma_requests_push(path->Some_0, seq![ent, av], tv);
                                assert(seq![ent, av].push(tv) =~= seq![ent, av, tv]);
                            }
                            if graph_well_formed(m) {
                                lemma_next_is_known(m, idx as int, StepEvent::Agent(AgentOutcome::Success));
                            }
                        }
                        StepResult::Continue(on_success.clone())
                    },
                    AgentOutcome::Failure { reason } => {
                        emit(log, observer, DriverEvent::TransitionSelected {
                            from_state: current.clone(),
                            to_state: on_failure.clone(),
                            transition: String::from_str("on_failure"),
                        });
                        proof {
                            reveal_strlit("on_failure");
                            let tv = EventView::Transition { from: cur, to: on_failure@, transition: "on_failure"@ };
                            self.lemma_extend(l0, l2, events_view(log@), tv);
                            assert(events_view(log@).skip(k) =~= seq![ent, av, tv]);
                            if J::keeps_requests() && path is Some {
                                lemma_requests_push(path->Some_0, seq![ent, av], tv);
                                assert(seq![ent, av].push(tv) =~= seq![ent, av, tv]);
                            }
                            if graph_well_formed(m) {
                                lemma_next_is_known(m, idx as int, StepEvent::Agent(AgentOutcome::Failure { reason }));
                            }
                        }
                        StepResult::Continue(on_failure.clone())
                    },
                }
            },
            HeadlessAction::Builtin { builtin, on_pass, on_fail } => {
                let outcome = executor.run_builtin(current.as_str(), builtin.as_str());
                emit(log, observer, DriverEvent::BuiltinRan {
                    state: current.clone(),
                    builtin: builtin.clone(),
                    outcome: copy_builtin(&outcome),
                });
                let ghost bv = EventView::Builtin { state: cur, builtin: builtin@, outcome: builtin_view(outcome) };
                proof {
                    self.lemma_extend(l0, l1, events_view(log@), bv);
                    assert(events_view(log@).skip(k) =~= seq![ent, bv]);
                    if J::keeps_requests() && path is Some {
                        lemma_requests_push(path->Some_0, seq![ent], bv);
                        assert(seq![ent].push(bv) =~= seq![ent, bv]);
                    }
                }
                let ghost l2 = events_view(log@);
                match outcome {
                    BuiltinOutcome::Error { error } => {
                        let r = ExitReason::Error { state: current.clone(), message: error.clone() };
                        self.stop_run(journal, log, observer, current, iteration, &r, ExitReasonTag::Error, Some(error));
                        proof {
                            let sv = EventView::Stopped { state: cur, iteration, exit: exit_view(r) };
                            self.lemma_extend(l0, l2, events_view(log@), sv);
                            assert(events_view(log@).skip(k) =~= seq![ent, bv, sv]);
                            if J::keeps_requests() && path is Some {
                                lemma_requests_push(path->Some_0, seq![ent, bv], sv);
                                assert(seq![ent, bv].push(sv) =~= seq![ent, bv, sv]);
                            }
                            assert(seq![ent, bv, sv] == seq![
                                ent,
                                EventView::Builtin { state: cur, builtin: a->builtin, outcome: BuiltinView::Error(error@) },
                                sv,
                            ]);
                        }
                        StepResult::Stop(r)
                    },
                    BuiltinOutcome::Pass => {
                        emit(log, observer, DriverEvent::TransitionSelected {
                            from_state: current.clone(),
                            to_state: on_pass.clone(),
                            transition: String::from_str("on_pass"),
                        });
                        proof {
                            reveal_strlit("on_pass");
                            let tv = EventView::Transition { from: cur, to: on_pass@, transition: "on_pass"@ };
                            self.lemma_extend(l0, l2, events_view(log@), tv);
                            assert(events_view(log@).skip(k) =~= seq![ent, bv, tv]);
                            if J::keeps_requests() && path is Some {
                                lemma_requests_push(path->Some_0, seq![ent, bv], tv);
                                assert(seq![ent, bv].push(tv) =~= seq![ent, bv, tv]);
                            }
                            if graph_well_formed(m) {
                                lemma_next_is_known(m, idx as int, StepEvent::Builtin(BuiltinOutcome::Pass));
                            }
                        }
                        StepResult::Continue(on_pass.clone())
                    },
                    BuiltinOutcome::Fail { reason } => {
                        emit(log, observer, DriverEvent::TransitionSelected {
                            from_state: current.clone(),
                            to_state: on_fail.clone(),
                            transition: String::from_str("on_fail"),
                        });
                        proof {
                            reveal_strlit("on_fail");
                            let tv = EventView::Transition { from: cur, to: on_fail@, transition: "on_fail"@ };
                            self.lemma_extend(l0, l2, events_view(log@), tv);
                            assert(events_view(log@).skip(k) =~= seq![ent, bv, tv]);
                            if J::keeps_requests() && path is Some {
                                lemma_requests_push(path->Some_0, seq![ent, bv], tv);
                                assert(seq![ent, bv].push(tv) =~= seq![ent, bv, tv]);
                            }
                            if graph_well_formed(m) {
                                lemma_next_is_known(m, idx as int, StepEvent::Builtin(BuiltinOutcome::Fail { reason }));
                            }
                        }
                        StepResult::Continue(on_fail.clone())
                    },
                }
            },
        }
    }

    proof fn lemma_one_stop(&self, l0: Seq<EventView>, l: Seq<EventView>, cur: Seq<char>, iteration: usize, x: ExitView)
        requires
            l == l0.push(EventView::Stopped { state: cur, iteration, exit: x }),
        ensures
            l.skip(l0.len() as int) == seq![EventView::Stopped { state: cur, iteration, exit: x }],
            l.take(l0.len() as int) == l0,
            forall|p: Seq<char>|
                #[trigger] requests_of(p, seq![EventView::Stopped { state: cur, iteration, exit: x }]) == event_requests(
                    p,
                    EventView::Stopped { state: cur, iteration, exit: x },
                ),
    {
        let sv = EventView::Stopped { state: cur, iteration, exit: x };
        assert forall|p: Seq<char>| #[trigger] requests_of(p, seq![sv]) == event_requests(p, sv) by {
            lemma_requests_push(p, Seq::<EventView>::empty(), sv);
            assert(Seq::<EventView>::empty().push(sv) =~= seq![sv]);
            assert(Seq::<JournalRequest>::empty() + event_requests(p, sv) =~= event_requests(p, sv));
        }
        assert(l.skip(l0.len() as int) =~= seq![EventView::Stopped { state: cur, iteration, exit: x }]);
        assert(l.take(l0.len() as int) =~= l0);
    }

    proof fn lemma_extend(&self, l0: Seq<EventView>, l1: Seq<EventView>, l2: Seq<EventView>, e: EventView)
        requires
            l1.len() >= l0.len(),
            l1.take(l0.len() as int) == l0,
            l2 == l1.push(e),
        ensures
            l2.skip(l0.len() as int) == l1.skip(l0.len() as int).push(e),
            l2.take(l0.len() as int) == l0,
    {
        assert(l2.skip(l0.len() as int) =~= l1.skip(l0.len() as int).push(e));
        assert(l2.take(l0.len() as int) =~= l1.take(l0.len() as int));
    }

    /// Ends the run with a non-terminal stop: logs it and hands the matching
    /// snapshot request to the journal.
    fn stop_run<J: RunJournal, O: EventObserver>(
        &self,
        journal: &mut J,
        log: &mut Vec<DriverEvent>,
        observer: &mut O,
        state: &String,
        iteration: usize,
        r: &ExitReason,
        tag: ExitReasonTag,
        detail: Option<String>,
    )
        requires
            match exit_view(*r) {
                ExitView::Terminal(_) => false,
                ExitView::Interrupted(s) => tag == ExitReasonTag::Interrupted && detail_view(detail) == Some(s),
                ExitView::Error(_, msg) => tag == ExitReasonTag::Error && detail_view(detail) == Some(msg),
                ExitView::StepLimitReached(mx) => tag == ExitReasonTag::StepLimitReached && detail_view(detail)
                    == Some("max_steps="@ + decimal(mx as nat)),
            },
        ensures
            events_view(final(log)@) == events_view(old(log)@).push(
                EventView::Stopped { state: state@, iteration, exit: exit_view(*r) },
            ),
            self.snapshot_path() is None ==> *final(journal) == *old(journal),
            J::keeps_requests() ==> (match self.snapshot_path() {
                Some(p) => final(journal).requests() == old(journal).requests() + event_requests(
                    p,
                    EventView::Stopped { state: state@, iteration, exit: exit_view(*r) },
                ),
                None => true,
            }),
    {
        emit(log, observer, DriverEvent::Stopped { state: state.clone(), iteration, reason: copy_exit(r) });
        self.record(journal, state.as_str(), iteration, tag, detail);
        proof {
            if J::keeps_requests() && self.snapshot_path() is Some {
                let e = EventView::Stopped { state: state@, iteration, exit: exit_view(*r) };
                assert(event_requests(self.snapshot_path()->Some_0, e).len() == 1);
                assert(old(journal).requests().push(event_requests(self.snapshot_path()->Some_0, e)[0])
                    =~= old(journal).requests() + event_requests(self.snapshot_path()->Some_0, e));
            }
        }
    }
}

fn copy_agent(o: &AgentOutcome) -> (c: AgentOutcome)
    ensures
        agent_view(c) == agent_view(*o),
{
    match o {
        AgentOutcome::Success => AgentOutcome::Success,
        AgentOutcome::Failure { reason } => AgentOutcome::Failure { reason: reason.clone() },
        AgentOutcome::Error { error } => AgentOutcome::Error { error: error.clone() },
    }
}

fn copy_builtin(o: &BuiltinOutcome) -> (c: BuiltinOutcome)
    ensures
        builtin_view(c) == builtin_view(*o),
{
    match o {
        BuiltinOutcome::Pass => BuiltinOutcome::Pass,
        BuiltinOutcome::Fail { reason } => BuiltinOutcome::Fail { reason: reason.clone() },
        BuiltinOutcome::Error { error } => BuiltinOutcome::Error { error: error.clone() },
    }
}

fn copy_exit(r: &ExitReason) -> (c: ExitReason)
    ensures
        exit_view(c) == exit_view(*r),
{
    match r {
        ExitReason::Terminal { state } => ExitReason::Terminal { state: state.clone() },
        ExitReason::Interrupted { signal } => ExitReason::Interrupted { signal: signal.clone() },
        ExitReason::Error { state, message } => ExitReason::Error { state: state.clone(), message: message.clone() },
        ExitReason::StepLimitReached { max_steps } => ExitReason::StepLimitReached { max_steps: *max_steps },
    }
}

/// Appends an event to the log.
fn emit<O: EventObserver>(log: &mut Vec<DriverEvent>, observer: &mut O, e: DriverEvent)
    ensures
        events_view(final(log)@) == events_view(old(log)@).push(event_view(e)),
{
    observer.observe(&e);
    let ghost before = log@;
    log.push(e);
    proof {
        assert(events_view(log@) =~= events_view(before).push(event_view(e)));
    }
}

/// One step from `cur` to `next` whose log is `c`.
pub open spec fn step_chunk(a: ActionView, cur: Seq<char>, i: usize, c: Seq<EventView>, next: Seq<char>) -> bool {
    &&& c.len() >= 2
    &&& c[0] == (EventView::Entered { state: cur, iteration: i })
    &&& match a {
        ActionView::Loop { target } => c.len() == 2 && next == target && c[1] == (EventView::Transition {
            from: cur,
            to: target,
            transition: "loop"@,
        }),
        ActionView::Agent { on_success, on_failure } => c.len() == 3 && match c[1] {
            EventView::Agent { state, outcome } => state == cur && match outcome {
                AgentView::Success => next == on_success && c[2] == (EventView::Transition {
                    from: cur,
                    to: on_success,
                    transition: "on_success"@,
                }),
                AgentView::Failure(_) => next == on_failure && c[2] == (EventView::Transition {
                    from: cur,
                    to: on_failure,
                    transition: "on_failure"@,
                }),
                AgentView::Error(_) => false,
            },
            _ => false,
        },
        ActionView::Builtin { builtin, on_pass, on_fail } => c.len() == 3 && match c[1] {
            EventView::Builtin { state, builtin: b, outcome } => state == cur && b == builtin && match outcome {
                BuiltinView::Pass => next == on_pass && c[2] == (EventView::Transition {
                    from: cur,
                    to: on_pass,
                    transition: "on_pass"@,
                }),
                BuiltinView::Fail(_) => next == on_fail && c[2] == (EventView::Transition {
                    from: cur,
                    to: on_fail,
                    transition: "on_fail"@,
                }),
                BuiltinView::Error(_) => false,
            },
            _ => false,
        },
        ActionView::Terminal => false,
    }
}

/// After a step from `cur` to `next` with log `c`, a run that continues
/// from `next` is a run from the start whose log so far is `tr + c`.
proof fn lemma_advance(
    m: MachineView,
    cur: Seq<char>,
    next: Seq<char>,
    steps: nat,
    limit: usize,
    it: nat,
    sig: bool,
    start: Seq<char>,
    it0: nat,
    tr: Seq<EventView>,
    c: Seq<EventView>,
    a: ActionView,
)
    requires
        steps < limit,
        action_of(m, cur) == Some(a),
        step_chunk(a, cur, (it + 1) as usize, c, next),
        forall|t: Seq<EventView>, x: ExitView|
            #[trigger] run_from(m, cur, steps, limit, it, sig, t, x) ==> run_from(m, start, 0, limit, it0, sig, tr + t, x),
    ensures
        forall|t: Seq<EventView>, x: ExitView|
            #[trigger] run_from(m, next, steps + 1, limit, it + 1, sig, t, x) ==> run_from(
                m,
                start,
                0,
                limit,
                it0,
                sig,
                (tr + c) + t,
                x,
            ),
{
    reveal(run_from);
    assert forall|t: Seq<EventView>, x: ExitView|
        #[trigger] run_from(m, next, steps + 1, limit, it + 1, sig, t, x) implies run_from(
        m,
        start,
        0,
        limit,
        it0,
        sig,
        (tr + c) + t,
        x,
    ) by {
        let ct = c + t;
        assert(ct.skip(c.len() as int) =~= t);
        assert(ct[0] == c[0] && ct[1] == c[1]);
        if c.len() == 3 {
            assert(ct[2] == c[2]);
        }
        assert(!is_signal_stop(ct[0]));
        assert(run_from(m, cur, steps, limit, it, sig, ct, x));
        assert(tr + ct =~= (tr + c) + t);
    }
}

/// The ways a run ends right here, with the log `c`.
pub open spec fn stop_chunk(
    m: MachineView,
    cur: Seq<char>,
    steps: nat,
    limit: usize,
    it: nat,
    sig: bool,
    c: Seq<EventView>,
    x: ExitView,
) -> bool {
    let i = (it + 1) as usize;
    let stop = EventView::Stopped { state: cur, iteration: i, exit: x };
    let ent = EventView::Entered { state: cur, iteration: i };
    ||| steps >= limit && c == seq![stop] && x == ExitView::StepLimitReached(limit)
    ||| steps < limit && sig && c == seq![stop] && (x == ExitView::Interrupted("SIGINT"@) || x
        == ExitView::Interrupted("SIGTERM"@))
    ||| steps < limit && action_of(m, cur) is None && !state_names(m.states).contains(cur) && c == seq![stop] && x
        == ExitView::Error(cur, not_found_message(cur))
    ||| steps < limit && action_of(m, cur) == Some(ActionView::Terminal) && c == seq![ent, stop] && x
        == ExitView::Terminal(cur)
    ||| steps < limit && (action_of(m, cur) matches Some(ActionView::Agent { .. })) && exists|e: Seq<char>|
        c == seq![ent, EventView::Agent { state: cur, outcome: AgentView::Error(e) }, stop] && x == ExitView::Error(cur, e)
    ||| steps < limit && (action_of(m, cur) matches Some(ActionView::Builtin { .. })) && exists|e: Seq<char>|
        c == seq![
            ent,
            EventView::Builtin { state: cur, builtin: action_of(m, cur)->Some_0->builtin, outcome: BuiltinView::Error(e) },
            stop,
        ] && x == ExitView::Error(cur, e)
}

proof fn lemma_stop(m: MachineView, cur: Seq<char>, steps: nat, limit: usize, it: nat, sig: bool, c: Seq<EventView>, x: ExitView)
    requires
        stop_chunk(m, cur, steps, limit, it, sig, c, x),
    ensures
        run_from(m, cur, steps, limit, it, sig, c, x),
{
    reveal(run_from);
    let i = (it + 1) as usize;
    let stop = EventView::Stopped { state: cur, iteration: i, exit: x };
    if c.len() == 2 {
        assert(!is_signal_stop(c[0]));
    }
    if c.len() == 3 {
        assert(!is_signal_stop(c[0]));
    }
    if steps < limit && c == seq![stop] {
        if x is Interrupted {
            assert(is_signal_stop(c[0]));
        } else {
            assert(!is_signal_stop(c[0]));
        }
    }
}

proof fn lemma_requests_concat(p: Seq<char>, a: Seq<EventView>, b: Seq<EventView>)
    ensures
        requests_of(p, a + b) == requests_of(p, a) + requests_of(p, b),
    decreases b.len(),
{
    if b.len() == 0 {
        assert(a + b =~= a);
        assert(requests_of(p, a) + Seq::<JournalRequest>::empty() =~= requests_of(p, a));
    } else {
        lemma_requests_concat(p, a, b.drop_last());
        assert((a + b).drop_last() =~= a + b.drop_last());
        assert((a + b).last() == b.last());
        assert(requests_of(p, a) + requests_of(p, b.drop_last()) + event_requests(p, b.last()) =~= requests_of(p, a) + (
        requests_of(p, b.drop_last()) + event_requests(p, b.last())));
    }
}

proof fn lemma_requests_push(p: Seq<char>, s: Seq<EventView>, e: EventView)
    ensures
        requests_of(p, s.push(e)) == requests_of(p, s) + event_requests(p, e),
{
    assert(s.push(e).drop_last() =~= s);
}

proof fn lemma_action_of_present(m: MachineView, name: Seq<char>, i: int)
    requires
        first_named(m, name, i),
    ensures
        action_of(m, name) == Some(m.states[i].1),
{
    let j = choose|j: int| first_named(m, name, j);
    assert(first_named(m, name, j));
    if j < i {
    } else if j > i {
        assert(m.states[i].0 != name);
    }
}

proof fn lemma_action_of_absent(m: MachineView, name: Seq<char>)
    requires
        !state_names(m.states).contains(name),
    ensures
        action_of(m, name) is None,
{
    if exists|i: int| first_named(m, name, i) {
        let i = choose|i: int| first_named(m, name, i);
        assert(state_names(m.states)[i] == name);
    }
}

proof fn lemma_next_is_known(m: MachineView, i: int, event: StepEvent)
    requires
        graph_well_formed(m),
        0 <= i < m.states.len(),
        spec_next(m.states[i].1, event) is Some,
    ensures
        state_names(m.states).contains(spec_next(m.states[i].1, event)->Some_0),
{
    let t = spec_next(m.states[i].1, event)->Some_0;
    let ts = crate::headless_sm::action_targets(m.states[i].1);
    match m.states[i].1 {
        ActionView::Agent { on_success, on_failure } => {
            assert(ts[0] == on_success);
            assert(ts[1] == on_failure);
        },
        ActionView::Builtin { on_pass, on_fail, .. } => {
            assert(ts[0] == on_pass);
            assert(ts[1] == on_fail);
        },
        ActionView::Loop { target } => {
            assert(ts[0] == target);
        },
        ActionView::Terminal => {},
    }
}

} // verus!
