//! Minimum supported headless state-machine schema and its single-pass
//! structural validator.
//!
//! A state-machine document names an `initial_state` and lists `states`, each
//! with an `action` of `agent`, `builtin`, `loop` or `terminal` and the
//! transition fields that action needs:
//!
//! | `action`   | Required fields                 |
//! |------------|---------------------------------|
//! | `agent`    | `on_success`, `on_failure`      |
//! | `builtin`  | `builtin`, `on_pass`, `on_fail` |
//! | `loop`     | `target`                        |
//! | `terminal` | —                               |
//!
//! [`validate_raw`] checks, in this order: that there is at least one state,
//! that no state name repeats, that `initial_state` is non-empty and names a
//! state, and then each state in document order (fields of other actions are
//! rejected as ambiguous; every transition must name a defined state).  The
//! first violation is reported with an actionable message.
use crate::text::{seq_has_at, starts_with, str_eq};
use vstd::prelude::*;

verus! {

// ── Schema types ─────────────────────────────────────────────────────────────

/// A validated headless state-machine graph.
///
/// `states` holds one entry per state, in document order, with pairwise
/// distinct names.
#[derive(Debug, Clone, PartialEq, Eq)]
pub struct HeadlessStateMachine {
    /// Optional workflow display name.
    pub name: Option<String>,
    /// The name of the initial state.
    pub initial_state: String,
    /// All states of the graph.
    pub states: Vec<HeadlessState>,
}

/// A single state in the graph.
#[derive(Debug, Clone, PartialEq, Eq)]
pub struct HeadlessState {
    /// The state name.
    pub name: String,
    /// The step type that drives this state.
    pub action: HeadlessAction,
}

/// The action (step type) of a state.
#[derive(Debug, Clone, PartialEq, Eq)]
pub enum HeadlessAction {
    /// Run an agent: success → `on_success`, failure → `on_failure`.
    Agent { on_success: String, on_failure: String },
    /// Evaluate a builtin: pass → `on_pass`, fail → `on_fail`.
    Builtin { builtin: String, on_pass: String, on_fail: String },
    /// Jump unconditionally to `target`.
    Loop { target: String },
    /// Execution stops here.
    Terminal,
}

/// The mathematical value of an action.
pub enum ActionView {
    Agent { on_success: Seq<char>, on_failure: Seq<char> },
    Builtin { builtin: Seq<char>, on_pass: Seq<char>, on_fail: Seq<char> },
    Loop { target: Seq<char> },
    Terminal,
}

impl View for HeadlessAction {
    type V = ActionView;

    open spec fn view(&self) -> ActionView {
        match self {
            HeadlessAction::Agent { on_success, on_failure } => ActionView::Agent {
                on_success: on_success@,
                on_failure: on_failure@,
            },
            HeadlessAction::Builtin { builtin, on_pass, on_fail } => ActionView::Builtin {
                builtin: builtin@,
                on_pass: on_pass@,
                on_fail: on_fail@,
            },
            HeadlessAction::Loop { target } => ActionView::Loop { target: target@ },
            HeadlessAction::Terminal => ActionView::Terminal,
        }
    }
}

/// The mathematical value of a state machine: its name, initial state and the
/// `(name, action)` pairs of its states in order.
pub struct MachineView {
    pub name: Option<Seq<char>>,
    pub initial_state: Seq<char>,
    pub states: Seq<(Seq<char>, ActionView)>,
}

pub open spec fn opt_view(o: Option<String>) -> Option<Seq<char>> {
    match o {
        Some(s) => Some(s@),
        None => None,
    }
}

impl View for HeadlessStateMachine {
    type V = MachineView;

    open spec fn view(&self) -> MachineView {
        MachineView {
            name: opt_view(self.name),
            initial_state: self.initial_state@,
            states: self.states@.map_values(|s: HeadlessState| (s.name@, s.action@)),
        }
    }
}

/// The names of the states, in order.
pub open spec fn state_names(states: Seq<(Seq<char>, ActionView)>) -> Seq<Seq<char>> {
    states.map_values(|p: (Seq<char>, ActionView)| p.0)
}

/// Every transition target of an action.
pub open spec fn action_targets(a: ActionView) -> Seq<Seq<char>> {
    match a {
        ActionView::Agent { on_success, on_failure } => seq![on_success, on_failure],
        ActionView::Builtin { on_pass, on_fail, .. } => seq![on_pass, on_fail],
        ActionView::Loop { target } => seq![target],
        ActionView::Terminal => Seq::empty(),
    }
}

/// Structural well-formedness of a graph: at least one state, unique names,
/// an initial state that names a state, and every transition naming a state.
pub open spec fn graph_well_formed(m: MachineView) -> bool {
    let names = state_names(m.states);
    &&& m.states.len() > 0
    &&& forall|i: int, j: int| 0 <= i < j < names.len() ==> names[i] != names[j]
    &&& names.contains(m.initial_state)
    &&& forall|i: int, k: int|
        0 <= i < m.states.len() && 0 <= k < action_targets(m.states[i].1).len() ==> names.contains(
            #[trigger] action_targets(m.states[i].1)[k],
        )
}

impl HeadlessStateMachine {
    /// The number of states.
    pub fn len(&self) -> (n: usize)
        ensures
            n == self@.states.len(),
    {
        self.states.len()
    }

    /// The state with the given name, if any.
    pub fn state(&self, name: &str) -> (r: Option<&HeadlessState>)
        ensures
            r matches Some(s) ==> s.name@ == name@ && exists|i: int|
                0 <= i < self.states@.len() && self.states@[i] == *s,
            r is None ==> forall|i: int|
                0 <= i < self.states@.len() ==> self.states@[i].name@ != name@,
    {
        let n: usize = self.states.len();
        for i in 0..n
            invariant
                n == self.states@.len(),
                forall|k: int| 0 <= k < i ==> self.states@[k].name@ != name@,
        {
            if str_eq(self.states[i].name.as_str(), name) {
                return Some(&self.states[i]);
            }
        }
        None
    }

    /// Whether a state with the given name exists.
    pub fn contains_state(&self, name: &str) -> (b: bool)
        ensures
            b == state_names(self@.states).contains(name@),
    {
        let r = self.state(name);
        proof {
            let names = state_names(self@.states);
            if r is Some {
                let i = choose|i: int|
                    0 <= i < self.states@.len() && self.states@[i] == *r.unwrap();
                assert(names[i] == name@);
            } else {
                assert forall|i: int| 0 <= i < names.len() implies names[i] != name@ by {
                    assert(names[i] == self.states@[i].name@);
                }
            }
        }
        r.is_some()
    }
}

// ── Raw documents ────────────────────────────────────────────────────────────

/// An unvalidated document as it was read.
#[derive(Debug, Clone)]
pub struct RawStateMachine {
    pub name: Option<String>,
    pub initial_state: String,
    pub states: Vec<RawState>,
}

/// An unvalidated state entry as it was read.
#[derive(Debug, Clone)]
pub struct RawState {
    pub name: String,
    pub action: String,
    pub builtin: Option<String>,
    pub on_success: Option<String>,
    pub on_failure: Option<String>,
    pub on_pass: Option<String>,
    pub on_fail: Option<String>,
    pub target: Option<String>,
}

/// A structural validation failure.
#[derive(Debug, Clone, PartialEq, Eq)]
pub struct ValidationError {
    /// The source file name (or `"<inline>"` for in-memory content).
    pub source: String,
    /// Human-readable, actionable description of the problem.
    pub message: String,
}

impl ValidationError {
    /// `[<source>] <message>`.
    pub fn to_string(&self) -> (r: String)
        ensures
            r@ == "["@ + self.source@ + "] "@ + self.message@,
    {
        let mut s = String::from_str("[");
        s.append(self.source.as_str());
        s.append("] ");
        s.append(self.message.as_str());
        s
    }
}

// ── Specification of the validator ──────────────────────────────────────────

/// `q + x + r`.
pub open spec fn wrap(q: Seq<char>, x: Seq<char>, r: Seq<char>) -> Seq<char> {
    q + x + r
}

/// The outcome of checking one transition field.
pub open spec fn spec_target(
    state: Seq<char>,
    action: Seq<char>,
    field: Seq<char>,
    value: Option<Seq<char>>,
    names: Seq<Seq<char>>,
) -> Result<Seq<char>, Seq<char>> {
    match value {
        None => Err(
            "state '"@ + state + "': action '"@ + action + "' requires field '"@ + field + "'"@,
        ),
        Some(v) => if v.len() == 0 {
            Err("state '"@ + state + "': field '"@ + field + "' must not be empty"@)
        } else if !names.contains(v) {
            Err("state '"@ + state + "': '"@ + field + "' references unknown state '"@ + v + "'"@)
        } else {
            Ok(v)
        },
    }
}

/// The outcome of checking the action of one raw state.
pub open spec fn spec_action(raw: RawState, names: Seq<Seq<char>>) -> Result<ActionView, Seq<char>> {
    let n = raw.name@;
    let a = raw.action@;
    if a == "agent"@ {
        if raw.builtin is Some || raw.on_pass is Some || raw.on_fail is Some {
            Err(wrap("state '"@, n, "': action 'agent' must not define 'builtin', 'on_pass', or 'on_fail'"@))
        } else if raw.target is Some {
            Err(wrap("state '"@, n, "': action 'agent' must not define 'target'"@))
        } else {
            match spec_target(n, a, "on_success"@, opt_view(raw.on_success), names) {
                Err(m) => Err(m),
                Ok(s) => match spec_target(n, a, "on_failure"@, opt_view(raw.on_failure), names) {
                    Err(m) => Err(m),
                    Ok(f) => Ok(ActionView::Agent { on_success: s, on_failure: f }),
                },
            }
        }
    } else if a == "builtin"@ {
        if raw.on_success is Some || raw.on_failure is Some {
            Err(wrap("state '"@, n, "': action 'builtin' must not define 'on_success' or 'on_failure'"@))
        } else if raw.target is Some {
            Err(wrap("state '"@, n, "': action 'builtin' must not define 'target'"@))
        } else {
            match raw.builtin {
                None => Err(wrap("state '"@, n, "': action 'builtin' requires field 'builtin'"@)),
                Some(kw) => if kw@.len() == 0 {
                    Err(wrap("state '"@, n, "': field 'builtin' must not be empty"@))
                } else if !seq_has_at(kw@, 0, "builtin."@) {
                    Err("state '"@ + n + "': 'builtin' value '"@ + kw@
                        + "' must start with 'builtin.' (e.g. builtin.git.is_main_compatible)"@)
                } else {
                    match spec_target(n, a, "on_pass"@, opt_view(raw.on_pass), names) {
                        Err(m) => Err(m),
                        Ok(p) => match spec_target(n, a, "on_fail"@, opt_view(raw.on_fail), names) {
                            Err(m) => Err(m),
                            Ok(f) => Ok(ActionView::Builtin { builtin: kw@, on_pass: p, on_fail: f }),
                        },
                    }
                },
            }
        }
    } else if a == "loop"@ {
        if raw.on_success is Some || raw.on_failure is Some || raw.on_pass is Some || raw.on_fail is Some
            || raw.builtin is Some {
            Err(wrap("state '"@, n, "': action 'loop' must only define 'target'"@))
        } else {
            match spec_target(n, a, "target"@, opt_view(raw.target), names) {
                Err(m) => Err(m),
                Ok(t) => Ok(ActionView::Loop { target: t }),
            }
        }
    } else if a == "terminal"@ {
        if raw.on_success is Some || raw.on_failure is Some || raw.on_pass is Some || raw.on_fail is Some
            || raw.target is Some || raw.builtin is Some {
            Err(wrap("state '"@, n, "': action 'terminal' must not define any transition fields"@))
        } else {
            Ok(ActionView::Terminal)
        }
    } else {
        Err("state '"@ + n + "': unsupported action '"@ + a
            + "'; supported actions are: agent, builtin, loop, terminal"@)
    }
}

/// The names of raw states, in order.
pub open spec fn raw_names(states: Seq<RawState>) -> Seq<Seq<char>> {
    states.map_values(|s: RawState| s.name@)
}

/// Whether position `i` repeats the name of an earlier position.
pub open spec fn repeats_earlier(names: Seq<Seq<char>>, i: int) -> bool {
    0 <= i < names.len() && exists|j: int| 0 <= j < i && names[j] == names[i]
}

/// The outcome of checking the actions of `states`, front to back: the first
/// error, or every action.
pub open spec fn spec_actions(states: Seq<RawState>, names: Seq<Seq<char>>) -> Result<
    Seq<(Seq<char>, ActionView)>,
    Seq<char>,
>
    decreases states.len(),
{
    if states.len() == 0 {
        Ok(Seq::empty())
    } else {
        match spec_actions(states.drop_last(), names) {
            Err(m) => Err(m),
            Ok(prefix) => match spec_action(states.last(), names) {
                Err(m) => Err(m),
                Ok(a) => Ok(prefix.push((states.last().name@, a))),
            },
        }
    }
}

/// The outcome of validating a raw document: the validated graph's states or
/// the message of the first violation.
pub open spec fn spec_validate(raw: RawStateMachine) -> Result<Seq<(Seq<char>, ActionView)>, Seq<char>> {
    let names = raw_names(raw.states@);
    if raw.states@.len() == 0 {
        Err("state machine has no states; at least one state is required"@)
    } else if exists|i: int| repeats_earlier(names, i) {
        let i = choose|i: int| repeats_earlier(names, i) && forall|k: int| 0 <= k < i ==> !repeats_earlier(names, k);
        Err(wrap("duplicate state name '"@, names[i], "'; each state must have a unique name"@))
    } else if raw.initial_state@.len() == 0 {
        Err("initial_state is empty; specify the name of the starting state"@)
    } else if !names.contains(raw.initial_state@) {
        Err(wrap("initial_state '"@, raw.initial_state@, "' does not name any defined state"@))
    } else {
        spec_actions(raw.states@, names)
    }
}

// ── The validator ───────────────────────────────────────────────────────────

fn cat3(a: &str, b: &str, c: &str) -> (r: String)
    ensures
        r@ == a@ + b@ + c@,
{
    let mut s = String::from_str(a);
    s.append(b);
    s.append(c);
    s
}

fn cat5(a: &str, b: &str, c: &str, d: &str, e: &str) -> (r: String)
    ensures
        r@ == a@ + b@ + c@ + d@ + e@,
{
    let mut s = String::from_str(a);
    s.append(b);
    s.append(c);
    s.append(d);
    s.append(e);
    s
}

fn opt_string(o: &Option<String>) -> (r: Option<String>)
    ensures
        opt_view(r) == opt_view(*o),
{
    match o {
        Some(s) => Some(s.clone()),
        None => None,
    }
}

/// Whether some raw state carries the name `n`.
fn names_contain(states: &Vec<RawState>, n: &str) -> (b: bool)
    ensures
        b == raw_names(states@).contains(n@),
{
    let len: usize = states.len();
    let ghost names = raw_names(states@);
    for i in 0..len
        invariant
            len == states@.len(),
            names == raw_names(states@),
            forall|k: int| 0 <= k < i ==> names[k] != n@,
    {
        if str_eq(states[i].name.as_str(), n) {
            proof {
                assert(names[i as int] == n@);
            }
            return true;
        }
    }
    false
}

fn check_target(
    state: &str,
    action: &str,
    field: &str,
    value: &Option<String>,
    states: &Vec<RawState>,
) -> (r: Result<String, String>)
    ensures
        match spec_target(state@, action@, field@, opt_view(*value), raw_names(states@)) {
            Ok(v) => r matches Ok(x) && x@ == v,
            Err(m) => r matches Err(x) && x@ == m,
        },
{
    match value {
        None => {
            let mut s = cat5("state '", state, "': action '", action, "' requires field '");
            s.append(field);
            s.append("'");
            Err(s)
        },
        Some(v) => {
            if v.unicode_len() == 0 {
                Err(cat5("state '", state, "': field '", field, "' must not be empty"))
            } else if !names_contain(states, v.as_str()) {
                let mut s = cat5("state '", state, "': '", field, "' references unknown state '");
                s.append(v.as_str());
                s.append("'");
                Err(s)
            } else {
                Ok(v.clone())
            }
        },
    }
}

/// Validates one raw state's action and transition fields against the full
/// list of states.
pub fn validate_state_action(raw: &RawState, states: &Vec<RawState>) -> (r: Result<HeadlessAction, String>)
    ensures
        match spec_action(*raw, raw_names(states@)) {
            Ok(a) => r matches Ok(x) && x@ == a,
            Err(m) => r matches Err(x) && x@ == m,
        },
{
    let n = raw.name.as_str();
    let a = raw.action.as_str();
    if str_eq(a, "agent") {
        if raw.builtin.is_some() || raw.on_pass.is_some() || raw.on_fail.is_some() {
            return Err(cat3("state '", n, "': action 'agent' must not define 'builtin', 'on_pass', or 'on_fail'"));
        }
        if raw.target.is_some() {
            return Err(cat3("state '", n, "': action 'agent' must not define 'target'"));
        }
        let on_success = match check_target(n, a, "on_success", &raw.on_success, states) {
            Ok(v) => v,
            Err(m) => return Err(m),
        };
        let on_failure = match check_target(n, a, "on_failure", &raw.on_failure, states) {
            Ok(v) => v,
            Err(m) => return Err(m),
        };
        Ok(HeadlessAction::Agent { on_success, on_failure })
    } else if str_eq(a, "builtin") {
        if raw.on_success.is_some() || raw.on_failure.is_some() {
            return Err(cat3("state '", n, "': action 'builtin' must not define 'on_success' or 'on_failure'"));
        }
        if raw.target.is_some() {
            return Err(cat3("state '", n, "': action 'builtin' must not define 'target'"));
        }
        let kw = match &raw.builtin {
            Some(kw) => kw,
            None => return Err(cat3("state '", n, "': action 'builtin' requires field 'builtin'")),
        };
        if kw.unicode_len() == 0 {
            return Err(cat3("state '", n, "': field 'builtin' must not be empty"));
        }
        if !starts_with(kw.as_str(), "builtin.") {
            return Err(cat5(
                "state '",
                n,
                "': 'builtin' value '",
                kw.as_str(),
                "' must start with 'builtin.' (e.g. builtin.git.is_main_compatible)",
            ));
        }
        let on_pass = match check_target(n, a, "on_pass", &raw.on_pass, states) {
            Ok(v) => v,
            Err(m) => return Err(m),
        };
        let on_fail = match check_target(n, a, "on_fail", &raw.on_fail, states) {
            Ok(v) => v,
            Err(m) => return Err(m),
        };
        Ok(HeadlessAction::Builtin { builtin: kw.clone(), on_pass, on_fail })
    } else if str_eq(a, "loop") {
        if raw.on_success.is_some() || raw.on_failure.is_some() || raw.on_pass.is_some()
            || raw.on_fail.is_some() || raw.builtin.is_some() {
            return Err(cat3("state '", n, "': action 'loop' must only define 'target'"));
        }
        let target = match check_target(n, a, "target", &raw.target, states) {
            Ok(v) => v,
            Err(m) => return Err(m),
        };
        Ok(HeadlessAction::Loop { target })
    } else if str_eq(a, "terminal") {
        if raw.on_success.is_some() || raw.on_failure.is_some() || raw.on_pass.is_some()
            || raw.on_fail.is_some() || raw.target.is_some() || raw.builtin.is_some() {
            return Err(cat3("state '", n, "': action 'terminal' must not define any transition fields"));
        }
        Ok(HeadlessAction::Terminal)
    } else {
        Err(cat5(
            "state '",
            n,
            "': unsupported action '",
            a,
            "'; supported actions are: agent, builtin, loop, terminal",
        ))
    }
}

/// Validates a raw document and converts it into a [`HeadlessStateMachine`].
///
/// `source` names the document in the error (for example the file name).
pub fn validate_raw(raw: RawStateMachine, source: &str) -> (r: Result<HeadlessStateMachine, ValidationError>)
    ensures
        match spec_validate(raw) {
            Ok(states) => r matches Ok(m) && m@ == (MachineView {
                name: opt_view(raw.name),
                initial_state: raw.initial_state@,
                states: states,
            }),
            Err(msg) => r matches Err(e) && e.source@ == source@ && e.message@ == msg,
        },
{
    let ghost names = raw_names(raw.states@);
    let len: usize = raw.states.len();
    if len == 0 {
        return Err(ValidationError {
            source: String::from_str(source),
            message: String::from_str("state machine has no states; at least one state is required"),
        });
    }
    match first_repeat(&raw.states) {
        Some(i) => {
            proof {
                assert(repeats_earlier(names, i as int));
                assert(names[i as int] == raw.states@[i as int].name@);
            }
            return Err(ValidationError {
                source: String::from_str(source),
                message: cat3(
                    "duplicate state name '",
                    raw.states[i].name.as_str(),
                    "'; each state must have a unique name",
                ),
            });
        },
        None => {},
    }
    if raw.initial_state.unicode_len() == 0 {
        return Err(ValidationError {
            source: String::from_str(source),
            message: String::from_str("initial_state is empty; specify the name of the starting state"),
        });
    }
    if !names_contain(&raw.states, raw.initial_state.as_str()) {
        return Err(ValidationError {
            source: String::from_str(source),
            message: cat3(
                "initial_state '",
                raw.initial_state.as_str(),
                "' does not name any defined state",
            ),
        });
    }
    let mut states: Vec<HeadlessState> = Vec::new();
    for i in 0..len
        invariant
            len == raw.states@.len(),
            names == raw_names(raw.states@),
            !exists|k: int| repeats_earlier(names, k),
            raw.initial_state@.len() != 0,
            names.contains(raw.initial_state@),
            spec_actions(raw.states@.take(i as int), names) matches Ok(p) && p == states@.map_values(
                |s: HeadlessState| (s.name@, s.action@),
            ),
    {
        proof {
            assert(raw.states@.take(i + 1).drop_last() =~= raw.states@.take(i as int));
            assert(raw.states@.take(i + 1).last() == raw.states@[i as int]);
        }
        let action = match validate_state_action(&raw.states[i], &raw.states) {
            Ok(a) => a,
            Err(m) => {
                proof {
                    assert(spec_actions(raw.states@.take(i + 1), names) == Err::<Seq<(Seq<char>, ActionView)>, Seq<char>>(m@));
                    lemma_actions_error_persists(raw.states@, names, i as int + 1);
                }
                return Err(ValidationError { source: String::from_str(source), message: m });
            },
        };
        let ghost before = states@;
        states.push(HeadlessState { name: raw.states[i].name.clone(), action });
        proof {
            assert(states@.map_values(|s: HeadlessState| (s.name@, s.action@)) =~= before.map_values(
                |s: HeadlessState| (s.name@, s.action@),
            ).push((raw.states@[i as int].name@, action@)));
        }
    }
    proof {
        assert(raw.states@.take(len as int) =~= raw.states@);
    }
    Ok(HeadlessStateMachine { name: raw.name, initial_state: raw.initial_state, states })
}

/// The first position whose name repeats an earlier name, if any.
fn first_repeat(states: &Vec<RawState>) -> (r: Option<usize>)
    ensures
        r matches Some(i) ==> i < states@.len() && repeats_earlier(raw_names(states@), i as int)
            && i == choose|c: int|
            repeats_earlier(raw_names(states@), c) && forall|k: int|
                0 <= k < c ==> !repeats_earlier(raw_names(states@), k),
        r is None ==> !exists|c: int| repeats_earlier(raw_names(states@), c),
{
    let ghost names = raw_names(states@);
    let len: usize = states.len();
    for i in 0..len
        invariant
            len == states@.len(),
            names == raw_names(states@),
            forall|k: int| 0 <= k < i ==> !repeats_earlier(names, k),
    {
        if repeats_at(states, i) {
            proof {
                lemma_first_repeat_is_choice(names, i as int);
            }
            return Some(i);
        }
    }
    None
}

/// Whether the name at position `i` occurs at an earlier position.
fn repeats_at(states: &Vec<RawState>, i: usize) -> (b: bool)
    requires
        i < states@.len(),
    ensures
        b == repeats_earlier(raw_names(states@), i as int),
{
    let ghost names = raw_names(states@);
    for j in 0..i
        invariant
            i < states@.len(),
            names == raw_names(states@),
            forall|k: int| 0 <= k < j ==> names[k] != names[i as int],
    {
        if str_eq(states[j].name.as_str(), states[i].name.as_str()) {
            proof {
                assert(names[j as int] == names[i as int]);
            }
            return true;
        }
    }
    false
}

proof fn lemma_first_repeat_is_choice(names: Seq<Seq<char>>, i: int)
    requires
        repeats_earlier(names, i),
        forall|k: int| 0 <= k < i ==> !repeats_earlier(names, k),
    ensures
        i == choose|c: int| repeats_earlier(names, c) && forall|k: int| 0 <= k < c ==> !repeats_earlier(names, k),
{
    let c = choose|c: int| repeats_earlier(names, c) && forall|k: int| 0 <= k < c ==> !repeats_earlier(names, k);
    assert(repeats_earlier(names, c));
    if c < i {
        assert(!repeats_earlier(names, c));
    } else if c > i {
        assert(!repeats_earlier(names, i));
    }
}

/// Every transition of a successfully checked action names a known state.
proof fn lemma_action_targets_known(raw: RawState, names: Seq<Seq<char>>)
    requires
        spec_action(raw, names) is Ok,
    ensures
        forall|k: int|
            0 <= k < action_targets(spec_action(raw, names)->Ok_0).len() ==> names.contains(
                #[trigger] action_targets(spec_action(raw, names)->Ok_0)[k],
            ),
{
}

/// The checked actions keep the states' names and order.
proof fn lemma_actions_shape(states: Seq<RawState>, names: Seq<Seq<char>>)
    requires
        spec_actions(states, names) is Ok,
    ensures
        spec_actions(states, names)->Ok_0.len() == states.len(),
        forall|i: int|
            0 <= i < states.len() ==> (#[trigger] spec_actions(states, names)->Ok_0[i]).0
                == states[i].name@ && spec_action(states[i], names) is Ok
                && spec_actions(states, names)->Ok_0[i].1 == spec_action(states[i], names)->Ok_0,
    decreases states.len(),
{
    if states.len() > 0 {
        lemma_actions_shape(states.drop_last(), names);
        assert forall|i: int| 0 <= i < states.len() implies (#[trigger] spec_actions(states, names)->Ok_0[i]).0
            == states[i].name@ && spec_action(states[i], names) is Ok
            && spec_actions(states, names)->Ok_0[i].1 == spec_action(states[i], names)->Ok_0 by {
            if i < states.len() - 1 {
                assert(states.drop_last()[i] == states[i]);
            }
        }
    }
}

/// A document that validates yields a well-formed graph: at least one state,
/// distinct state names, an initial state that names a state, and every
/// transition (`on_success`, `on_failure`, `on_pass`, `on_fail`, `target`)
/// naming a defined state.
pub proof fn lemma_validated_graph_well_formed(raw: RawStateMachine)
    requires
        spec_validate(raw) is Ok,
    ensures
        graph_well_formed(
            MachineView {
                name: opt_view(raw.name),
                initial_state: raw.initial_state@,
                states: spec_validate(raw)->Ok_0,
            },
        ),
{
    let names = raw_names(raw.states@);
    let states = spec_validate(raw)->Ok_0;
    assert(!exists|i: int| repeats_earlier(names, i));
    lemma_actions_shape(raw.states@, names);
    let sn = state_names(states);
    assert(sn =~= names);
    assert forall|i: int, j: int| 0 <= i < j < sn.len() implies sn[i] != sn[j] by {
        assert(!repeats_earlier(names, j));
    }
    assert forall|i: int, k: int|
        0 <= i < states.len() && 0 <= k < action_targets(states[i].1).len() implies sn.contains(
            #[trigger] action_targets(states[i].1)[k],
        ) by {
        lemma_action_targets_known(raw.states@[i], names);
    }
}

/// Once the actions of a prefix fail, every longer prefix fails with the same
/// message.
proof fn lemma_actions_error_persists(states: Seq<RawState>, names: Seq<Seq<char>>, k: int)
    requires
        0 < k <= states.len(),
        spec_actions(states.take(k), names) is Err,
    ensures
        spec_actions(states, names) == spec_actions(states.take(k), names),
    decreases states.len() - k,
{
    if k == states.len() {
        assert(states.take(k) =~= states);
    } else {
        assert(states.take(k + 1).drop_last() =~= states.take(k));
        lemma_actions_error_persists(states, names, k + 1);
    }
}

} // verus!
