//! Blueprint workflows: the state-machine model derived from GitHub Actions
//! workflow documents.
//!
//! Each GHA job maps to one state: the first job with no `needs:` is the
//! initial state, `on: schedule:` gives the cron schedule, `on:
//! workflow_dispatch:` the trigger, and transitions come from downstream jobs'
//! `needs:` + `if:` conditions.
use crate::text::str_eq;
use vstd::prelude::*;

verus! {

#[verifier::external_type_specification]
#[verifier::external_body]
pub struct ExYamlValue(serde_yaml::Value);

/// A blueprint workflow document.
///
/// `states` holds one entry per job, keyed by job name; names are unique.
#[derive(Debug, Clone)]
pub struct BlueprintWorkflow {
    pub name: Option<String>,
    pub initial_state: Option<String>,
    pub schedule: Option<ScheduleConfig>,
    pub trigger: Option<TriggerConfig>,
    /// States keyed by job name.
    pub states: Vec<(String, StateConfig)>,
}

/// Cron-based schedule for entry-point workflows.
#[derive(Debug, Clone)]
pub struct ScheduleConfig {
    pub cron: String,
    pub description: Option<String>,
}

/// Event trigger for entry-point workflows.
#[derive(Debug, Clone)]
pub struct TriggerConfig {
    pub event: Option<String>,
    pub pattern: Option<String>,
    pub branch_constraint: Option<String>,
    pub ci_entry: Option<String>,
}

/// Where a state runs: on the local runtime or on GitHub Actions.
///
/// A job with `runs-on:` is a `GitHub` target; one without (for example a
/// `uses:` delegation) is `Local`.
#[derive(Debug, Clone, Copy, PartialEq, Eq, Structural)]
pub enum ExecutionTarget {
    /// Executed by the local runtime.
    Local,
    /// Dispatched to and executed by GitHub Actions.
    GitHub,
}

impl Default for ExecutionTarget {
    fn default() -> (t: Self)
        ensures
            t == ExecutionTarget::Local,
    {
        ExecutionTarget::Local
    }
}

/// Configuration for a single state (job).
#[derive(Debug, Clone)]
pub struct StateConfig {
    pub kind: Option<StateKind>,
    pub role: Option<String>,
    pub cost: Option<AgentCost>,
    pub description: Option<String>,
    pub prompt: Option<String>,
    /// Where this state runs.
    pub execution_target: ExecutionTarget,
    /// For `kind: function` states.
    pub function: Option<String>,
    /// For `kind: deterministic` states with a shell command.
    pub command: Option<String>,
    /// For `kind: workflow` states — the referenced workflow name stem.
    pub workflow: Option<String>,
    /// For `kind: github` states.
    pub actor: Option<String>,
    pub trigger: Option<String>,
    pub workflows: Option<Vec<WorkflowRef>>,
    pub poll_cmd: Option<String>,
    /// CI job specification, carried as read.
    pub ci_job: Option<serde_yaml::Value>,
    /// Completion criteria for agent/human states.
    pub completion: Option<CompletionCriteria>,
    /// Cleanup commands.
    pub cleanup: Option<Vec<CleanupStep>>,
    /// Inline gates, carried as read.
    pub gates: Option<Vec<serde_yaml::Value>>,
    /// Transition spec.
    pub next: Option<NextSpec>,
}

/// The kind of actor or evaluation strategy for a state.
#[derive(Debug, Clone, Copy, PartialEq, Eq, Structural)]
pub enum StateKind {
    Deterministic,
    Agent,
    Human,
    Github,
    Function,
    Workflow,
    Terminal,
    GitHook,
    Ci,
}

/// Cost tier for agent states.
#[derive(Debug, Clone, Copy, PartialEq, Eq, Structural)]
pub enum AgentCost {
    Guru,
    Default,
    Cheap,
}

/// Reference to a GitHub Actions workflow path and check names.
#[derive(Debug, Clone)]
pub struct WorkflowRef {
    pub path: Option<String>,
    pub check_names: Option<Vec<String>>,
}

/// Completion criteria: `all_of`, `any_of`, or both.
#[derive(Debug, Clone)]
pub struct CompletionCriteria {
    pub all_of: Option<Vec<String>>,
    pub any_of: Option<Vec<String>>,
}

/// A cleanup command run after a state exits.
#[derive(Debug, Clone)]
pub struct CleanupStep {
    pub cmd: Option<String>,
    pub purpose: Option<String>,
}

// ── Transition specs ─────────────────────────────────────────────────────────

/// A transition specification as it appears in a document: either a mapping
/// `{ event: target, ... }` (optionally with a nested `on: { event: target }`
/// mapping) or some other value, which has no transitions.
#[derive(Debug, Clone)]
pub enum NextSpec {
    Mapping(Vec<NextEntry>),
    Other,
}

/// One entry of a transition mapping.  `key` is `None` when the key is not a
/// string.
#[derive(Debug, Clone)]
pub struct NextEntry {
    pub key: Option<String>,
    pub value: NextValue,
}

/// The value of a transition entry.
#[derive(Debug, Clone)]
pub enum NextValue {
    /// A string — a target state name.
    Text(String),
    /// A nested mapping; each pair holds the key and the value when they are
    /// strings.
    Nested(Vec<(Option<String>, Option<String>)>),
    /// Any other value.
    Other,
}

/// The mathematical value of a transition entry.
pub enum EntryView {
    Text(Seq<char>),
    Nested(Seq<(Option<Seq<char>>, Option<Seq<char>>)>),
    Other,
}

pub open spec fn os(o: Option<String>) -> Option<Seq<char>> {
    match o {
        Some(s) => Some(s@),
        None => None,
    }
}

/// A copy of an optional string.
pub fn copy_opt(o: &Option<String>) -> (r: Option<String>)
    ensures
        os(r) == os(*o),
{
    match o {
        Some(s) => Some(s.clone()),
        None => None,
    }
}

pub open spec fn pair_view(p: (Option<String>, Option<String>)) -> (Option<Seq<char>>, Option<Seq<char>>) {
    (os(p.0), os(p.1))
}

/// The value of a nested mapping.
pub open spec fn nested_view(m: Seq<(Option<String>, Option<String>)>) -> Seq<(Option<Seq<char>>, Option<Seq<char>>)> {
    m.map_values(|p: (Option<String>, Option<String>)| pair_view(p))
}

/// The keys (`keys`) or values (`!keys`) of a nested mapping.
pub open spec fn nested_side(m: Seq<(Option<Seq<char>>, Option<Seq<char>>)>, keys: bool) -> Seq<Option<Seq<char>>> {
    m.map_values(|p: (Option<Seq<char>>, Option<Seq<char>>)| if keys { p.0 } else { p.1 })
}

/// The views of a list of string slices.
pub open spec fn strs(v: Seq<&str>) -> Seq<Seq<char>> {
    v.map_values(|s: &str| s@)
}

pub open spec fn entry_value(e: NextEntry) -> EntryView {
    match e.value {
        NextValue::Text(s) => EntryView::Text(s@),
        NextValue::Nested(m) => EntryView::Nested(nested_view(m@)),
        NextValue::Other => EntryView::Other,
    }
}

/// The entries of a spec as `(key, value)` pairs; no entries when it is not a
/// mapping.
pub open spec fn spec_entries(n: NextSpec) -> Seq<(Option<Seq<char>>, EntryView)> {
    match n {
        NextSpec::Mapping(es) => es@.map_values(|e: NextEntry| (os(e.key), entry_value(e))),
        NextSpec::Other => Seq::empty(),
    }
}

/// Whether `i` is the first position of an entry with key `key`.
pub open spec fn first_key<V>(es: Seq<(Option<Seq<char>>, V)>, key: Seq<char>, i: int) -> bool {
    0 <= i < es.len() && es[i].0 == Some(key) && forall|k: int| 0 <= k < i ==> es[k].0 != Some(key)
}

/// The value under `key` in a list of entries (the first one, as a mapping
/// lookup finds it).
pub open spec fn lookup<V>(es: Seq<(Option<Seq<char>>, V)>, key: Seq<char>) -> Option<V> {
    if exists|i: int| first_key(es, key, i) {
        Some(es[choose|i: int| first_key(es, key, i)].1)
    } else {
        None
    }
}

/// The target a spec names for `outcome`: a top-level key first (its value
/// when that is a string), then a key of the nested `on:` mapping.
pub open spec fn spec_target_for(n: NextSpec, outcome: Seq<char>) -> Option<Seq<char>> {
    let es = spec_entries(n);
    match lookup(es, outcome) {
        Some(EntryView::Text(t)) => Some(t),
        Some(_) => None,
        None => match lookup(es, "on"@) {
            Some(EntryView::Nested(m)) => match lookup(m, outcome) {
                Some(v) => v,
                None => None,
            },
            _ => None,
        },
    }
}

/// The event names of a spec, in order: every string key, with the nested
/// `on:` mapping contributing its string keys in its place.
pub open spec fn spec_event_keys(es: Seq<(Option<Seq<char>>, EntryView)>) -> Seq<Seq<char>>
    decreases es.len(),
{
    if es.len() == 0 {
        Seq::empty()
    } else {
        let prev = spec_event_keys(es.drop_last());
        match es.last().0 {
            None => prev,
            Some(k) => if k == "on"@ {
                match es.last().1 {
                    EntryView::Nested(m) => prev + somes(nested_side(m, true)),
                    _ => prev,
                }
            } else {
                prev.push(k)
            },
        }
    }
}

/// The target names of a spec, in order: the string value of every string
/// key, with the nested `on:` mapping contributing its string values.
pub open spec fn spec_targets(es: Seq<(Option<Seq<char>>, EntryView)>) -> Seq<Seq<char>>
    decreases es.len(),
{
    if es.len() == 0 {
        Seq::empty()
    } else {
        let prev = spec_targets(es.drop_last());
        match es.last().0 {
            None => prev,
            Some(k) => if k == "on"@ {
                match es.last().1 {
                    EntryView::Nested(m) => prev + somes(nested_side(m, false)),
                    _ => prev,
                }
            } else {
                match es.last().1 {
                    EntryView::Text(t) => prev.push(t),
                    _ => prev,
                }
            },
        }
    }
}

/// The present values of a list of optional values, in order.
pub open spec fn somes(s: Seq<Option<Seq<char>>>) -> Seq<Seq<char>>
    decreases s.len(),
{
    if s.len() == 0 {
        Seq::empty()
    } else {
        match s.last() {
            Some(x) => somes(s.drop_last()).push(x),
            None => somes(s.drop_last()),
        }
    }
}

fn opt_eq(o: &Option<String>, s: &str) -> (b: bool)
    ensures
        b == (os(*o) == Some(s@)),
{
    match o {
        Some(x) => str_eq(x.as_str(), s),
        None => false,
    }
}

/// The first entry with the given key.
fn find_entry<'a>(es: &'a Vec<NextEntry>, key: &str) -> (r: Option<&'a NextEntry>)
    ensures
        match lookup(es@.map_values(|e: NextEntry| (os(e.key), entry_value(e))), key@) {
            Some(v) => r matches Some(e) && entry_value(*e) == v,
            None => r is None,
        },
{
    let ghost v = es@.map_values(|e: NextEntry| (os(e.key), entry_value(e)));
    let n: usize = es.len();
    for i in 0..n
        invariant
            n == es@.len(),
            v == es@.map_values(|e: NextEntry| (os(e.key), entry_value(e))),
            forall|k: int| 0 <= k < i ==> v[k].0 != Some(key@),
    {
        if opt_eq(&es[i].key, key) {
            proof {
                assert(first_key(v, key@, i as int));
                let c = choose|c: int| first_key(v, key@, c);
                if c < i {
                } else if c > i {
                    assert(v[i as int].0 == Some(key@));
                }
            }
            return Some(&es[i]);
        }
    }
    proof {
        if exists|c: int| first_key(v, key@, c) {
            let c = choose|c: int| first_key(v, key@, c);
            assert(v[c].0 == Some(key@));
        }
    }
    None
}

/// The value under `key` in a nested mapping.
fn find_pair<'a>(m: &'a Vec<(Option<String>, Option<String>)>, key: &str) -> (r: Option<&'a Option<String>>)
    ensures
        match lookup(nested_view(m@), key@) {
            Some(v) => r matches Some(x) && os(*x) == v,
            None => r is None,
        },
{
    let ghost v = nested_view(m@);
    let n: usize = m.len();
    for i in 0..n
        invariant
            n == m@.len(),
            v == nested_view(m@),
            forall|k: int| 0 <= k < i ==> v[k].0 != Some(key@),
    {
        if opt_eq(&m[i].0, key) {
            proof {
                assert(first_key(v, key@, i as int));
                let c = choose|c: int| first_key(v, key@, c);
                if c < i {
                } else if c > i {
                    assert(v[i as int].0 == Some(key@));
                }
            }
            return Some(&m[i].1);
        }
    }
    proof {
        if exists|c: int| first_key(v, key@, c) {
            let c = choose|c: int| first_key(v, key@, c);
            assert(v[c].0 == Some(key@));
        }
    }
    None
}

impl NextSpec {
    /// The target state for a named outcome (`"on_success"`, `"pass"`, an
    /// `on:` event name, ...).
    pub fn target_for(&self, outcome: &str) -> (r: Option<&str>)
        ensures
            match spec_target_for(*self, outcome@) {
                Some(t) => r matches Some(s) && s@ == t,
                None => r is None,
            },
    {
        let es = match self {
            NextSpec::Mapping(es) => es,
            NextSpec::Other => return None,
        };
        match find_entry(es, outcome) {
            Some(e) => {
                return match &e.value {
                    NextValue::Text(t) => Some(t.as_str()),
                    _ => None,
                };
            },
            None => {},
        }
        match find_entry(es, "on") {
            Some(e) => match &e.value {
                NextValue::Nested(m) => match find_pair(m, outcome) {
                    Some(Some(t)) => Some(t.as_str()),
                    _ => None,
                },
                _ => None,
            },
            None => None,
        }
    }

    /// Every event key of this spec, flat and nested under `on:`.
    pub fn all_event_keys(&self) -> (r: Vec<&str>)
        ensures
            strs(r@) == spec_event_keys(spec_entries(*self)),
    {
        let mut keys: Vec<&str> = Vec::new();
        let es = match self {
            NextSpec::Mapping(es) => es,
            NextSpec::Other => return keys,
        };
        let ghost all = spec_entries(*self);
        let n: usize = es.len();
        for i in 0..n
            invariant
                n == es@.len(),
                all == spec_entries(*self),
                all == es@.map_values(|e: NextEntry| (os(e.key), entry_value(e))),
                strs(keys@) == spec_event_keys(all.take(i as int)),
        {
            proof {
                assert(all.take(i + 1).drop_last() =~= all.take(i as int));
                assert(all.take(i + 1).last() == all[i as int]);
            }
            let e = &es[i];
            proof {
                assert(all[i as int] == (os(e.key), entry_value(*e)));
            }
            match &e.key {
                Some(k) => {
                    if str_eq(k.as_str(), "on") {
                        match &e.value {
                            NextValue::Nested(m) => {
                                push_present(&mut keys, m, true);

                            },
                            _ => {},
                        }
                    } else {
                        let ghost before = keys@;
                        keys.push(k.as_str());
                        proof {
                            assert(strs(keys@) =~= strs(before).push(k@));
                        }
                    }
                },
                None => {},
            }
        }
        proof {
            assert(all.take(n as int) =~= all);
        }
        keys
    }

    /// Every target state named by this spec, flat and nested under `on:`.
    pub fn all_targets(&self) -> (r: Vec<&str>)
        ensures
            strs(r@) == spec_targets(spec_entries(*self)),
    {
        let mut targets: Vec<&str> = Vec::new();
        let es = match self {
            NextSpec::Mapping(es) => es,
            NextSpec::Other => return targets,
        };
        let ghost all = spec_entries(*self);
        let n: usize = es.len();
        for i in 0..n
            invariant
                n == es@.len(),
                all == spec_entries(*self),
                all == es@.map_values(|e: NextEntry| (os(e.key), entry_value(e))),
                strs(targets@) == spec_targets(all.take(i as int)),
        {
            proof {
                assert(all.take(i + 1).drop_last() =~= all.take(i as int));
                assert(all.take(i + 1).last() == all[i as int]);
            }
            let e = &es[i];
            proof {
                assert(all[i as int] == (os(e.key), entry_value(*e)));
            }
            match &e.key {
                Some(k) => {
                    if str_eq(k.as_str(), "on") {
                        match &e.value {
                            NextValue::Nested(m) => {
                                push_present(&mut targets, m, false);

                            },
                            _ => {},
                        }
                    } else {
                        match &e.value {
                            NextValue::Text(t) => {
                                let ghost before = targets@;
                                targets.push(t.as_str());
                                proof {
                                    assert(strs(targets@) =~= strs(before).push(t@));
                                }
                            },
                            _ => {},
                        }
                    }
                },
                None => {},
            }
        }
        proof {
            assert(all.take(n as int) =~= all);
        }
        targets
    }
}

/// Appends the present keys (`keys`) or values (`!keys`) of a nested mapping.
fn push_present<'a>(out: &mut Vec<&'a str>, m: &'a Vec<(Option<String>, Option<String>)>, keys: bool)
    ensures
        strs(final(out)@) == strs(old(out)@) + somes(nested_side(nested_view(m@), keys)),
{
    let ghost start = strs(old(out)@);
    let ghost src = nested_side(nested_view(m@), keys);
    let n: usize = m.len();
    for i in 0..n
        invariant
            n == m@.len(),
            src == nested_side(nested_view(m@), keys),
            strs(out@) == start + somes(src.take(i as int)),
    {
        proof {
            assert(src.take(i + 1).drop_last() =~= src.take(i as int));
            assert(src.take(i + 1).last() == src[i as int]);
        }
        let item = if keys { &m[i].0 } else { &m[i].1 };
        match item {
            Some(s) => {
                let ghost before = out@;
                out.push(s.as_str());
                proof {
                    assert(strs(out@) =~= strs(before).push(s@));
                    assert(src[i as int] == Some(s@));
                }
            },
            None => {},
        }
    }
    proof {
        assert(src.take(n as int) =~= src);
    }
}

// ── Workflows ────────────────────────────────────────────────────────────────

/// Whether `i` is the first position of a state named `name`.
pub open spec fn first_state(states: Seq<(String, StateConfig)>, name: Seq<char>, i: int) -> bool {
    0 <= i < states.len() && states[i].0@ == name && forall|k: int| 0 <= k < i ==> states[k].0@ != name
}

/// The configuration of the (first) state named `name`.
pub open spec fn state_of(w: BlueprintWorkflow, name: Seq<char>) -> Option<StateConfig> {
    if exists|i: int| first_state(w.states@, name, i) {
        Some(w.states@[choose|i: int| first_state(w.states@, name, i)].1)
    } else {
        None
    }
}

impl BlueprintWorkflow {
    /// The configuration of the state named `name`.
    pub fn state(&self, name: &str) -> (r: Option<&StateConfig>)
        ensures
            match state_of(*self, name@) {
                Some(c) => r matches Some(x) && *x == c,
                None => r is None,
            },
    {
        let n: usize = self.states.len();
        for i in 0..n
            invariant
                n == self.states@.len(),
                forall|k: int| 0 <= k < i ==> self.states@[k].0@ != name@,
        {
            if str_eq(self.states[i].0.as_str(), name) {
                proof {
                    assert(first_state(self.states@, name@, i as int));
                    let c = choose|c: int| first_state(self.states@, name@, c);
                    if c < i {
                    } else if c > i {
                        assert(self.states@[i as int].0@ == name@);
                    }
                }
                return Some(&self.states[i].1);
            }
        }
        proof {
            if exists|c: int| first_state(self.states@, name@, c) {
                let c = choose|c: int| first_state(self.states@, name@, c);
                assert(self.states@[c].0@ == name@);
            }
        }
        None
    }
}

// ── The workflow library ─────────────────────────────────────────────────────

/// The blueprint workflow documents: `(stem, yaml)` pairs in the order they
/// were supplied.
#[derive(Debug, Clone)]
pub struct BlueprintWorkflowLibrary {
    documents: Vec<(String, String)>,
}

impl BlueprintWorkflowLibrary {
    /// The `(stem, yaml)` pairs.
    pub closed spec fn documents(&self) -> Seq<(String, String)> {
        self.documents@
    }

    /// The stems, in order.
    pub open spec fn stems(&self) -> Seq<Seq<char>> {
        self.documents().map_values(|p: (String, String)| p.0@)
    }

    /// The YAML of the first document with stem `name`.
    pub open spec fn spec_get(&self, name: Seq<char>) -> Option<Seq<char>> {
        if exists|i: int| 0 <= i < self.documents().len() && #[trigger] self.documents()[i].0@ == name {
            let i = choose|i: int|
                0 <= i < self.documents().len() && #[trigger] self.documents()[i].0@ == name && forall|k: int|
                    0 <= k < i ==> self.documents()[k].0@ != name;
            Some(self.documents()[i].1@)
        } else {
            None
        }
    }

    /// A library of the given documents.
    pub fn new(documents: Vec<(String, String)>) -> (r: BlueprintWorkflowLibrary)
        ensures
            r.documents() == documents@,
    {
        BlueprintWorkflowLibrary { documents }
    }

    /// All documents as `(stem, yaml)` pairs.
    pub fn list(&self) -> (r: &Vec<(String, String)>)
        ensures
            r@ == self.documents(),
    {
        &self.documents
    }

    /// The YAML of the workflow with the given stem.
    pub fn get(&self, name: &str) -> (r: Option<&str>)
        ensures
            match self.spec_get(name@) {
                Some(y) => r matches Some(s) && s@ == y,
                None => r is None,
            },
    {
        let n: usize = self.documents.len();
        for i in 0..n
            invariant
                n == self.documents@.len(),
                forall|k: int| 0 <= k < i ==> self.documents@[k].0@ != name@,
        {
            if str_eq(self.documents[i].0.as_str(), name) {
                proof {
                    let w = choose|w: int|
                        0 <= w < self.documents().len() && #[trigger] self.documents()[w].0@ == name@ && forall|k: int|
                            0 <= k < w ==> self.documents()[k].0@ != name@;
                    assert(self.documents()[i as int].0@ == name@ && forall|k: int|
                        0 <= k < i ==> self.documents()[k].0@ != name@);
                    if w < i {
                    } else if w > i {
                    }
                }
                return Some(self.documents[i].1.as_str());
            }
        }
        None
    }
}

} // verus!
