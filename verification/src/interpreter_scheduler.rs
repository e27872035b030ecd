//! The interpreter scheduler: what to do with the discovered entry points.
//!
//! In single-pass mode the scheduler reports how many entry points it found.
//! In daemon mode it waits for the first cron-scheduled entry point to fire
//! (checking the shutdown signal between waits) and reports the workflow to
//! run; without a cron entry it reports the manual workflows found.
use crate::interpreter::{
    entry_views, reg_get, EntryPoint, EntryView, WorkflowInterpreter, WorkflowPosition,
};
use crate::signal::SignalKind;
use crate::text::{owned, seq_join, views};
use vstd::prelude::*;

verus! {

/// Whether the scheduler blocks until the next cron fire.
#[derive(Debug, Clone, Copy, PartialEq, Eq, Structural)]
pub enum SchedulerMode {
    /// Block until the next cron fire (or shutdown).
    Daemon,
    /// Discover entry points and return at once.
    SinglePass,
}

/// The result of a scheduler run.
#[derive(Debug, Clone, PartialEq, Eq)]
pub enum SchedulerOutcome {
    /// A cron-scheduled entry point fired.
    Fired { workflow: String, initial_state: String },
    /// Entry points were discovered (single-pass mode).
    Discovered { entry_point_count: usize },
    /// The shutdown signal came before the next cron fire.
    Interrupted,
    /// No cron-scheduled entry point exists; these manual workflows do.
    NoCronEntries { user_action_workflows: Vec<String> },
    /// The workflows or a cron expression could not be loaded.
    LoadError(String),
}

/// What the scheduler does with the entry points.
#[derive(Debug, Clone, PartialEq, Eq)]
pub enum SchedulePlan {
    /// Finish with this outcome.
    Finish(SchedulerOutcome),
    /// Wait for `cron` to fire, then run `workflow`.
    WaitFor { workflow: String, cron: String },
}

/// The first cron-scheduled entry point, as `(workflow, cron)`.
pub open spec fn first_cron(es: Seq<EntryView>) -> Option<(Seq<char>, Seq<char>)>
    decreases es.len(),
{
    if es.len() == 0 {
        None
    } else {
        match es[0] {
            EntryView::CronScheduled { workflow, cron, .. } => Some((workflow, cron)),
            _ => first_cron(es.drop_first()),
        }
    }
}

/// The workflows of the user-action entry points, in order.
pub open spec fn user_actions(es: Seq<EntryView>) -> Seq<Seq<char>>
    decreases es.len(),
{
    if es.len() == 0 {
        Seq::empty()
    } else {
        let prev = user_actions(es.drop_last());
        match es.last() {
            EntryView::UserAction { workflow, .. } => prev.push(workflow),
            _ => prev,
        }
    }
}

/// The workflow an entry point names.
pub open spec fn entry_workflow(e: EntryView) -> Seq<char> {
    match e {
        EntryView::UserAction { workflow, .. } => workflow,
        EntryView::EventTriggered { workflow, .. } => workflow,
        EntryView::CronScheduled { workflow, .. } => workflow,
        EntryView::AutoStart { workflow, .. } => workflow,
    }
}

/// The workflow and cron expression of a cron-scheduled entry point.
pub open spec fn cron_pair(e: EntryView) -> (Seq<char>, Seq<char>) {
    match e {
        EntryView::CronScheduled { workflow, cron, .. } => (workflow, cron),
        _ => (Seq::empty(), Seq::empty()),
    }
}

/// Entry `i` is the first cron-scheduled entry point.
pub open spec fn first_cron_at(es: Seq<EntryView>, i: int) -> bool {
    &&& 0 <= i < es.len()
    &&& es[i] is CronScheduled
    &&& forall|j: int| 0 <= j < i ==> !(#[trigger] es[j] is CronScheduled)
}

/// The daemon waits on the first cron-scheduled entry point, in order: the
/// chosen `(workflow, cron)` are those of the earliest such entry, and there
/// is none exactly when no entry point is cron-scheduled.
pub proof fn lemma_first_cron_is_earliest(es: Seq<EntryView>)
    ensures
        first_cron(es) is None <==> forall|j: int| 0 <= j < es.len() ==> !(#[trigger] es[j] is CronScheduled),
        first_cron(es) is Some ==> exists|i: int| first_cron_at(es, i) && cron_pair(#[trigger] es[i]) == first_cron(es)->0,
    decreases es.len(),
{
    if es.len() > 0 {
        let t = es.drop_first();
        lemma_first_cron_is_earliest(t);
        assert forall|j: int| 0 <= j < t.len() implies #[trigger] t[j] == es[j + 1] by {}
        if !(es[0] is CronScheduled) {
            if first_cron(t) is Some {
                let i = choose|i: int| first_cron_at(t, i) && cron_pair(#[trigger] t[i]) == first_cron(t)->0;
                assert(es[i + 1] == t[i]);
                assert forall|j: int| 0 <= j < i + 1 implies !(#[trigger] es[j] is CronScheduled) by {
                    if j > 0 {
                        assert(es[j] == t[j - 1]);
                    }
                }
                assert(first_cron_at(es, i + 1));
            } else {
                assert forall|j: int| 0 <= j < es.len() implies !(#[trigger] es[j] is CronScheduled) by {
                    if j > 0 {
                        assert(es[j] == t[j - 1]);
                    }
                }
            }
        } else {
            assert(first_cron_at(es, 0));
        }
    }
}

/// Whether an entry point is a user-action (manual) one.
pub open spec fn is_manual() -> spec_fn(EntryView) -> bool {
    |e: EntryView| e is UserAction
}

/// The workflows of the user-action entry points, in order.
pub open spec fn manual_workflows(es: Seq<EntryView>) -> Seq<Seq<char>> {
    es.filter(is_manual()).map_values(|e: EntryView| entry_workflow(e))
}

/// The manual workflows reported when no cron entry exists are exactly the
/// workflows of all user-action entry points, in order: one per user-action
/// entry, none for any other kind.
pub proof fn lemma_user_actions_are_every_manual_entry(es: Seq<EntryView>)
    ensures
        user_actions(es) == manual_workflows(es),
        user_actions(es).len() == es.filter(is_manual()).len(),
    decreases es.len(),
{
    if es.len() > 0 {
        lemma_user_actions_are_every_manual_entry(es.drop_last());
        let f = es.drop_last().filter(is_manual());
        reveal(Seq::filter);
        assert(es.filter(is_manual()) == (if es.last() is UserAction {
            f.push(es.last())
        } else {
            f
        }));
        assert(manual_workflows(es.drop_last()) == f.map_values(|e: EntryView| entry_workflow(e)));
        if es.last() is UserAction {
            assert(f.push(es.last()).map_values(|e: EntryView| entry_workflow(e)) =~= f.map_values(
                |e: EntryView| entry_workflow(e),
            ).push(entry_workflow(es.last())));
        }
    }
}

/// Decides what the scheduler does with the discovered entry points.
pub fn plan_schedule(mode: SchedulerMode, entries: &Vec<EntryPoint>) -> (r: SchedulePlan)
    ensures
        mode == SchedulerMode::SinglePass ==> (r matches SchedulePlan::Finish(SchedulerOutcome::Discovered { entry_point_count })
            && entry_point_count == entries@.len()),
        mode == SchedulerMode::Daemon ==> match first_cron(entry_views(entries@)) {
            Some(p) => r matches SchedulePlan::WaitFor { workflow, cron } && workflow@ == p.0 && cron@ == p.1,
            None => r matches SchedulePlan::Finish(SchedulerOutcome::NoCronEntries { user_action_workflows })
                && views(user_action_workflows@) == user_actions(entry_views(entries@))
                && views(user_action_workflows@) == manual_workflows(entry_views(entries@)),
        },
        mode == SchedulerMode::Daemon ==> match r {
            SchedulePlan::WaitFor { workflow, cron } => exists|i: int|
                first_cron_at(entry_views(entries@), i) && cron_pair(#[trigger] entry_views(entries@)[i]) == (
                workflow@,
                cron@,
            ),
            SchedulePlan::Finish(_) => forall|j: int|
                0 <= j < entries@.len() ==> !(#[trigger] entry_views(entries@)[j] is CronScheduled),
        },
{
    match mode {
        SchedulerMode::SinglePass => SchedulePlan::Finish(SchedulerOutcome::Discovered { entry_point_count: entries.len() }),
        SchedulerMode::Daemon => {
            let ghost es = entry_views(entries@);
            let n: usize = entries.len();
            let mut names: Vec<String> = Vec::new();
            proof {
                assert(es.skip(0) =~= es);
            }
            for i in 0..n
                invariant
                    mode == SchedulerMode::Daemon,
                    n == entries@.len(),
                    es == entry_views(entries@),
                    first_cron(es.skip(i as int)) == first_cron(es),
                    views(names@) == user_actions(es.take(i as int)),
            {
                proof {
                    assert(es.skip(i as int)[0] == entries@[i as int]@);
                    assert(es.skip(i as int).drop_first() =~= es.skip(i + 1));
                    assert(es.take(i + 1).drop_last() =~= es.take(i as int));
                    assert(es.take(i + 1).last() == entries@[i as int]@);
                }
                match &entries[i] {
                    EntryPoint::CronScheduled { workflow, cron, .. } => {
                        proof {
                            lemma_first_cron_is_earliest(es);
                        }
                        return SchedulePlan::WaitFor { workflow: workflow.clone(), cron: cron.clone() };
                    },
                    EntryPoint::UserAction { workflow, .. } => {
                        let ghost before = views(names@);
                        names.push(workflow.clone());
                        proof {
                            assert(views(names@) =~= before.push(workflow@));
                        }
                    },
                    _ => {},
                }
            }
            proof {
                assert(es.skip(n as int) =~= Seq::<EntryView>::empty());
                assert(es.take(n as int) =~= es);
                lemma_user_actions_are_every_manual_entry(es);
                lemma_first_cron_is_earliest(es);
            }
            SchedulePlan::Finish(SchedulerOutcome::NoCronEntries { user_action_workflows: names })
        },
    }
}

pub open spec fn yaml_names(ns: Seq<Seq<char>>) -> Seq<Seq<char>> {
    ns.map_values(|n: Seq<char>| n + ".yaml"@)
}

/// The names as `<name>.yaml`, comma-separated.
pub fn yaml_list(names: &Vec<String>) -> (r: String)
    ensures
        r@ == seq_join(yaml_names(views(names@)), ", "@),
{
    let mut files: Vec<String> = Vec::new();
    let n: usize = names.len();
    for i in 0..n
        invariant
            n == names@.len(),
            views(files@) == yaml_names(views(names@)).take(i as int),
    {
        let mut f = names[i].clone();
        f.append(".yaml");
        let ghost before = views(files@);
        files.push(f);
        proof {
            assert(yaml_names(views(names@))[i as int] == names@[i as int]@ + ".yaml"@);
            assert(views(files@) =~= before.push(names@[i as int]@ + ".yaml"@));
            assert(yaml_names(views(names@)).take(i + 1) =~= yaml_names(views(names@)).take(i as int).push(yaml_names(views(names@))[i as int]));
        }
    }
    proof {
        assert(yaml_names(views(names@)).take(n as int) =~= yaml_names(views(names@)));
    }
    crate::text::join(&files, ", ")
}

/// The warning logged when no cron-scheduled entry point exists.
pub fn no_cron_message(user_action_workflows: &Vec<String>) -> (r: String)
    ensures
        user_action_workflows@.len() == 0 ==> r@ == "interpreter scheduler: no cron-scheduled entry points found"@,
        user_action_workflows@.len() > 0 ==> r@ == "interpreter scheduler: no cron-scheduled entry points found; manual workflows available: "@
            + seq_join(yaml_names(views(user_action_workflows@)), ", "@),
{
    if user_action_workflows.len() == 0 {
        owned("interpreter scheduler: no cron-scheduled entry points found")
    } else {
        let mut s = String::from_str("interpreter scheduler: no cron-scheduled entry points found; manual workflows available: ");
        let l = yaml_list(user_action_workflows);
        s.append(l.as_str());
        s
    }
}

/// One step of waiting for a cron fire.
#[derive(Debug, Clone, PartialEq, Eq)]
pub enum CronStep {
    /// The shutdown signal came.
    Interrupted,
    /// The cron expression could not be evaluated.
    LoadError(String),
    /// Sleep this long, then look again.
    Sleep { secs: u64, nanos: u32 },
    /// The schedule fires now.
    Fire,
}

/// Decides the next step of waiting for a cron fire, given the signal
/// received (if any) and the time until the next fire (seconds and
/// nanoseconds) or the error computing it: sleep at most a second at a time.
pub fn cron_step(signal: Option<SignalKind>, next_fire: Result<(u64, u32), String>) -> (r: CronStep)
    ensures
        signal is Some ==> r == CronStep::Interrupted,
        signal is None ==> match next_fire {
            Err(e) => r == CronStep::LoadError(e),
            Ok(w) => if w.0 == 0 && w.1 == 0 {
                r == CronStep::Fire
            } else if w.0 >= 1 {
                r == (CronStep::Sleep { secs: 1, nanos: 0 })
            } else {
                r == (CronStep::Sleep { secs: 0, nanos: w.1 })
            },
        },
{
    if signal.is_some() {
        return CronStep::Interrupted;
    }
    match next_fire {
        Err(e) => CronStep::LoadError(e),
        Ok(w) => {
            if w.0 == 0 && w.1 == 0 {
                CronStep::Fire
            } else if w.0 >= 1 {
                CronStep::Sleep { secs: 1, nanos: 0 }
            } else {
                CronStep::Sleep { secs: 0, nanos: w.1 }
            }
        },
    }
}

/// The outcome of firing `workflow_name`: its initial state, or `unknown`
/// when the workflow or its initial state is missing.
pub fn fired_outcome(interp: &WorkflowInterpreter, workflow_name: &str) -> (r: SchedulerOutcome)
    ensures
        r matches SchedulerOutcome::Fired { workflow, initial_state } && workflow@ == workflow_name@ && initial_state@
            == match reg_get(interp.registry.entries(), workflow_name@) {
            Some(w) => match crate::blueprint_workflows::os(w.initial_state) {
                Some(s) => s,
                None => "unknown"@,
            },
            None => "unknown"@,
        },
{
    let initial_state = match interp.registry.get(workflow_name) {
        Some(wf) => match &wf.initial_state {
            Some(s) => s.clone(),
            None => owned("unknown"),
        },
        None => owned("unknown"),
    };
    SchedulerOutcome::Fired { workflow: owned(workflow_name), initial_state }
}

/// The position at the initial state of a workflow, when it exists and has
/// one.
pub fn initial_position(interp: &WorkflowInterpreter, workflow_name: &str) -> (r: Option<WorkflowPosition>)
    ensures
        match reg_get(interp.registry.entries(), workflow_name@) {
            Some(w) => match crate::blueprint_workflows::os(w.initial_state) {
                Some(s) => r matches Some(p) && p@ == (workflow_name@, s),
                None => r is None,
            },
            None => r is None,
        },
{
    let wf = match interp.registry.get(workflow_name) {
        Some(w) => w,
        None => {
            return None;
        },
    };
    match &wf.initial_state {
        Some(s) => Some(WorkflowPosition { workflow: owned(workflow_name), state: s.clone() }),
        None => None,
    }
}

/// The message and fields logged for an entry point.
pub open spec fn entry_message(e: EntryView) -> Seq<char> {
    match e {
        EntryView::CronScheduled { workflow, cron, .. } => "entry point: cron '"@ + workflow + "' @ "@ + cron,
        EntryView::EventTriggered { workflow, event, .. } => "entry point: event '"@ + workflow + "' on "@ + event,
        EntryView::UserAction { workflow, .. } => "entry point: user '"@ + workflow + "'"@,
        EntryView::AutoStart { workflow, .. } => "entry point: auto '"@ + workflow + "'"@,
    }
}

/// The fields logged for an entry point, in key order.
pub open spec fn entry_fields(e: EntryView) -> Seq<(Seq<char>, Seq<char>)> {
    match e {
        EntryView::CronScheduled { workflow, cron, description } => seq![("cron"@, cron)] + (match description {
            Some(d) => seq![("description"@, d)],
            None => Seq::empty(),
        }) + seq![("kind"@, "cron"@), ("workflow"@, workflow)],
        EntryView::EventTriggered { workflow, event, pattern } => seq![("event"@, event), ("kind"@, "event"@)] + (match pattern {
            Some(p) => seq![("pattern"@, p)],
            None => Seq::empty(),
        }) + seq![("workflow"@, workflow)],
        EntryView::UserAction { workflow, description, .. } => (match description {
            Some(d) => seq![("description"@, d)],
            None => Seq::empty(),
        }) + seq![("kind"@, "user"@), ("workflow"@, workflow)],
        EntryView::AutoStart { workflow, description } => (match description {
            Some(d) => seq![("description"@, d)],
            None => Seq::empty(),
        }) + seq![("kind"@, "auto"@), ("workflow"@, workflow)],
    }
}

pub open spec fn pair_views(s: Seq<(String, String)>) -> Seq<(Seq<char>, Seq<char>)> {
    s.map_values(|p: (String, String)| (p.0@, p.1@))
}

fn push_field(fields: &mut Vec<(String, String)>, key: &str, value: &str)
    ensures
        pair_views(final(fields)@) == pair_views(old(fields)@).push((key@, value@)),
{
    let ghost before = fields@;
    fields.push((owned(key), owned(value)));
    proof {
        assert(pair_views(fields@) =~= pair_views(before).push((key@, value@)));
    }
}

/// The log line for a discovered entry point: its message, and its fields
/// in key order (the kind, the workflow, and the trigger details).
pub fn entry_point_log(e: &EntryPoint) -> (r: (String, Vec<(String, String)>))
    ensures
        r.0@ == entry_message(e@),
        pair_views(r.1@) == entry_fields(e@),
{
    let mut fields: Vec<(String, String)> = Vec::new();
    let mut msg: String;
    match e {
        EntryPoint::CronScheduled { workflow, cron, description } => {
            push_field(&mut fields, "cron", cron.as_str());
            match description {
                Some(d) => push_field(&mut fields, "description", d.as_str()),
                None => {},
            }
            push_field(&mut fields, "kind", "cron");
            push_field(&mut fields, "workflow", workflow.as_str());
            msg = String::from_str("entry point: cron '");
            msg.append(workflow.as_str());
            msg.append("' @ ");
            msg.append(cron.as_str());
        },
        EntryPoint::EventTriggered { workflow, event, pattern } => {
            push_field(&mut fields, "event", event.as_str());
            push_field(&mut fields, "kind", "event");
            match pattern {
                Some(p) => push_field(&mut fields, "pattern", p.as_str()),
                None => {},
            }
            push_field(&mut fields, "workflow", workflow.as_str());
            msg = String::from_str("entry point: event '");
            msg.append(workflow.as_str());
            msg.append("' on ");
            msg.append(event.as_str());
        },
        EntryPoint::UserAction { workflow, description, .. } => {
            match description {
                Some(d) => push_field(&mut fields, "description", d.as_str()),
                None => {},
            }
            push_field(&mut fields, "kind", "user");
            push_field(&mut fields, "workflow", workflow.as_str());
            msg = String::from_str("entry point: user '");
            msg.append(workflow.as_str());
            msg.append("'");
        },
        EntryPoint::AutoStart { workflow, description } => {
            match description {
                Some(d) => push_field(&mut fields, "description", d.as_str()),
                None => {},
            }
            push_field(&mut fields, "kind", "auto");
            push_field(&mut fields, "workflow", workflow.as_str());
            msg = String::from_str("entry point: auto '");
            msg.append(workflow.as_str());
            msg.append("'");
        },
    }
    proof {
        assert(pair_views(fields@) =~= entry_fields(e@));
    }
    (msg, fields)
}

} // verus!
