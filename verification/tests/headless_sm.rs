use nightshift_core::headless_sm::{
    validate_raw, HeadlessAction, HeadlessState, HeadlessStateMachine, RawState, RawStateMachine,
    ValidationError,
};

fn st(name: &str, action: &str) -> RawState {
    RawState {
        name: name.to_string(),
        action: action.to_string(),
        builtin: None,
        on_success: None,
        on_failure: None,
        on_pass: None,
        on_fail: None,
        target: None,
    }
}

fn s(v: &str) -> Option<String> {
    Some(v.to_string())
}

fn agent(name: &str, ok: &str, fail: &str) -> RawState {
    RawState { on_success: s(ok), on_failure: s(fail), ..st(name, "agent") }
}

fn builtin(name: &str, b: &str, pass: &str, fail: &str) -> RawState {
    RawState { builtin: s(b), on_pass: s(pass), on_fail: s(fail), ..st(name, "builtin") }
}

fn looping(name: &str, target: &str) -> RawState {
    RawState { target: s(target), ..st(name, "loop") }
}

fn machine(initial: &str, states: Vec<RawState>) -> RawStateMachine {
    RawStateMachine { name: None, initial_state: initial.to_string(), states }
}

fn ok(raw: RawStateMachine) -> HeadlessStateMachine {
    validate_raw(raw, "<test>").expect("expected a valid machine")
}

fn err_msg(raw: RawStateMachine) -> String {
    validate_raw(raw, "<test>").expect_err("expected a validation error").message
}

fn action_of(sm: &HeadlessStateMachine, name: &str) -> HeadlessAction {
    sm.state(name).expect("state should exist").action.clone()
}

#[test]
fn validation_error_display_includes_source_and_message() {
    let e = ValidationError {
        source: "my-file.yml".to_string(),
        message: "something went wrong".to_string(),
    };
    let display = e.to_string();
    assert!(display.contains("[my-file.yml]"));
    assert!(display.contains("something went wrong"));
}

#[test]
fn headless_action_debug_and_eq() {
    let a = HeadlessAction::Terminal;
    let b = HeadlessAction::Terminal;
    assert_eq!(a, b);
    assert_eq!(format!("{a:?}"), "Terminal");
}

#[test]
fn headless_state_debug_and_clone() {
    let s = HeadlessState { name: "idle".to_string(), action: HeadlessAction::Terminal };
    let s2 = s.clone();
    assert_eq!(s, s2);
    assert!(format!("{s:?}").contains("idle"));
}

#[test]
fn minimal_terminal_machine_loads() {
    let sm = ok(machine("idle", vec![st("idle", "terminal")]));
    assert_eq!(sm.initial_state, "idle");
    assert_eq!(sm.states.len(), 1);
    assert_eq!(action_of(&sm, "idle"), HeadlessAction::Terminal);
}

#[test]
fn agent_state_loads_correctly() {
    let sm = ok(machine(
        "work",
        vec![agent("work", "done", "error"), st("done", "terminal"), st("error", "terminal")],
    ));
    assert_eq!(
        action_of(&sm, "work"),
        HeadlessAction::Agent { on_success: "done".to_string(), on_failure: "error".to_string() }
    );
}

#[test]
fn builtin_state_loads_correctly() {
    let sm = ok(machine(
        "check",
        vec![
            builtin("check", "builtin.git.is_main_compatible", "done", "error"),
            st("done", "terminal"),
            st("error", "terminal"),
        ],
    ));
    assert_eq!(
        action_of(&sm, "check"),
        HeadlessAction::Builtin {
            builtin: "builtin.git.is_main_compatible".to_string(),
            on_pass: "done".to_string(),
            on_fail: "error".to_string(),
        }
    );
}

#[test]
fn loop_state_loads_correctly() {
    let sm = ok(machine(
        "scan",
        vec![agent("scan", "done", "retry"), looping("retry", "scan"), st("done", "terminal")],
    ));
    assert_eq!(action_of(&sm, "retry"), HeadlessAction::Loop { target: "scan".to_string() });
}

#[test]
fn optional_name_field_is_preserved() {
    let raw = RawStateMachine {
        name: s("my-recovery-workflow"),
        initial_state: "idle".to_string(),
        states: vec![st("idle", "terminal")],
    };
    assert_eq!(ok(raw).name, Some("my-recovery-workflow".to_string()));
}

#[test]
fn no_name_field_gives_none() {
    assert_eq!(ok(machine("idle", vec![st("idle", "terminal")])).name, None);
}

#[test]
fn empty_states_list_is_rejected() {
    let msg = err_msg(machine("idle", vec![]));
    assert!(msg.contains("no states"), "expected 'no states' in: {msg}");
}

#[test]
fn duplicate_state_names_are_rejected() {
    let msg = err_msg(machine("idle", vec![st("idle", "terminal"), st("idle", "terminal")]));
    assert!(msg.contains("duplicate state name 'idle'"), "expected duplicate error in: {msg}");
}

#[test]
fn initial_state_not_in_states_is_rejected() {
    let msg = err_msg(machine("nonexistent", vec![st("idle", "terminal")]));
    assert!(msg.contains("initial_state 'nonexistent'"), "expected initial_state error in: {msg}");
}

#[test]
fn agent_on_success_targeting_unknown_state_is_rejected() {
    let msg = err_msg(machine("work", vec![agent("work", "ghost", "error"), st("error", "terminal")]));
    assert!(msg.contains("unknown state 'ghost'"), "expected unknown target error in: {msg}");
}

#[test]
fn agent_on_failure_targeting_unknown_state_is_rejected() {
    let msg = err_msg(machine("work", vec![agent("work", "done", "ghost"), st("done", "terminal")]));
    assert!(msg.contains("unknown state 'ghost'"), "expected unknown target error in: {msg}");
}

#[test]
fn builtin_on_pass_targeting_unknown_state_is_rejected() {
    let msg = err_msg(machine(
        "check",
        vec![builtin("check", "builtin.git.is_main_compatible", "ghost", "error"), st("error", "terminal")],
    ));
    assert!(msg.contains("unknown state 'ghost'"), "expected unknown target error in: {msg}");
}

#[test]
fn builtin_on_fail_targeting_unknown_state_is_rejected() {
    let msg = err_msg(machine(
        "check",
        vec![builtin("check", "builtin.git.is_main_compatible", "done", "ghost"), st("done", "terminal")],
    ));
    assert!(msg.contains("unknown state 'ghost'"), "expected unknown target error in: {msg}");
}

#[test]
fn agent_missing_on_success_is_rejected() {
    let work = RawState { on_failure: s("error"), ..st("work", "agent") };
    let msg = err_msg(machine("work", vec![work, st("error", "terminal")]));
    assert!(msg.contains("on_success"), "expected on_success error in: {msg}");
}

#[test]
fn agent_missing_on_failure_is_rejected() {
    let work = RawState { on_success: s("done"), ..st("work", "agent") };
    let msg = err_msg(machine("work", vec![work, st("done", "terminal")]));
    assert!(msg.contains("on_failure"), "expected on_failure error in: {msg}");
}

#[test]
fn builtin_missing_builtin_field_is_rejected() {
    let check = RawState { on_pass: s("done"), on_fail: s("error"), ..st("check", "builtin") };
    let msg = err_msg(machine("check", vec![check, st("done", "terminal"), st("error", "terminal")]));
    assert!(msg.contains("'builtin'"), "expected builtin field error in: {msg}");
}

#[test]
fn builtin_missing_on_pass_is_rejected() {
    let check = RawState {
        builtin: s("builtin.git.is_main_compatible"),
        on_fail: s("error"),
        ..st("check", "builtin")
    };
    let msg = err_msg(machine("check", vec![check, st("error", "terminal")]));
    assert!(msg.contains("on_pass"), "expected on_pass error in: {msg}");
}

#[test]
fn builtin_missing_on_fail_is_rejected() {
    let check = RawState {
        builtin: s("builtin.git.is_main_compatible"),
        on_pass: s("done"),
        ..st("check", "builtin")
    };
    let msg = err_msg(machine("check", vec![check, st("done", "terminal")]));
    assert!(msg.contains("on_fail"), "expected on_fail error in: {msg}");
}

#[test]
fn loop_missing_target_is_rejected() {
    let msg = err_msg(machine("scan", vec![st("scan", "loop")]));
    assert!(msg.contains("target"), "expected target error in: {msg}");
}

#[test]
fn loop_targeting_unknown_state_is_rejected() {
    let msg = err_msg(machine("scan", vec![looping("scan", "ghost")]));
    assert!(msg.contains("unknown state 'ghost'"), "expected unknown target error in: {msg}");
}

#[test]
fn unsupported_action_type_is_rejected() {
    let msg = err_msg(machine("work", vec![st("work", "magic")]));
    assert!(msg.contains("unsupported action 'magic'"), "expected unsupported error in: {msg}");
    assert!(msg.contains("agent"), "expected supported list in: {msg}");
}

#[test]
fn agent_state_with_builtin_fields_is_rejected() {
    let work = RawState { on_pass: s("done"), ..agent("work", "done", "error") };
    let msg = err_msg(machine("work", vec![work, st("done", "terminal"), st("error", "terminal")]));
    assert!(msg.contains("on_pass"), "expected on_pass ambiguity error in: {msg}");
}

#[test]
fn builtin_state_with_agent_fields_is_rejected() {
    let check = RawState {
        on_success: s("done"),
        ..builtin("check", "builtin.git.is_main_compatible", "done", "error")
    };
    let msg = err_msg(machine("check", vec![check, st("done", "terminal"), st("error", "terminal")]));
    assert!(msg.contains("on_success"), "expected on_success ambiguity error in: {msg}");
}

#[test]
fn terminal_state_with_transition_fields_is_rejected() {
    let done = RawState { on_success: s("done"), ..st("done", "terminal") };
    let msg = err_msg(machine("done", vec![done]));
    assert!(msg.contains("terminal"), "expected terminal ambiguity error in: {msg}");
}

#[test]
fn loop_state_with_extra_fields_is_rejected() {
    let retry = RawState { on_success: s("retry"), ..looping("retry", "retry") };
    let msg = err_msg(machine("retry", vec![retry]));
    assert!(msg.contains("'loop' must only define 'target'"), "expected loop ambiguity error in: {msg}");
}

#[test]
fn builtin_keyword_not_starting_with_builtin_dot_is_rejected() {
    let msg = err_msg(machine(
        "check",
        vec![
            builtin("check", "my.custom.evaluator", "done", "error"),
            st("done", "terminal"),
            st("error", "terminal"),
        ],
    ));
    assert!(msg.contains("must start with 'builtin.'"), "expected builtin prefix error in: {msg}");
}

#[test]
fn validation_error_carries_source() {
    let err = validate_raw(machine("idle", vec![]), "bad-file.yml").unwrap_err();
    assert_eq!(err.source, "bad-file.yml");
    assert!(err.to_string().starts_with("[bad-file.yml] "));
}

#[test]
fn headless_state_machine_debug_and_clone() {
    let sm = ok(machine("idle", vec![st("idle", "terminal")]));
    let sm2 = sm.clone();
    assert_eq!(sm, sm2);
    assert!(format!("{sm:?}").contains("idle"));
    assert!(sm.contains_state("idle"));
    assert!(!sm.contains_state("ghost"));
}
