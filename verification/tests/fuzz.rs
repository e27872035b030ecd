use nightshift_core::headless_sm::{validate_raw, HeadlessStateMachine, RawState, RawStateMachine};
use serde_yaml::Value;

// Decodes a headless state machine document the way the program's loader
// does (string fields, `states` defaulting to empty), then validates it.

fn opt_str(v: Option<&Value>) -> Result<Option<String>, String> {
    match v {
        None | Some(Value::Null) => Ok(None),
        Some(Value::String(s)) => Ok(Some(s.clone())),
        Some(other) => Err(format!("expected a string, found {other:?}")),
    }
}

fn req_str(v: Option<&Value>, key: &str) -> Result<String, String> {
    match v {
        Some(Value::String(s)) => Ok(s.clone()),
        Some(other) => Err(format!("{key}: expected a string, found {other:?}")),
        None => Err(format!("missing field `{key}`")),
    }
}

fn state_from(v: &Value) -> Result<RawState, String> {
    let m = v.as_mapping().ok_or("state entry is not a mapping")?;
    Ok(RawState {
        name: req_str(m.get("name"), "name")?,
        action: req_str(m.get("action"), "action")?,
        builtin: opt_str(m.get("builtin"))?,
        on_success: opt_str(m.get("on_success"))?,
        on_failure: opt_str(m.get("on_failure"))?,
        on_pass: opt_str(m.get("on_pass"))?,
        on_fail: opt_str(m.get("on_fail"))?,
        target: opt_str(m.get("target"))?,
    })
}

fn raw_from_yaml(yaml: &str) -> Result<RawStateMachine, String> {
    let v: Value = serde_yaml::from_str(yaml).map_err(|e| e.to_string())?;
    let m = v.as_mapping().ok_or("document is not a mapping")?;
    let states = match m.get("states") {
        None | Some(Value::Null) => vec![],
        Some(Value::Sequence(items)) => items.iter().map(state_from).collect::<Result<Vec<_>, _>>()?,
        Some(other) => return Err(format!("states: expected a list, found {other:?}")),
    };
    Ok(RawStateMachine {
        name: opt_str(m.get("name"))?,
        initial_state: req_str(m.get("initial_state"), "initial_state")?,
        states,
    })
}

fn load_and_validate(yaml: &str, source: &str) -> Result<HeadlessStateMachine, String> {
    let raw = raw_from_yaml(yaml).map_err(|e| format!("[{source}] YAML parse error: {e}"))?;
    validate_raw(raw, source).map_err(|e| e.to_string())
}

#[test]
fn regression_empty_string_is_error_not_panic() {
    let result = load_and_validate("", "<regression>");
    assert!(result.is_err(), "empty string must not succeed");
}

#[test]
fn regression_null_byte_input() {
    let input = "initial_state: x\nstates:\n  - name: x\n    action: terminal\n\0";
    let _ = load_and_validate(input, "<regression-null>");
}

#[test]
fn regression_extremely_long_state_name() {
    let long_name = "a".repeat(100_000);
    let yaml = format!("initial_state: {long_name}\nstates:\n  - name: {long_name}\n    action: terminal\n");
    let _ = load_and_validate(&yaml, "<regression-long-name>");
}

#[test]
fn regression_yaml_anchor_alias_does_not_hang() {
    let yaml = "initial_state: s\nstates:\n  - name: &anchor s\n    action: terminal\n";
    let _ = load_and_validate(yaml, "<regression-anchor>");
}

#[test]
fn regression_deeply_nested_yaml_mapping() {
    let depth = 500;
    let open: String = "{a: ".repeat(depth);
    let close: String = "}".repeat(depth);
    let yaml = format!("{open}null{close}");
    let _ = load_and_validate(&yaml, "<regression-deep-map>");
}

#[test]
fn regression_whitespace_only_input() {
    let _ = load_and_validate("   \n\t\n   ", "<regression-ws>");
}

#[test]
fn regression_comment_only_input() {
    let yaml = "# This is a comment\n# Another comment\n";
    let _ = load_and_validate(yaml, "<regression-comments>");
}

#[test]
fn regression_many_duplicate_states() {
    let entry = "  - name: dupe\n    action: terminal\n";
    let states: String = entry.repeat(200);
    let yaml = format!("initial_state: dupe\nstates:\n{states}");
    let result = load_and_validate(&yaml, "<regression-many-dupes>");
    assert!(result.is_err(), "many duplicate states must be rejected");
}

#[test]
fn regression_initial_state_not_in_states() {
    let yaml = "initial_state: ghost\nstates:\n  - name: real\n    action: terminal\n";
    let result = load_and_validate(yaml, "<regression-ghost-initial>");
    assert!(result.is_err());
}

#[test]
fn regression_loop_self_target_is_accepted() {
    let yaml = "initial_state: r\nstates:\n  - name: r\n    action: loop\n    target: r\n";
    let result = load_and_validate(yaml, "<regression-self-loop>");
    assert!(result.is_ok(), "self-referencing loop should be valid: {result:?}");
}

#[test]
fn regression_loop_unknown_target_is_rejected() {
    let yaml = "initial_state: r\nstates:\n  - name: r\n    action: loop\n    target: ghost\n";
    let result = load_and_validate(yaml, "<regression-loop-ghost>");
    assert!(result.is_err(), "loop to unknown state must be rejected");
}

#[test]
fn regression_builtin_bad_prefix() {
    let yaml = "initial_state: c\nstates:\n  - name: c\n    action: builtin\n    builtin: custom.fn\n    on_pass: d\n    on_fail: d\n  - name: d\n    action: terminal\n";
    let result = load_and_validate(yaml, "<regression-bad-builtin-prefix>");
    assert!(result.is_err(), "bad builtin prefix must be rejected");
}

#[test]
fn regression_agent_with_builtin_field_is_rejected() {
    let yaml = "initial_state: w\nstates:\n  - name: w\n    action: agent\n    on_success: d\n    on_failure: d\n    on_pass: d\n  - name: d\n    action: terminal\n";
    let result = load_and_validate(yaml, "<regression-agent-on-pass>");
    assert!(result.is_err(), "agent with on_pass must be rejected: {result:?}");
}

#[test]
fn regression_terminal_with_transition_fields() {
    let yaml = "initial_state: done\nstates:\n  - name: done\n    action: terminal\n    on_success: done\n";
    let result = load_and_validate(yaml, "<regression-terminal-extra>");
    assert!(result.is_err(), "terminal with transitions must be rejected");
}

#[test]
fn regression_loop_with_agent_fields_is_rejected() {
    let yaml = "initial_state: r\nstates:\n  - name: r\n    action: loop\n    target: r\n    on_success: r\n";
    let result = load_and_validate(yaml, "<regression-loop-with-agent>");
    assert!(result.is_err(), "loop with agent fields must be rejected");
}

#[test]
fn regression_empty_initial_state_string() {
    let yaml = "initial_state: \"\"\nstates:\n  - name: s\n    action: terminal\n";
    let result = load_and_validate(yaml, "<regression-empty-initial>");
    assert!(result.is_err(), "empty initial_state must be rejected");
}

#[test]
fn regression_missing_initial_state_key() {
    let yaml = "states:\n  - name: s\n    action: terminal\n";
    let result = load_and_validate(yaml, "<regression-missing-initial-key>");
    assert!(result.is_err(), "missing initial_state key must be rejected");
}

#[test]
fn regression_yaml_list_at_root() {
    let yaml = "- a\n- b\n- c\n";
    let _ = load_and_validate(yaml, "<regression-list-root>");
}

#[test]
fn regression_integer_initial_state() {
    let yaml = "initial_state: 42\nstates:\n  - name: 42\n    action: terminal\n";
    let _ = load_and_validate(yaml, "<regression-int-initial>");
}

#[test]
fn regression_boolean_action_value() {
    let yaml = "initial_state: s\nstates:\n  - name: s\n    action: true\n";
    let _ = load_and_validate(yaml, "<regression-bool-action>");
}

#[test]
fn regression_source_name_in_error_message() {
    let yaml = "initial_state: ghost\nstates:\n  - name: real\n    action: terminal\n";
    let msg = load_and_validate(yaml, "my-special-source.yml").expect_err("expected validation error");
    assert!(msg.contains("my-special-source.yml"), "source name must appear in error: {msg}");
}

#[test]
fn regression_unsupported_action_type() {
    let yaml = "initial_state: s\nstates:\n  - name: s\n    action: jump\n";
    let result = load_and_validate(yaml, "<regression-unsupported-action>");
    assert!(result.is_err(), "unsupported action must be rejected");
    let msg = result.unwrap_err();
    assert!(msg.contains("unsupported action"), "error must mention 'unsupported action': {msg}");
}

#[test]
fn regression_builtin_action_missing_builtin_field() {
    let yaml = "initial_state: c\nstates:\n  - name: c\n    action: builtin\n    on_pass: d\n    on_fail: d\n  - name: d\n    action: terminal\n";
    let result = load_and_validate(yaml, "<regression-missing-builtin-field>");
    assert!(result.is_err(), "builtin without 'builtin' field must be rejected");
}

#[test]
fn regression_agent_missing_on_success() {
    let yaml = "initial_state: w\nstates:\n  - name: w\n    action: agent\n    on_failure: w\n";
    let result = load_and_validate(yaml, "<regression-agent-no-on-success>");
    assert!(result.is_err(), "agent without on_success must be rejected");
}

#[test]
fn regression_agent_missing_on_failure() {
    let yaml = "initial_state: w\nstates:\n  - name: w\n    action: agent\n    on_success: w\n";
    let result = load_and_validate(yaml, "<regression-agent-no-on-failure>");
    assert!(result.is_err(), "agent without on_failure must be rejected");
}
