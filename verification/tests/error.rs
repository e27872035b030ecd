use nightshift_core::error::{CalypsoError, Recoverability};

#[test]
fn context_keeps_one_value_per_key_in_key_order() {
    let e = CalypsoError::git("push failed")
        .with_context("branch", "main")
        .with_context("attempt", "1")
        .with_context("branch", "feature");
    let pairs: Vec<(&str, &str)> = e.context().iter().map(|(k, v)| (k.as_str(), v.as_str())).collect();
    assert_eq!(pairs, vec![("attempt", "1"), ("branch", "feature")]);
    assert_eq!(e.code(), "git");
    assert_eq!(e.message(), "push failed");
    assert_eq!(e.recoverability(), Recoverability::Unrecoverable);
    assert_eq!(e.to_string(), "[git] push failed");
}

#[test]
fn cloned_error_keeps_its_context() {
    let e = CalypsoError::transport("timeout").with_context("host", "example.org");
    let c = e.clone();
    assert_eq!(c.code(), e.code());
    assert_eq!(c.context(), e.context());
    assert_eq!(CalypsoError::transport("x").context().len(), 0);
}
