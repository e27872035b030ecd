use nightshift_core::error::{redact, register_secret, SecretRegistry};

#[test]
fn registered_secret_is_replaced_everywhere() {
    let mut registry = SecretRegistry::new();
    register_secret(&mut registry, "hunter2");
    assert_eq!(redact("pw=hunter2; again hunter2", &registry), "pw=[REDACTED]; again [REDACTED]");
}

#[test]
fn longer_secrets_are_replaced_first() {
    let mut registry = SecretRegistry::new();
    register_secret(&mut registry, "abc");
    register_secret(&mut registry, "abcdef");
    assert_eq!(redact("x abcdef y abc", &registry), "x [REDACTED] y [REDACTED]");
}

#[test]
fn empty_secret_changes_nothing() {
    let mut registry = SecretRegistry::new();
    register_secret(&mut registry, "");
    assert_eq!(redact("nothing secret", &registry), "nothing secret");
}

#[test]
fn bearer_token_is_scrubbed() {
    let registry = SecretRegistry::new();
    assert_eq!(redact("Authorization: Bearer abc.def-123", &registry), "Authorization: Bearer [REDACTED]");
}

#[test]
fn github_token_is_scrubbed() {
    let registry = SecretRegistry::new();
    let token = format!("ghp_{}", "a1".repeat(18));
    assert_eq!(redact(&format!("token {token} end"), &registry), "token [REDACTED] end");
}

#[test]
fn long_hex_run_is_scrubbed() {
    let registry = SecretRegistry::new();
    let hex = "0123456789abcdef".repeat(3);
    assert_eq!(redact(&format!("sha {hex}."), &registry), "sha [REDACTED].");
    assert_eq!(redact("short cafe", &registry), "short cafe");
}
