use nightshift_core::keys::{
    render_keys_list, AuditEvent, KeyError, KeyName, KeyPurpose, KeyStatus, KeyStore, KeyStoreSnapshot,
};

const NOW: &str = "2026-03-22T00:00:00Z";
const LATER: &str = "2026-03-23T00:00:00Z";

fn example_name() -> KeyName {
    KeyName::new("deploy-key").unwrap()
}

#[test]
fn key_name_accepts_alphanumeric_hyphen_underscore() {
    assert!(KeyName::new("my-key_01").is_ok());
    assert!(KeyName::new("UPPER").is_ok());
    assert!(KeyName::new("a").is_ok());
}

#[test]
fn key_name_rejects_empty_string() {
    assert_eq!(
        KeyName::new("").unwrap_err(),
        KeyError::InvalidName("name must not be empty".into())
    );
}

#[test]
fn key_name_rejects_special_characters() {
    for bad in ["my key", "key/path", "key.name", "key@host"] {
        assert!(KeyName::new(bad).is_err(), "expected error for '{bad}'");
    }
}

#[test]
fn create_inserts_active_key_with_correct_metadata() {
    let mut store = KeyStore::new();
    let name = example_name();
    let key = store.create(name.clone(), KeyPurpose::Tls, None, NOW).unwrap();
    assert_eq!(key.name, name);
    assert_eq!(key.status, KeyStatus::Active);
    assert_eq!(key.purpose, KeyPurpose::Tls);
    assert_eq!(key.created_at, NOW);
    assert!(key.last_changed_at.is_none());
}

#[test]
fn create_appends_audit_entry() {
    let mut store = KeyStore::new();
    store.create(example_name(), KeyPurpose::Generic, None, NOW).unwrap();
    assert_eq!(store.audit_log().len(), 1);
    assert_eq!(store.audit_log()[0].event, AuditEvent::Created);
}

#[test]
fn create_returns_error_on_duplicate_name() {
    let mut store = KeyStore::new();
    store.create(example_name(), KeyPurpose::Generic, None, NOW).unwrap();
    let err = store.create(example_name(), KeyPurpose::Tls, None, LATER).unwrap_err();
    assert_eq!(err, KeyError::AlreadyExists("deploy-key".into()));
}

#[test]
fn rotate_replaces_active_key_and_archives_old() {
    let mut store = KeyStore::new();
    let name = example_name();
    store.create(name.clone(), KeyPurpose::Tls, None, NOW).unwrap();
    let rotated = store.rotate(&name, LATER).unwrap();
    assert_eq!(rotated.status, KeyStatus::Active);
    assert_eq!(rotated.created_at, LATER);
}

#[test]
fn rotate_keeps_the_old_record_archived_as_rotated() {
    let mut store = KeyStore::new();
    let name = example_name();
    store.create(name.clone(), KeyPurpose::Tls, Some("tls cert".to_string()), NOW).unwrap();
    store.rotate(&name, LATER).unwrap();
    let current = store.get(&name).unwrap();
    assert_eq!(current.status, KeyStatus::Active);
    assert_eq!(current.created_at, LATER);
    assert_eq!(current.last_changed_at, None);
    let all = store.list();
    assert_eq!(all.len(), 2);
    assert_eq!(all[0].status, KeyStatus::Active);
    assert_eq!(all[1].name, name);
    assert_eq!(all[1].status, KeyStatus::Rotated);
    assert_eq!(all[1].created_at, NOW);
    assert_eq!(all[1].last_changed_at.as_deref(), Some(LATER));
    assert_eq!(all[1].description.as_deref(), Some("tls cert"));
    assert_eq!(store.list_active().len(), 1);
    assert_eq!(store.len(), 1);
}

#[test]
fn snapshot_round_trip_keeps_archived_records() {
    let mut store = KeyStore::new();
    let name = example_name();
    store.create(name.clone(), KeyPurpose::Tls, None, NOW).unwrap();
    store.rotate(&name, LATER).unwrap();
    let restored = KeyStoreSnapshot::from(&store).into_store();
    let all = restored.list();
    assert_eq!(all.len(), 2);
    assert_eq!(all[0].status, KeyStatus::Active);
    assert_eq!(all[1].status, KeyStatus::Rotated);
    assert_eq!(restored.audit_log().len(), 2);
}

#[test]
fn rotate_appends_rotated_audit_entry() {
    let mut store = KeyStore::new();
    let name = example_name();
    store.create(name.clone(), KeyPurpose::Tls, None, NOW).unwrap();
    store.rotate(&name, LATER).unwrap();
    let log = store.audit_log();
    assert_eq!(log.len(), 2);
    assert_eq!(log[1].event, AuditEvent::Rotated);
}

#[test]
fn rotate_non_existent_key_returns_not_found() {
    let mut store = KeyStore::new();
    let name = KeyName::new("ghost").unwrap();
    assert_eq!(store.rotate(&name, NOW).unwrap_err(), KeyError::NotFound("ghost".into()));
}

#[test]
fn rotate_revoked_key_returns_invalid_transition() {
    let mut store = KeyStore::new();
    let name = example_name();
    store.create(name.clone(), KeyPurpose::Generic, None, NOW).unwrap();
    store.revoke(&name, NOW).unwrap();
    let err = store.rotate(&name, LATER).unwrap_err();
    assert!(matches!(err, KeyError::InvalidTransition { .. }));
}

#[test]
fn revoke_marks_key_revoked() {
    let mut store = KeyStore::new();
    let name = example_name();
    store.create(name.clone(), KeyPurpose::Tls, None, NOW).unwrap();
    store.revoke(&name, LATER).unwrap();
    let key = store.get(&name).unwrap();
    assert_eq!(key.status, KeyStatus::Revoked);
    assert_eq!(key.last_changed_at.as_deref(), Some(LATER));
}

#[test]
fn revoke_appends_revoked_audit_entry() {
    let mut store = KeyStore::new();
    let name = example_name();
    store.create(name.clone(), KeyPurpose::Generic, None, NOW).unwrap();
    store.revoke(&name, LATER).unwrap();
    let log = store.audit_log();
    assert_eq!(log.len(), 2);
    assert_eq!(log[1].event, AuditEvent::Revoked);
}

#[test]
fn revoke_non_existent_key_returns_not_found() {
    let mut store = KeyStore::new();
    let name = KeyName::new("missing").unwrap();
    assert_eq!(store.revoke(&name, NOW).unwrap_err(), KeyError::NotFound("missing".into()));
}

#[test]
fn revoke_already_revoked_key_returns_invalid_transition() {
    let mut store = KeyStore::new();
    let name = example_name();
    store.create(name.clone(), KeyPurpose::Generic, None, NOW).unwrap();
    store.revoke(&name, NOW).unwrap();
    let err = store.revoke(&name, LATER).unwrap_err();
    assert!(matches!(err, KeyError::InvalidTransition { .. }));
}

#[test]
fn list_returns_all_keys_in_any_status() {
    let mut store = KeyStore::new();
    let name1 = KeyName::new("key-a").unwrap();
    let name2 = KeyName::new("key-b").unwrap();
    store.create(name1.clone(), KeyPurpose::Generic, None, NOW).unwrap();
    store.create(name2.clone(), KeyPurpose::Tls, None, NOW).unwrap();
    store.revoke(&name2, LATER).unwrap();
    assert_eq!(store.list().len(), 2);
}

#[test]
fn list_active_excludes_revoked_and_rotated() {
    let mut store = KeyStore::new();
    let name1 = KeyName::new("key-a").unwrap();
    let name2 = KeyName::new("key-b").unwrap();
    store.create(name1.clone(), KeyPurpose::Generic, None, NOW).unwrap();
    store.create(name2.clone(), KeyPurpose::Tls, None, NOW).unwrap();
    store.revoke(&name2, LATER).unwrap();
    let active = store.list_active();
    assert_eq!(active.len(), 1);
    assert_eq!(active[0].name, name1);
}

#[test]
fn health_check_passes_on_empty_store() {
    let store = KeyStore::new();
    assert!(store.health_check().is_empty());
}

#[test]
fn health_check_passes_on_valid_store() {
    let mut store = KeyStore::new();
    let name = example_name();
    store.create(name.clone(), KeyPurpose::Tls, None, NOW).unwrap();
    store.rotate(&name, LATER).unwrap();
    assert!(store.health_check().is_empty());
}

#[test]
fn snapshot_round_trips_key_count() {
    let mut store = KeyStore::new();
    store.create(example_name(), KeyPurpose::Tls, None, NOW).unwrap();
    let snapshot = KeyStoreSnapshot::from(&store);
    let restored = snapshot.into_store();
    assert_eq!(restored.len(), 1);
    assert_eq!(restored.audit_log().len(), 1);
}

#[test]
fn render_keys_list_empty_store_returns_no_keys_message() {
    let output = render_keys_list(&[]);
    assert!(output.contains("No managed keys"));
}

#[test]
fn render_keys_list_includes_key_name_and_status() {
    let mut store = KeyStore::new();
    store.create(example_name(), KeyPurpose::Tls, None, NOW).unwrap();
    let keys = store.list();
    let output = render_keys_list(&keys);
    assert!(output.contains("deploy-key"));
    assert!(output.contains("active"));
}

// ── Further cases ────────────────────────────────────────────────────────────

#[test]
fn keys_are_listed_in_name_order() {
    let mut store = KeyStore::new();
    for n in ["zeta", "alpha", "mid"] {
        store.create(KeyName::new(n).unwrap(), KeyPurpose::Generic, None, NOW).unwrap();
    }
    let names: Vec<&str> = store.list().iter().map(|k| k.name.as_str()).collect();
    assert_eq!(names, vec!["alpha", "mid", "zeta"]);
}

#[test]
fn rotate_then_revoke_keeps_audit_in_order() {
    let mut store = KeyStore::new();
    let name = example_name();
    store.create(name.clone(), KeyPurpose::Tls, Some("tls cert".to_string()), NOW).unwrap();
    store.rotate(&name, LATER).unwrap();
    store.revoke(&name, LATER).unwrap();
    let events: Vec<AuditEvent> = store.audit_log().iter().map(|e| e.event).collect();
    assert_eq!(events, vec![AuditEvent::Created, AuditEvent::Rotated, AuditEvent::Revoked]);
    assert!(store.list_active().is_empty());
    assert!(store.health_check().is_empty());
}

#[test]
fn key_error_messages() {
    assert_eq!(KeyError::NotFound("x".into()).to_string(), "key 'x' not found");
    assert!(KeyError::AlreadyExists("x".into()).to_string().contains("x"));
}

#[test]
fn snapshot_with_unknown_audit_key_fails_health_check() {
    let mut store = KeyStore::new();
    store.create(example_name(), KeyPurpose::Tls, None, NOW).unwrap();
    let mut snap = KeyStoreSnapshot::from(&store);
    snap.keys.clear();
    let restored = snap.into_store();
    assert_eq!(restored.health_check().len(), 1);
}

#[test]
fn audit_log_records_each_operation_in_order() {
    let mut store = KeyStore::new();
    let name = example_name();
    store.create(name.clone(), KeyPurpose::Tls, None, NOW).unwrap();
    store.rotate(&name, LATER).unwrap();
    store.revoke(&name, "2026-01-03T00:00:00Z").unwrap();
    let events: Vec<AuditEvent> = store.audit_log().iter().map(|e| e.event).collect();
    assert_eq!(events, vec![AuditEvent::Created, AuditEvent::Rotated, AuditEvent::Revoked]);
    let stamps: Vec<&str> = store.audit_log().iter().map(|e| e.timestamp.as_str()).collect();
    assert_eq!(stamps, vec![NOW, LATER, "2026-01-03T00:00:00Z"]);
}

#[test]
fn audit_log_skips_failed_calls_and_keeps_call_order() {
    let mut store = KeyStore::new();
    let a = KeyName::new("key-a").unwrap();
    let b = KeyName::new("key-b").unwrap();
    store.create(a.clone(), KeyPurpose::Tls, None, "t1").unwrap();
    assert!(store.create(a.clone(), KeyPurpose::Tls, None, "t2").is_err());
    assert!(store.revoke(&b, "t3").is_err());
    store.create(b.clone(), KeyPurpose::Tls, None, "t4").unwrap();
    store.revoke(&a, "t5").unwrap();
    assert!(store.rotate(&a, "t6").is_err());
    store.rotate(&b, "t7").unwrap();
    let entries: Vec<(String, String, AuditEvent)> = store
        .audit_log()
        .iter()
        .map(|e| (e.key_name.as_str().to_string(), e.timestamp.clone(), e.event))
        .collect();
    assert_eq!(
        entries,
        vec![
            ("key-a".to_string(), "t1".to_string(), AuditEvent::Created),
            ("key-b".to_string(), "t4".to_string(), AuditEvent::Created),
            ("key-a".to_string(), "t5".to_string(), AuditEvent::Revoked),
            ("key-b".to_string(), "t7".to_string(), AuditEvent::Rotated),
        ]
    );
}
