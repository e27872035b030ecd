use nightshift_core::db::{
    describe_twin_create, describe_twin_destroy, render_db_status, run_db_status, run_twin_create,
    run_twin_destroy, BackupMeta, DbEnv, DbEnvironment, DbStatusReport, SchemaVersion,
    TwinCreateResult, TwinDestroyResult, TwinStatus,
};

struct FakeDbEnvironment {
    envs: Vec<DbEnv>,
    backups: Vec<BackupMeta>,
    twin_status: TwinStatus,
    create_result: TwinCreateResult,
    destroy_result: TwinDestroyResult,
}

impl FakeDbEnvironment {
    fn empty() -> Self {
        Self {
            envs: vec![],
            backups: vec![],
            twin_status: TwinStatus::NotCreated,
            create_result: TwinCreateResult::NoBackupAvailable,
            destroy_result: TwinDestroyResult::NothingToDestroy,
        }
    }

    fn with_envs(mut self, envs: Vec<DbEnv>) -> Self {
        self.envs = envs;
        self
    }

    fn with_backups(mut self, backups: Vec<BackupMeta>) -> Self {
        self.backups = backups;
        self
    }

    fn with_twin_status(mut self, status: TwinStatus) -> Self {
        self.twin_status = status;
        self
    }

    fn with_create_result(mut self, result: TwinCreateResult) -> Self {
        self.create_result = result;
        self
    }

    fn with_destroy_result(mut self, result: TwinDestroyResult) -> Self {
        self.destroy_result = result;
        self
    }
}

impl DbEnvironment for FakeDbEnvironment {
    fn list_environments(&self) -> Vec<DbEnv> {
        self.envs.clone()
    }

    fn list_backups(&self, _env_name: &str) -> Vec<BackupMeta> {
        self.backups.clone()
    }

    fn twin_status(&self) -> TwinStatus {
        self.twin_status.clone()
    }

    fn create_twin(&self, _env_name: &str, _latest: &BackupMeta) -> TwinCreateResult {
        self.create_result.clone()
    }

    fn destroy_twin(&self, _container_id: &str) -> TwinDestroyResult {
        self.destroy_result.clone()
    }
}

fn backup(id: &str) -> BackupMeta {
    BackupMeta { id: id.to_string(), created_at: None, size_bytes: None }
}

#[test]
fn schema_version_known_displays_version_string() {
    assert_eq!(SchemaVersion::Known("42".to_string()).display(), "42");
}

#[test]
fn schema_version_unknown_displays_placeholder() {
    assert_eq!(SchemaVersion::Unknown.display(), "(unknown)");
}

#[test]
fn schema_version_unreachable_displays_placeholder() {
    assert_eq!(SchemaVersion::Unreachable.display(), "(unreachable)");
}

#[test]
fn twin_status_not_created_displays_correctly() {
    assert_eq!(TwinStatus::NotCreated.display(), "not created");
}

#[test]
fn twin_status_running_displays_correctly() {
    assert_eq!(TwinStatus::Running { container_id: "abc".to_string() }.display(), "running");
}

#[test]
fn twin_status_stopped_displays_correctly() {
    assert_eq!(TwinStatus::Stopped { container_id: "abc".to_string() }.display(), "stopped");
}

#[test]
fn db_status_empty_environments_returns_empty_report() {
    let env = FakeDbEnvironment::empty();
    let report = run_db_status(&env);
    assert!(report.environments.is_empty());
}

#[test]
fn render_db_status_empty_environments_gives_no_config_message() {
    let env = FakeDbEnvironment::empty();
    let report = run_db_status(&env);
    let output = render_db_status(&report);
    assert!(
        output.contains("No database environments configured"),
        "expected 'No database environments configured' in: {output}"
    );
}

#[test]
fn db_status_with_environments_includes_names_in_output() {
    let env = FakeDbEnvironment::empty().with_envs(vec![
        DbEnv {
            name: "demo".to_string(),
            host: None,
            schema_version: SchemaVersion::Known("7".to_string()),
        },
        DbEnv {
            name: "prod".to_string(),
            host: Some("prod.example.com:5432".to_string()),
            schema_version: SchemaVersion::Unreachable,
        },
    ]);
    let report = run_db_status(&env);
    let output = render_db_status(&report);
    assert!(output.contains("demo"), "missing 'demo' in: {output}");
    assert!(output.contains("prod"), "missing 'prod' in: {output}");
    assert!(output.contains("schema version: 7"), "missing schema version '7' in: {output}");
    assert!(output.contains("(unreachable)"), "missing '(unreachable)' in: {output}");
    assert!(output.contains("prod.example.com:5432"), "missing host in: {output}");
}

#[test]
fn twin_create_no_backups_returns_failure() {
    let env = FakeDbEnvironment::empty();
    let (msg, ok) = run_twin_create(&env, "demo");
    assert!(!ok, "expected failure when no backups");
    assert!(msg.contains("No backups available"), "expected 'No backups available' in: {msg}");
}

#[test]
fn twin_create_success_returns_container_id_and_migration_output() {
    let backup = BackupMeta {
        id: "backup-001".to_string(),
        created_at: Some("2026-03-01T00:00:00Z".to_string()),
        size_bytes: Some(1024),
    };
    let env = FakeDbEnvironment::empty().with_backups(vec![backup]).with_create_result(
        TwinCreateResult::Success {
            container_id: "abc123".to_string(),
            migration_output: "applied 3 migrations".to_string(),
        },
    );
    let (msg, ok) = run_twin_create(&env, "demo");
    assert!(ok, "expected success: {msg}");
    assert!(msg.contains("abc123"), "expected container id: {msg}");
    assert!(msg.contains("applied 3 migrations"), "expected migration output: {msg}");
}

#[test]
fn twin_create_migration_failed_returns_failure_with_reason() {
    let env = FakeDbEnvironment::empty().with_backups(vec![backup("backup-001")]).with_create_result(
        TwinCreateResult::MigrationFailed {
            container_id: "abc123".to_string(),
            reason: "column 'foo' already exists".to_string(),
        },
    );
    let (msg, ok) = run_twin_create(&env, "demo");
    assert!(!ok, "expected failure: {msg}");
    assert!(msg.contains("column 'foo' already exists"), "expected failure reason: {msg}");
}

#[test]
fn twin_create_container_failed_returns_failure_with_reason() {
    let env = FakeDbEnvironment::empty().with_backups(vec![backup("backup-001")]).with_create_result(
        TwinCreateResult::ContainerFailed { reason: "docker daemon not running".to_string() },
    );
    let (msg, ok) = run_twin_create(&env, "demo");
    assert!(!ok, "expected failure: {msg}");
    assert!(msg.contains("docker daemon not running"), "expected failure reason: {msg}");
}

#[test]
fn twin_destroy_no_twin_reports_nothing_to_destroy() {
    let env = FakeDbEnvironment::empty();
    let (msg, ok) = run_twin_destroy(&env);
    assert!(ok, "expected ok: {msg}");
    assert!(msg.contains("No twin container found"), "expected 'No twin container found' in: {msg}");
}

#[test]
fn twin_destroy_running_twin_destroys_it() {
    let env = FakeDbEnvironment::empty()
        .with_twin_status(TwinStatus::Running { container_id: "abc123".to_string() })
        .with_destroy_result(TwinDestroyResult::Destroyed { container_id: "abc123".to_string() });
    let (msg, ok) = run_twin_destroy(&env);
    assert!(ok, "expected success: {msg}");
    assert!(msg.contains("abc123"), "expected container id: {msg}");
    assert!(msg.contains("destroyed"), "expected 'destroyed' in: {msg}");
}

#[test]
fn twin_destroy_stopped_twin_destroys_it() {
    let env = FakeDbEnvironment::empty()
        .with_twin_status(TwinStatus::Stopped { container_id: "xyz789".to_string() })
        .with_destroy_result(TwinDestroyResult::Destroyed { container_id: "xyz789".to_string() });
    let (msg, ok) = run_twin_destroy(&env);
    assert!(ok, "expected success: {msg}");
    assert!(msg.contains("xyz789"), "expected container id: {msg}");
}

#[test]
fn twin_destroy_failed_reports_error() {
    let env = FakeDbEnvironment::empty()
        .with_twin_status(TwinStatus::Running { container_id: "abc123".to_string() })
        .with_destroy_result(TwinDestroyResult::Failed { reason: "permission denied".to_string() });
    let (msg, ok) = run_twin_destroy(&env);
    assert!(!ok, "expected failure: {msg}");
    assert!(msg.contains("permission denied"), "expected reason: {msg}");
}

#[test]
fn backup_meta_fields_are_accessible() {
    let b = BackupMeta {
        id: "bk-001".to_string(),
        created_at: Some("2026-01-01T00:00:00Z".to_string()),
        size_bytes: Some(4096),
    };
    assert_eq!(b.id, "bk-001");
    assert_eq!(b.created_at.as_deref(), Some("2026-01-01T00:00:00Z"));
    assert_eq!(b.size_bytes, Some(4096));
}

#[test]
fn render_db_status_lists_each_environment_once() {
    let report = DbStatusReport {
        environments: vec![DbEnv {
            name: "staging".to_string(),
            host: None,
            schema_version: SchemaVersion::Unknown,
        }],
    };
    let output = render_db_status(&report);
    assert_eq!(output.matches("staging").count(), 1);
    assert!(output.contains("(unknown)"));
}

#[test]
fn describe_twin_create_no_backup_is_failure() {
    let (msg, ok) = describe_twin_create("demo", &TwinCreateResult::NoBackupAvailable);
    assert!(!ok);
    assert!(msg.contains("demo"));
}

#[test]
fn describe_twin_destroy_nothing_is_ok() {
    let (_msg, ok) = describe_twin_destroy(&TwinDestroyResult::NothingToDestroy);
    assert!(ok);
}

struct RecordingDb {
    backups: Vec<BackupMeta>,
    status: TwinStatus,
    created_from: std::cell::RefCell<Vec<(String, String)>>,
    destroyed: std::cell::RefCell<Vec<String>>,
}

impl DbEnvironment for RecordingDb {
    fn list_environments(&self) -> Vec<DbEnv> {
        vec![]
    }

    fn list_backups(&self, _env_name: &str) -> Vec<BackupMeta> {
        self.backups.clone()
    }

    fn twin_status(&self) -> TwinStatus {
        self.status.clone()
    }

    fn create_twin(&self, env_name: &str, latest: &BackupMeta) -> TwinCreateResult {
        self.created_from.borrow_mut().push((env_name.to_string(), latest.id.clone()));
        TwinCreateResult::Success { container_id: "c1".to_string(), migration_output: "ok".to_string() }
    }

    fn destroy_twin(&self, container_id: &str) -> TwinDestroyResult {
        self.destroyed.borrow_mut().push(container_id.to_string());
        TwinDestroyResult::Destroyed { container_id: container_id.to_string() }
    }
}

#[test]
fn twin_create_seeds_from_the_latest_backup_once() {
    let env = RecordingDb {
        backups: vec![backup("newest"), backup("older")],
        status: TwinStatus::NotCreated,
        created_from: Default::default(),
        destroyed: Default::default(),
    };
    let (msg, ok) = run_twin_create(&env, "demo");
    assert!(ok);
    assert_eq!(msg, "Twin created: container c1\nMigration: ok");
    assert_eq!(*env.created_from.borrow(), vec![("demo".to_string(), "newest".to_string())]);
}

#[test]
fn twin_create_without_backups_does_not_create() {
    let env = RecordingDb {
        backups: vec![],
        status: TwinStatus::NotCreated,
        created_from: Default::default(),
        destroyed: Default::default(),
    };
    let (msg, ok) = run_twin_create(&env, "demo");
    assert!(!ok);
    assert!(msg.starts_with("No backups available for environment 'demo'."));
    assert!(env.created_from.borrow().is_empty());
}

#[test]
fn twin_destroy_targets_the_stopped_container() {
    let env = RecordingDb {
        backups: vec![],
        status: TwinStatus::Stopped { container_id: "c9".to_string() },
        created_from: Default::default(),
        destroyed: Default::default(),
    };
    assert_eq!(run_twin_destroy(&env), ("Twin container c9 destroyed.".to_string(), true));
    assert_eq!(*env.destroyed.borrow(), vec!["c9".to_string()]);
}
