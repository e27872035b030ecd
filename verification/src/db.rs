//! Database environments and the digital twin: inventory, schema versions,
//! backups, and creating or destroying a twin container seeded from the
//! latest backup.
//!
//! Connectivity goes through the [`DbEnvironment`] trait, implemented by the
//! host (which shells out to `docker`) and by test doubles.
use crate::text::{owned, seq_join};
use vstd::prelude::*;

verus! {

/// A database environment (e.g. "demo", "prod").
#[derive(Debug, Clone, PartialEq, Eq)]
pub struct DbEnv {
    /// Short identifier used in output and config.
    pub name: String,
    /// Host:port or DSN fragment, if known.
    pub host: Option<String>,
    /// Current schema version detected from the environment.
    pub schema_version: SchemaVersion,
}

/// The schema version of a database environment.
#[derive(Debug, Clone, PartialEq, Eq)]
pub enum SchemaVersion {
    /// Version string resolved successfully (e.g. "42").
    Known(String),
    /// Reachable, but no version information was found.
    Unknown,
    /// Not reachable.
    Unreachable,
}

pub open spec fn schema_label(v: SchemaVersion) -> Seq<char> {
    match v {
        SchemaVersion::Known(s) => s@,
        SchemaVersion::Unknown => "(unknown)"@,
        SchemaVersion::Unreachable => "(unreachable)"@,
    }
}

impl SchemaVersion {
    /// The label used in status output.
    pub fn display(&self) -> (r: &str)
        ensures
            r@ == schema_label(*self),
    {
        match self {
            SchemaVersion::Known(v) => v.as_str(),
            SchemaVersion::Unknown => "(unknown)",
            SchemaVersion::Unreachable => "(unreachable)",
        }
    }
}

/// Metadata of a database backup.
#[derive(Debug, Clone, PartialEq, Eq)]
pub struct BackupMeta {
    /// Backup identifier / filename.
    pub id: String,
    /// RFC-3339 timestamp, if available.
    pub created_at: Option<String>,
    /// Approximate size in bytes, if available.
    pub size_bytes: Option<u64>,
}

/// Current state of the digital twin container.
#[derive(Debug, Clone, PartialEq, Eq)]
pub enum TwinStatus {
    /// No twin container exists.
    NotCreated,
    /// A twin container is running.
    Running { container_id: String },
    /// A twin container exists but has stopped.
    Stopped { container_id: String },
}

pub open spec fn twin_label(s: TwinStatus) -> Seq<char> {
    match s {
        TwinStatus::NotCreated => "not created"@,
        TwinStatus::Running { .. } => "running"@,
        TwinStatus::Stopped { .. } => "stopped"@,
    }
}

impl TwinStatus {
    /// The label used in status output.
    pub fn display(&self) -> (r: &str)
        ensures
            r@ == twin_label(*self),
    {
        match self {
            TwinStatus::NotCreated => "not created",
            TwinStatus::Running { .. } => "running",
            TwinStatus::Stopped { .. } => "stopped",
        }
    }
}

/// Result of creating a twin.
#[derive(Debug, Clone, PartialEq, Eq)]
pub enum TwinCreateResult {
    /// Twin created and migration succeeded.
    Success { container_id: String, migration_output: String },
    /// The container was created but migration failed.
    MigrationFailed { container_id: String, reason: String },
    /// The container could not be created.
    ContainerFailed { reason: String },
    /// No backup was available to seed the twin from.
    NoBackupAvailable,
}

/// Result of destroying a twin.
#[derive(Debug, Clone, PartialEq, Eq)]
pub enum TwinDestroyResult {
    /// The container was stopped and removed.
    Destroyed { container_id: String },
    /// No twin container was found.
    NothingToDestroy,
    /// Destruction was attempted and failed.
    Failed { reason: String },
}

/// The host environment for database operations: the host implementation
/// shells out to `docker` / `psql`; tests inject doubles.
///
/// An environment may describe the answers it gives (the `*_answer`
/// relations); one that does not describes none (any answer).
pub trait DbEnvironment {
    /// Whether `r` is an answer to `list_environments`.
    open spec fn environments_answer(&self, r: Seq<DbEnv>) -> bool {
        true
    }

    /// Whether `r` is an answer to `list_backups(env_name)`.
    open spec fn backups_answer(&self, env_name: Seq<char>, r: Seq<BackupMeta>) -> bool {
        true
    }

    /// Whether `r` is an answer to `twin_status`.
    open spec fn status_answer(&self, r: TwinStatus) -> bool {
        true
    }

    /// Whether `r` is an answer to `create_twin(env_name, backup)`.
    open spec fn create_answer(&self, env_name: Seq<char>, backup: BackupMeta, r: TwinCreateResult) -> bool {
        true
    }

    /// Whether `r` is an answer to `destroy_twin(container_id)`.
    open spec fn destroy_answer(&self, container_id: Seq<char>, r: TwinDestroyResult) -> bool {
        true
    }

    /// The configured database environments.
    fn list_environments(&self) -> (r: Vec<DbEnv>)
        ensures
            self.environments_answer(r@),
    ;

    /// Backup metadata for an environment, latest first.
    fn list_backups(&self, env_name: &str) -> (r: Vec<BackupMeta>)
        ensures
            self.backups_answer(env_name@, r@),
    ;

    /// The current twin container status.
    fn twin_status(&self) -> (r: TwinStatus)
        ensures
            self.status_answer(r),
    ;

    /// Creates a twin from a backup of `env_name` and runs migrations.
    fn create_twin(&self, env_name: &str, latest_backup: &BackupMeta) -> (r: TwinCreateResult)
        ensures
            self.create_answer(env_name@, *latest_backup, r),
    ;

    /// Destroys the twin container.
    fn destroy_twin(&self, container_id: &str) -> (r: TwinDestroyResult)
        ensures
            self.destroy_answer(container_id@, r),
    ;
}

/// The output of `db status`.
#[derive(Debug, Clone, PartialEq, Eq)]
pub struct DbStatusReport {
    pub environments: Vec<DbEnv>,
}

/// Collects a status report: the environments the host lists.
pub fn run_db_status<E: DbEnvironment>(env: &E) -> (r: DbStatusReport)
    ensures
        env.environments_answer(r.environments@),
{
    DbStatusReport { environments: env.list_environments() }
}

pub open spec fn no_environments_text() -> Seq<char> {
    "No database environments configured.\nAdd environment entries to .calypso/db-environments.json to enable database inspection."@
}

/// The lines describing one environment.
pub open spec fn env_lines(e: DbEnv) -> Seq<Seq<char>> {
    let first = "  "@ + e.name@ + " — schema version: "@ + schema_label(e.schema_version);
    match e.host {
        Some(h) => seq![first, "    host: "@ + h@],
        None => seq![first],
    }
}

pub open spec fn all_env_lines(es: Seq<DbEnv>) -> Seq<Seq<char>>
    decreases es.len(),
{
    if es.len() == 0 {
        Seq::empty()
    } else {
        all_env_lines(es.drop_last()) + env_lines(es.last())
    }
}

/// The text of a status report.
pub open spec fn db_status_text(es: Seq<DbEnv>) -> Seq<char> {
    if es.len() == 0 {
        no_environments_text()
    } else {
        seq_join(seq!["Database environments"@] + all_env_lines(es), "\n"@)
    }
}

/// Renders a status report: one line per environment with its schema
/// version, and a `host:` line where the host is known.
pub fn render_db_status(report: &DbStatusReport) -> (r: String)
    ensures
        r@ == db_status_text(report.environments@),
{
    if report.environments.len() == 0 {
        return owned(
            "No database environments configured.\nAdd environment entries to .calypso/db-environments.json to enable database inspection.",
        );
    }
    let mut lines: Vec<String> = Vec::new();
    lines.push(owned("Database environments"));
    let es = &report.environments;
    let n: usize = es.len();
    for i in 0..n
        invariant
            n == es@.len(),
            crate::text::views(lines@) == seq!["Database environments"@] + all_env_lines(es@.take(i as int)),
    {
        proof {
            assert(es@.take(i + 1).drop_last() =~= es@.take(i as int));
            assert(es@.take(i + 1).last() == es@[i as int]);
        }
        let e = &es[i];
        let ghost before = crate::text::views(lines@);
        let mut first = String::from_str("  ");
        first.append(e.name.as_str());
        first.append(" — schema version: ");
        first.append(e.schema_version.display());
        lines.push(first);
        match &e.host {
            Some(h) => {
                let mut l = String::from_str("    host: ");
                l.append(h.as_str());
                lines.push(l);
            },
            None => {},
        }
        proof {
            assert(crate::text::views(lines@) =~= before + env_lines(*e));
        }
    }
    proof {
        assert(es@.take(n as int) =~= es@);
    }
    crate::text::join(&lines, "\n")
}

pub open spec fn no_backups_text(env_name: Seq<char>) -> Seq<char> {
    "No backups available for environment '"@ + env_name + "'.\nCannot create digital twin without a backup to seed from."@
}

/// The message and success flag for a twin creation result.
pub open spec fn twin_create_text(env_name: Seq<char>, r: TwinCreateResult) -> (Seq<char>, bool) {
    match r {
        TwinCreateResult::Success { container_id, migration_output } => (
            "Twin created: container "@ + container_id@ + "\nMigration: "@ + migration_output@,
            true,
        ),
        TwinCreateResult::MigrationFailed { container_id, reason } => (
            "Twin container "@ + container_id@ + " started but migration failed:\n"@ + reason@,
            false,
        ),
        TwinCreateResult::ContainerFailed { reason } => ("Failed to create twin container:\n"@ + reason@, false),
        TwinCreateResult::NoBackupAvailable => (
            "No backup available for environment '"@ + env_name + "'.\nCannot create digital twin."@,
            false,
        ),
    }
}

/// Describes the result of creating a twin for `env_name`.
pub fn describe_twin_create(env_name: &str, result: &TwinCreateResult) -> (r: (String, bool))
    ensures
        (r.0@, r.1) == twin_create_text(env_name@, *result),
{
    match result {
        TwinCreateResult::Success { container_id, migration_output } => {
            let mut s = String::from_str("Twin created: container ");
            s.append(container_id.as_str());
            s.append("\nMigration: ");
            s.append(migration_output.as_str());
            (s, true)
        },
        TwinCreateResult::MigrationFailed { container_id, reason } => {
            let mut s = String::from_str("Twin container ");
            s.append(container_id.as_str());
            s.append(" started but migration failed:\n");
            s.append(reason.as_str());
            (s, false)
        },
        TwinCreateResult::ContainerFailed { reason } => {
            let mut s = String::from_str("Failed to create twin container:\n");
            s.append(reason.as_str());
            (s, false)
        },
        TwinCreateResult::NoBackupAvailable => {
            let mut s = String::from_str("No backup available for environment '");
            s.append(env_name);
            s.append("'.\nCannot create digital twin.");
            (s, false)
        },
    }
}

/// Creating a twin from the backups listed for `env_name`, latest first:
/// with none, the fixed no-backups message and failure; otherwise the host
/// is asked to create the twin from the first (latest) backup, and the
/// message and flag describe what it returned.
pub fn twin_create_from_backups<E: DbEnvironment>(env: &E, env_name: &str, backups: &Vec<BackupMeta>) -> (r: (
    String,
    bool,
))
    ensures
        backups@.len() == 0 ==> (r.0@, r.1) == (no_backups_text(env_name@), false),
        backups@.len() > 0 ==> exists|res: TwinCreateResult|
            #[trigger] env.create_answer(env_name@, backups@[0], res) && (r.0@, r.1) == twin_create_text(env_name@, res),
{
    if backups.len() == 0 {
        let mut s = String::from_str("No backups available for environment '");
        s.append(env_name);
        s.append("'.\nCannot create digital twin without a backup to seed from.");
        return (s, false);
    }
    let result = env.create_twin(env_name, &backups[0]);
    let r = describe_twin_create(env_name, &result);
    proof {
        assert(env.create_answer(env_name@, backups@[0], result));
    }
    r
}

/// `db twin create`: seeds a twin of `env_name` from its latest backup (the
/// first one the host lists).  Without a backup it fails with a fixed
/// message; otherwise the message and flag describe what the host returned.
pub fn run_twin_create<E: DbEnvironment>(env: &E, env_name: &str) -> (r: (String, bool))
    ensures
        exists|bs: Seq<BackupMeta>|
            #[trigger] env.backups_answer(env_name@, bs) && (bs.len() == 0 ==> (r.0@, r.1) == (
                no_backups_text(env_name@),
                false,
            )) && (bs.len() > 0 ==> exists|res: TwinCreateResult|
                #[trigger] env.create_answer(env_name@, bs[0], res) && (r.0@, r.1) == twin_create_text(env_name@, res)),
{
    let backups = env.list_backups(env_name);
    let r = twin_create_from_backups(env, env_name, &backups);
    proof {
        assert(env.backups_answer(env_name@, backups@));
    }
    r
}

/// The message and success flag for a twin destruction result.
pub open spec fn twin_destroy_text(r: TwinDestroyResult) -> (Seq<char>, bool) {
    match r {
        TwinDestroyResult::Destroyed { container_id } => ("Twin container "@ + container_id@ + " destroyed."@, true),
        TwinDestroyResult::NothingToDestroy => ("No twin container found."@, true),
        TwinDestroyResult::Failed { reason } => ("Failed to destroy twin container:\n"@ + reason@, false),
    }
}

pub open spec fn no_twin_text() -> Seq<char> {
    "No twin container found — nothing to destroy."@
}

/// Describes the result of destroying a twin.
pub fn describe_twin_destroy(result: &TwinDestroyResult) -> (r: (String, bool))
    ensures
        (r.0@, r.1) == twin_destroy_text(*result),
{
    match result {
        TwinDestroyResult::Destroyed { container_id } => {
            let mut s = String::from_str("Twin container ");
            s.append(container_id.as_str());
            s.append(" destroyed.");
            (s, true)
        },
        TwinDestroyResult::NothingToDestroy => (owned("No twin container found."), true),
        TwinDestroyResult::Failed { reason } => {
            let mut s = String::from_str("Failed to destroy twin container:\n");
            s.append(reason.as_str());
            (s, false)
        },
    }
}

/// Destroying the twin in the given state: with no twin there is nothing
/// to do (success); otherwise the host is asked to destroy the twin's
/// container (running or stopped), and the message and flag describe what
/// it returned.
pub fn twin_destroy_for_status<E: DbEnvironment>(env: &E, status: &TwinStatus) -> (r: (String, bool))
    ensures
        destroy_outcome(*env, *status, r.0@, r.1),
{
    match status {
        TwinStatus::NotCreated => (owned("No twin container found — nothing to destroy."), true),
        TwinStatus::Running { container_id } => {
            let res = env.destroy_twin(container_id.as_str());
            let r = describe_twin_destroy(&res);
            proof {
                assert(env.destroy_answer(container_id@, res));
            }
            r
        },
        TwinStatus::Stopped { container_id } => {
            let res = env.destroy_twin(container_id.as_str());
            let r = describe_twin_destroy(&res);
            proof {
                assert(env.destroy_answer(container_id@, res));
            }
            r
        },
    }
}

/// What destroying the twin in `status` gives: with no twin, nothing to do
/// (success); with a running or stopped twin, the description of an answer
/// the environment gives to destroying that container.
pub open spec fn destroy_outcome<E: DbEnvironment>(env: E, status: TwinStatus, msg: Seq<char>, ok: bool) -> bool {
    match status {
        TwinStatus::NotCreated => (msg, ok) == (no_twin_text(), true),
        TwinStatus::Running { container_id } => exists|res: TwinDestroyResult|
            #[trigger] env.destroy_answer(container_id@, res) && (msg, ok) == twin_destroy_text(res),
        TwinStatus::Stopped { container_id } => exists|res: TwinDestroyResult|
            #[trigger] env.destroy_answer(container_id@, res) && (msg, ok) == twin_destroy_text(res),
    }
}

/// `db twin destroy`: with no twin there is nothing to do (success);
/// otherwise the twin's container is destroyed and the message and flag
/// describe what the host returned.
pub fn run_twin_destroy<E: DbEnvironment>(env: &E) -> (r: (String, bool))
    ensures
        exists|st: TwinStatus| #[trigger] env.status_answer(st) && destroy_outcome(*env, st, r.0@, r.1),
{
    let status = env.twin_status();
    let r = twin_destroy_for_status(env, &status);
    proof {
        assert(env.status_answer(status));
    }
    r
}

// ── Reading the host's docker output ─────────────────────────────────────────

/// Whether `i` is the position of the first space of `s`.
pub open spec fn first_space(s: Seq<char>, i: int) -> bool {
    0 <= i < s.len() && s[i] == ' ' && forall|k: int| 0 <= k < i ==> s[k] != ' '
}

/// The twin status `docker inspect --format '{{.Id}} {{.State.Status}}'`
/// reports: `output` is the command's trimmed output, `None` when it
/// failed.  The text before the first space is the container id, the rest
/// the state (`running` or another).
pub open spec fn inspected_status(output: Option<Seq<char>>) -> (Option<Seq<char>>, bool) {
    match output {
        None => (None, false),
        Some(o) => if exists|i: int| first_space(o, i) {
            let i = choose|i: int| first_space(o, i);
            (Some(o.take(i)), o.skip(i + 1) == "running"@)
        } else {
            (None, false)
        },
    }
}

/// The twin's status from the output of `docker inspect`.
pub fn twin_status_from_inspect(output: Option<&str>) -> (r: TwinStatus)
    ensures
        match inspected_status(match output {
            Some(o) => Some(o@),
            None => None,
        }) {
            (None, _) => r is NotCreated,
            (Some(id), true) => r matches TwinStatus::Running { container_id } && container_id@ == id,
            (Some(id), false) => r matches TwinStatus::Stopped { container_id } && container_id@ == id,
        },
{
    let o = match output {
        Some(o) => o,
        None => return TwinStatus::NotCreated,
    };
    let v = crate::text::chars_of(o);
    let n: usize = v.len();
    let mut i: usize = 0;
    while i < n && v[i] != ' '
        invariant
            n == v@.len(),
            v@ == o@,
            i <= n,
            forall|k: int| 0 <= k < i ==> v@[k] != ' ',
        decreases n - i,
    {
        i = i + 1;
    }
    if i == n {
        proof {
            if exists|j: int| first_space(o@, j) {
                let j = choose|j: int| first_space(o@, j);
                assert(v@[j] == ' ');
            }
        }
        return TwinStatus::NotCreated;
    }
    proof {
        assert(first_space(o@, i as int));
        let c = choose|c: int| first_space(o@, c);
        if c < i {
        } else if c > i {
            assert(o@[i as int] == ' ');
        }
        assert(c == i);
    }
    let id = crate::text::string_of(&v, 0, i);
    let state = crate::text::string_of(&v, i + 1, n);
    proof {
        assert(v@.subrange(0, i as int) =~= o@.take(i as int));
        assert(v@.subrange(i + 1, n as int) =~= o@.skip(i + 1));
        assert(output == Some(o));
        assert(inspected_status(Some(o@)) == (Some(o@.take(i as int)), o@.skip(i + 1) == "running"@));
    }
    if crate::text::str_eq(state.as_str(), "running") {
        TwinStatus::Running { container_id: id }
    } else {
        TwinStatus::Stopped { container_id: id }
    }
}

/// What creating the twin produced, from the `docker run` that started it:
/// `Ok((succeeded, stdout, stderr))` with the outputs trimmed, or the error
/// that kept it from starting.  A started container has no migrations to
/// run.
pub fn twin_create_outcome(run: Result<(bool, String, String), String>) -> (r: TwinCreateResult)
    ensures
        match run {
            Ok((true, out, _)) => r matches TwinCreateResult::Success { container_id, migration_output }
                && container_id@ == out@ && migration_output@ == "no migrations configured"@,
            Ok((false, _, err)) => r matches TwinCreateResult::ContainerFailed { reason } && reason@ == err@,
            Err(e) => r matches TwinCreateResult::ContainerFailed { reason } && reason@ == e@,
        },
{
    match run {
        Ok((true, out, _)) => TwinCreateResult::Success {
            container_id: out,
            migration_output: String::from_str("no migrations configured"),
        },
        Ok((false, _, err)) => TwinCreateResult::ContainerFailed { reason: err },
        Err(e) => TwinCreateResult::ContainerFailed { reason: e },
    }
}

/// What removing the twin `container_id` produced, from `docker rm -f`:
/// `Ok((succeeded, stderr))` with stderr trimmed, or the error that kept it
/// from running.
pub fn twin_destroy_outcome(container_id: &str, rm: Result<(bool, String), String>) -> (r: TwinDestroyResult)
    ensures
        match rm {
            Ok((true, _)) => r matches TwinDestroyResult::Destroyed { container_id: c } && c@ == container_id@,
            Ok((false, err)) => r matches TwinDestroyResult::Failed { reason } && reason@ == err@,
            Err(e) => r matches TwinDestroyResult::Failed { reason } && reason@ == e@,
        },
{
    match rm {
        Ok((true, _)) => TwinDestroyResult::Destroyed { container_id: owned(container_id) },
        Ok((false, err)) => TwinDestroyResult::Failed { reason: err },
        Err(e) => TwinDestroyResult::Failed { reason: e },
    }
}

} // verus!
