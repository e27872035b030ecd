//! Secure key management — names, lifecycle and audit log of managed keys.
//!
//! Keys are identified by a human-readable name.  Only metadata is kept here,
//! never key material.
//!
//! ```text
//! [Active] → rotate  → [Active]   (the entry is replaced by a fresh one)
//!          → revoke  → [Revoked]
//! ```
//!
//! Every lifecycle transition appends one entry to the store's audit log.
use crate::order::{lemma_lt_asymmetric, lemma_lt_total, lemma_lt_transitive, seq_lt, str_lt};
use crate::text::{ascii_alnum, chars_of, is_ascii_alnum, push_char, str_eq};
use vstd::prelude::*;

verus! {

// ── Names ────────────────────────────────────────────────────────────────────

/// Stable identifier used to reference a key in provider/deployment config.
#[derive(Debug, Clone, PartialEq, Eq, PartialOrd, Ord, Hash)]
pub struct KeyName(pub String);

/// A character allowed in a key name.
pub open spec fn name_char(c: char) -> bool {
    is_ascii_alnum(c) || c == '-' || c == '_'
}

/// A non-empty name made of ASCII letters, digits, `-` and `_`.
pub open spec fn valid_name(s: Seq<char>) -> bool {
    s.len() > 0 && forall|i: int| 0 <= i < s.len() ==> name_char(#[trigger] s[i])
}

/// Error type for key management operations.
#[derive(Debug, Clone, PartialEq, Eq)]
pub enum KeyError {
    /// The given key name is syntactically invalid.
    InvalidName(String),
    /// A key with the given name already exists.
    AlreadyExists(String),
    /// No key with the given name was found.
    NotFound(String),
    /// The key is in the wrong lifecycle state for the requested operation.
    InvalidTransition { name: String, current: String, requested: String },
}

impl KeyError {
    /// The human-readable description of the error.
    pub fn to_string(&self) -> (s: String)
        ensures
            s@ == match *self {
                KeyError::InvalidName(m) => "invalid key name: "@ + m@,
                KeyError::AlreadyExists(n) => "key '"@ + n@ + "' already exists"@,
                KeyError::NotFound(n) => "key '"@ + n@ + "' not found"@,
                KeyError::InvalidTransition { name, current, requested } => "key '"@ + name@
                    + "' cannot transition from '"@ + current@ + "' to '"@ + requested@ + "'"@,
            },
    {
        match self {
            KeyError::InvalidName(m) => {
                let mut s = String::from_str("invalid key name: ");
                s.append(m.as_str());
                s
            },
            KeyError::AlreadyExists(n) => {
                let mut s = String::from_str("key '");
                s.append(n.as_str());
                s.append("' already exists");
                s
            },
            KeyError::NotFound(n) => {
                let mut s = String::from_str("key '");
                s.append(n.as_str());
                s.append("' not found");
                s
            },
            KeyError::InvalidTransition { name, current, requested } => {
                let mut s = String::from_str("key '");
                s.append(name.as_str());
                s.append("' cannot transition from '");
                s.append(current.as_str());
                s.append("' to '");
                s.append(requested.as_str());
                s.append("'");
                s
            },
        }
    }
}

impl KeyName {
    /// Creates a name after checking that it is non-empty and contains only
    /// ASCII letters, digits, hyphens and underscores.
    pub fn new(name: &str) -> (r: Result<KeyName, KeyError>)
        ensures
            valid_name(name@) ==> (r matches Ok(k) && k.0@ == name@),
            name@.len() == 0 ==> (r matches Err(KeyError::InvalidName(m)) && m@
                == "name must not be empty"@),
            name@.len() > 0 && !valid_name(name@) ==> (r matches Err(KeyError::InvalidName(m)) && m@
                == "name '"@ + name@ + "' contains invalid characters (allowed: a-z A-Z 0-9 - _)"@),
    {
        let v = chars_of(name);
        let n: usize = v.len();
        if n == 0 {
            return Err(KeyError::InvalidName(String::from_str("name must not be empty")));
        }
        for i in 0..n
            invariant
                n == v@.len(),
                v@ == name@,
                forall|k: int| 0 <= k < i ==> name_char(#[trigger] v@[k]),
        {
            let c = v[i];
            if !(ascii_alnum(c) || c == '-' || c == '_') {
                let mut m = String::from_str("name '");
                m.append(name);
                m.append("' contains invalid characters (allowed: a-z A-Z 0-9 - _)");
                return Err(KeyError::InvalidName(m));
            }
        }
        Ok(KeyName(String::from_str(name)))
    }

    /// The name as text.
    pub fn as_str(&self) -> (s: &str)
        ensures
            s@ == self.0@,
    {
        self.0.as_str()
    }

    fn copy(&self) -> (r: KeyName)
        ensures
            r.0@ == self.0@,
    {
        KeyName(self.0.clone())
    }
}

// ── Metadata records ─────────────────────────────────────────────────────────

/// Purpose / intended use of a managed key.
#[derive(Debug, Clone, Copy, PartialEq, Eq, Structural)]
pub enum KeyPurpose {
    /// TLS certificate private key.
    Tls,
    /// GitHub deploy key or personal access token reference.
    GithubAuth,
    /// Deployment credential (e.g. cloud provider API key).
    DeploymentCredential,
    /// General-purpose secret.
    Generic,
}

/// Lifecycle status of a managed key.
#[derive(Debug, Clone, Copy, PartialEq, Eq, Structural)]
pub enum KeyStatus {
    /// Key is current and usable.
    Active,
    /// Key was superseded by a rotation.
    Rotated,
    /// Key has been revoked and must not be used.
    Revoked,
}

/// The kind of event recorded in the audit log.
#[derive(Debug, Clone, Copy, PartialEq, Eq, Structural)]
pub enum AuditEvent {
    Created,
    Rotated,
    Revoked,
}

pub open spec fn purpose_label(p: KeyPurpose) -> Seq<char> {
    match p {
        KeyPurpose::Tls => "tls"@,
        KeyPurpose::GithubAuth => "github-auth"@,
        KeyPurpose::DeploymentCredential => "deployment-credential"@,
        KeyPurpose::Generic => "generic"@,
    }
}

pub open spec fn status_label(s: KeyStatus) -> Seq<char> {
    match s {
        KeyStatus::Active => "active"@,
        KeyStatus::Rotated => "rotated"@,
        KeyStatus::Revoked => "revoked"@,
    }
}

pub open spec fn event_label(e: AuditEvent) -> Seq<char> {
    match e {
        AuditEvent::Created => "created"@,
        AuditEvent::Rotated => "rotated"@,
        AuditEvent::Revoked => "revoked"@,
    }
}

impl KeyPurpose {
    /// `tls`, `github-auth`, `deployment-credential` or `generic`.
    pub fn as_str(&self) -> (s: &'static str)
        ensures
            s@ == purpose_label(*self),
    {
        match self {
            KeyPurpose::Tls => "tls",
            KeyPurpose::GithubAuth => "github-auth",
            KeyPurpose::DeploymentCredential => "deployment-credential",
            KeyPurpose::Generic => "generic",
        }
    }
}

impl KeyStatus {
    /// `active`, `rotated` or `revoked`.
    pub fn as_str(&self) -> (s: &'static str)
        ensures
            s@ == status_label(*self),
    {
        match self {
            KeyStatus::Active => "active",
            KeyStatus::Rotated => "rotated",
            KeyStatus::Revoked => "revoked",
        }
    }
}

impl AuditEvent {
    /// `created`, `rotated` or `revoked`.
    pub fn as_str(&self) -> (s: &'static str)
        ensures
            s@ == event_label(*self),
    {
        match self {
            AuditEvent::Created => "created",
            AuditEvent::Rotated => "rotated",
            AuditEvent::Revoked => "revoked",
        }
    }
}

/// Metadata record for a single managed key.  Contains no key material.
#[derive(Debug, Clone, PartialEq, Eq)]
pub struct ManagedKey {
    /// Identifier used in config references.
    pub name: KeyName,
    /// Intended use of this key.
    pub purpose: KeyPurpose,
    /// Current lifecycle status.
    pub status: KeyStatus,
    /// ISO-8601 timestamp when this record was created.
    pub created_at: String,
    /// ISO-8601 timestamp of the most recent status change, if any.
    pub last_changed_at: Option<String>,
    /// Optional free-text description supplied by the operator.
    pub description: Option<String>,
}

/// An entry in the audit log.
#[derive(Debug, Clone, PartialEq, Eq)]
pub struct AuditEntry {
    /// ISO-8601 timestamp.
    pub timestamp: String,
    /// Key this event refers to.
    pub key_name: KeyName,
    /// What happened.
    pub event: AuditEvent,
}

/// The value of a key record.
pub struct KeyView {
    pub name: Seq<char>,
    pub purpose: KeyPurpose,
    pub status: KeyStatus,
    pub created_at: Seq<char>,
    pub last_changed_at: Option<Seq<char>>,
    pub description: Option<Seq<char>>,
}

/// The value of an audit entry.
pub struct AuditView {
    pub timestamp: Seq<char>,
    pub key_name: Seq<char>,
    pub event: AuditEvent,
}

pub open spec fn ov(o: Option<String>) -> Option<Seq<char>> {
    match o {
        Some(s) => Some(s@),
        None => None,
    }
}

impl View for ManagedKey {
    type V = KeyView;

    open spec fn view(&self) -> KeyView {
        KeyView {
            name: self.name.0@,
            purpose: self.purpose,
            status: self.status,
            created_at: self.created_at@,
            last_changed_at: ov(self.last_changed_at),
            description: ov(self.description),
        }
    }
}

impl View for AuditEntry {
    type V = AuditView;

    open spec fn view(&self) -> AuditView {
        AuditView { timestamp: self.timestamp@, key_name: self.key_name.0@, event: self.event }
    }
}

fn copy_opt(o: &Option<String>) -> (r: Option<String>)
    ensures
        ov(r) == ov(*o),
{
    match o {
        Some(s) => Some(s.clone()),
        None => None,
    }
}

impl ManagedKey {
    /// An exact copy.
    pub fn duplicate(&self) -> (r: ManagedKey)
        ensures
            r@ == self@,
    {
        ManagedKey {
            name: self.name.copy(),
            purpose: self.purpose,
            status: self.status,
            created_at: self.created_at.clone(),
            last_changed_at: copy_opt(&self.last_changed_at),
            description: copy_opt(&self.description),
        }
    }
}

impl AuditEntry {
    /// An exact copy.
    pub fn duplicate(&self) -> (r: AuditEntry)
        ensures
            r@ == self@,
    {
        AuditEntry { timestamp: self.timestamp.clone(), key_name: self.key_name.copy(), event: self.event }
    }
}

// ── Ordered key lists ────────────────────────────────────────────────────────

pub open spec fn key_views(s: Seq<ManagedKey>) -> Seq<KeyView> {
    s.map_values(|k: ManagedKey| k@)
}

pub open spec fn audit_views(s: Seq<AuditEntry>) -> Seq<AuditView> {
    s.map_values(|e: AuditEntry| e@)
}

/// Keys in strictly increasing name order (so names are unique).
pub open spec fn sorted(s: Seq<KeyView>) -> bool {
    forall|i: int, j: int| 0 <= i < j < s.len() ==> seq_lt(#[trigger] s[i].name, #[trigger] s[j].name)
}

/// `s` with `k` stored under its name: an entry of the same name is
/// replaced, otherwise `k` goes where its name sorts.
pub open spec fn upsert(s: Seq<KeyView>, k: KeyView) -> Seq<KeyView>
    decreases s.len(),
{
    if s.len() == 0 {
        seq![k]
    } else if s[0].name == k.name {
        s.update(0, k)
    } else if seq_lt(k.name, s[0].name) {
        seq![k] + s
    } else {
        seq![s[0]] + upsert(s.drop_first(), k)
    }
}

/// Every record of `ks`, stored in turn into `s`.
pub open spec fn upsert_all(s: Seq<KeyView>, ks: Seq<KeyView>) -> Seq<KeyView>
    decreases ks.len(),
{
    if ks.len() == 0 {
        s
    } else {
        upsert(upsert_all(s, ks.drop_last()), ks.last())
    }
}

pub open spec fn names_of(s: Seq<KeyView>) -> Seq<Seq<char>> {
    s.map_values(|k: KeyView| k.name)
}

/// Storing into a prefix that sorts strictly before the new name leaves the
/// prefix in place.
proof fn lemma_upsert_skip(s: Seq<KeyView>, k: KeyView, i: int)
    requires
        0 <= i <= s.len(),
        forall|j: int| 0 <= j < i ==> s[j].name != k.name && !seq_lt(k.name, s[j].name),
    ensures
        upsert(s, k) == s.take(i) + upsert(s.skip(i), k),
    decreases i,
{
    if i == 0 {
        assert(s.skip(0) =~= s);
        assert(s.take(0) + upsert(s, k) =~= upsert(s, k));
    } else {
        lemma_upsert_skip(s.drop_first(), k, i - 1);
        assert(s.drop_first().skip(i - 1) =~= s.skip(i));
        assert(seq![s[0]] + s.drop_first().take(i - 1) =~= s.take(i));
        assert(seq![s[0]] + (s.drop_first().take(i - 1) + upsert(s.skip(i), k)) =~= s.take(i) + upsert(
            s.skip(i),
            k,
        ));
    }
}

/// Storing into a sorted list keeps it sorted, makes the given record the one
/// held under its name, and leaves the set of other names unchanged.
pub proof fn lemma_upsert_sorted(s: Seq<KeyView>, k: KeyView)
    requires
        sorted(s),
    ensures
        sorted(upsert(s, k)),
        names_of(upsert(s, k)).contains(k.name),
        forall|i: int| 0 <= i < upsert(s, k).len() && upsert(s, k)[i].name == k.name ==> upsert(s, k)[i] == k,
        forall|n: Seq<char>| n != k.name ==> (names_of(upsert(s, k)).contains(n) <==> names_of(s).contains(n)),
    decreases s.len(),
{
    let u = upsert(s, k);
    if s.len() == 0 {
        assert(names_of(u)[0] == k.name);
    } else if s[0].name == k.name {
        assert(names_of(u)[0] == k.name);
        assert forall|i: int, j: int| 0 <= i < j < u.len() implies seq_lt(#[trigger] u[i].name, #[trigger] u[j].name) by {
            assert(seq_lt(s[i].name, s[j].name));
        }
        assert forall|i: int| 0 <= i < u.len() && u[i].name == k.name implies u[i] == k by {
            if i > 0 {
                assert(seq_lt(s[0].name, s[i].name));
                lemma_lt_asymmetric(s[0].name, s[i].name);
            }
        }
        assert forall|n: Seq<char>| n != k.name implies (names_of(u).contains(n) <==> names_of(s).contains(n)) by {
            if names_of(u).contains(n) {
                let i = choose|i: int| 0 <= i < names_of(u).len() && names_of(u)[i] == n;
                assert(names_of(s)[i] == n);
            }
            if names_of(s).contains(n) {
                let i = choose|i: int| 0 <= i < names_of(s).len() && names_of(s)[i] == n;
                assert(names_of(u)[i] == n);
            }
        }
    } else if seq_lt(k.name, s[0].name) {
        assert(names_of(u)[0] == k.name);
        assert forall|i: int, j: int| 0 <= i < j < u.len() implies seq_lt(#[trigger] u[i].name, #[trigger] u[j].name) by {
            if i == 0 {
                if j > 1 {
                    assert(seq_lt(s[0].name, s[j - 1].name));
                    lemma_lt_transitive(k.name, s[0].name, s[j - 1].name);
                }
            } else {
                assert(seq_lt(s[i - 1].name, s[j - 1].name));
            }
        }
        assert forall|i: int| 0 <= i < u.len() && u[i].name == k.name implies u[i] == k by {
            if i > 0 {
                if i > 1 {
                    assert(seq_lt(s[0].name, s[i - 1].name));
                    lemma_lt_transitive(k.name, s[0].name, s[i - 1].name);
                }
                lemma_lt_asymmetric(k.name, s[i - 1].name);
            }
        }
        assert forall|n: Seq<char>| n != k.name implies (names_of(u).contains(n) <==> names_of(s).contains(n)) by {
            if names_of(u).contains(n) {
                let i = choose|i: int| 0 <= i < names_of(u).len() && names_of(u)[i] == n;
                assert(names_of(s)[i - 1] == n);
            }
            if names_of(s).contains(n) {
                let i = choose|i: int| 0 <= i < names_of(s).len() && names_of(s)[i] == n;
                assert(names_of(u)[i + 1] == n);
            }
        }
    } else {
        let t = s.drop_first();
        assert(sorted(t)) by {
            assert forall|i: int, j: int| 0 <= i < j < t.len() implies seq_lt(#[trigger] t[i].name, #[trigger] t[j].name) by {
                assert(seq_lt(s[i + 1].name, s[j + 1].name));
            }
        }
        lemma_upsert_sorted(t, k);
        let r = upsert(t, k);
        lemma_lt_total(k.name, s[0].name);
        assert(seq_lt(s[0].name, k.name));
        assert(u =~= seq![s[0]] + r);
        assert forall|i: int, j: int| 0 <= i < j < u.len() implies seq_lt(#[trigger] u[i].name, #[trigger] u[j].name) by {
            if i == 0 {
                let n = u[j].name;
                assert(n == r[j - 1].name);
                if n == k.name {
                } else {
                    assert(names_of(r)[j - 1] == n);
                    assert(names_of(t).contains(n));
                    let q = choose|q: int| 0 <= q < names_of(t).len() && names_of(t)[q] == n;
                    assert(seq_lt(s[0].name, s[q + 1].name));
                }
            }
        }
        assert(names_of(u)[0] == s[0].name);
        assert forall|i: int| 0 <= i < u.len() && u[i].name == k.name implies u[i] == k by {
            if i == 0 {
                lemma_lt_asymmetric(s[0].name, k.name);
            } else {
                assert(u[i] == r[i - 1]);
            }
        }
        assert(names_of(r).contains(k.name));
        let p = choose|p: int| 0 <= p < names_of(r).len() && names_of(r)[p] == k.name;
        assert(names_of(u)[p + 1] == k.name);
        assert forall|n: Seq<char>| n != k.name implies (names_of(u).contains(n) <==> names_of(s).contains(n)) by {
            if names_of(u).contains(n) {
                let i = choose|i: int| 0 <= i < names_of(u).len() && names_of(u)[i] == n;
                if i == 0 {
                    assert(names_of(s)[0] == n);
                } else {
                    assert(names_of(r)[i - 1] == n);
                    assert(names_of(r).contains(n));
                    assert(names_of(t).contains(n));
                    let q = choose|q: int| 0 <= q < names_of(t).len() && names_of(t)[q] == n;
                    assert(names_of(s)[q + 1] == n);
                }
            }
            if names_of(s).contains(n) {
                let i = choose|i: int| 0 <= i < names_of(s).len() && names_of(s)[i] == n;
                if i == 0 {
                    assert(names_of(u)[0] == n);
                } else {
                    assert(names_of(t)[i - 1] == n);
                    assert(names_of(t).contains(n));
                    assert(names_of(r).contains(n));
                    let q = choose|q: int| 0 <= q < names_of(r).len() && names_of(r)[q] == n;
                    assert(names_of(u)[q + 1] == n);
                }
            }
        }
    }
}

// ── The store ────────────────────────────────────────────────────────────────

/// The value of a store: its current key records in name order, the
/// records archived by rotation in the order they were archived, and its
/// audit log in insertion order.
pub struct StoreView {
    pub keys: Seq<KeyView>,
    pub archived: Seq<KeyView>,
    pub audit: Seq<AuditView>,
}

/// In-process key store: the current key records ordered by name, the
/// records rotated out (status `Rotated`), and the audit log.
#[derive(Debug)]
pub struct KeyStore {
    keys: Vec<ManagedKey>,
    archived: Vec<ManagedKey>,
    audit: Vec<AuditEntry>,
}

/// No record has status `Rotated`.
pub open spec fn none_rotated(s: Seq<KeyView>) -> bool {
    forall|i: int| 0 <= i < s.len() ==> (#[trigger] s[i]).status != KeyStatus::Rotated
}

/// Every record has status `Rotated`.
pub open spec fn all_rotated(s: Seq<KeyView>) -> bool {
    forall|i: int| 0 <= i < s.len() ==> (#[trigger] s[i]).status == KeyStatus::Rotated
}

/// The records of `s` whose status is not `Rotated`, in order.
pub open spec fn current_records(s: Seq<KeyView>) -> Seq<KeyView>
    decreases s.len(),
{
    if s.len() == 0 {
        Seq::empty()
    } else if s.last().status != KeyStatus::Rotated {
        current_records(s.drop_last()).push(s.last())
    } else {
        current_records(s.drop_last())
    }
}

/// The records of `s` whose status is `Rotated`, in order.
pub open spec fn rotated_records(s: Seq<KeyView>) -> Seq<KeyView>
    decreases s.len(),
{
    if s.len() == 0 {
        Seq::empty()
    } else if s.last().status == KeyStatus::Rotated {
        rotated_records(s.drop_last()).push(s.last())
    } else {
        rotated_records(s.drop_last())
    }
}

/// The record a rotation archives.
pub open spec fn archived_view(k: KeyView, now: Seq<char>) -> KeyView {
    KeyView { status: KeyStatus::Rotated, last_changed_at: Some(now), ..k }
}

/// The active records of a list, in order.
pub open spec fn active_keys(s: Seq<KeyView>) -> Seq<KeyView>
    decreases s.len(),
{
    if s.len() == 0 {
        Seq::empty()
    } else if s.last().status == KeyStatus::Active {
        active_keys(s.drop_last()).push(s.last())
    } else {
        active_keys(s.drop_last())
    }
}

/// The message for an audit entry whose key is unknown.
pub open spec fn unknown_key_issue(name: Seq<char>) -> Seq<char> {
    "audit entry references unknown key '"@ + name + "'"@
}

/// The problems `health_check` reports, in audit-log order.
pub open spec fn health_issues(keys: Seq<KeyView>, audit: Seq<AuditView>) -> Seq<Seq<char>>
    decreases audit.len(),
{
    if audit.len() == 0 {
        Seq::empty()
    } else {
        let prev = health_issues(keys, audit.drop_last());
        if names_of(keys).contains(audit.last().key_name) {
            prev
        } else {
            prev.push(unknown_key_issue(audit.last().key_name))
        }
    }
}

/// Every audit entry refers to a key of the store.
pub open spec fn audit_consistent(v: StoreView) -> bool {
    forall|i: int| 0 <= i < v.audit.len() ==> names_of(v.keys).contains(#[trigger] v.audit[i].key_name)
}

/// A lifecycle request made to a key store: the key's name and the time
/// given with the request.
pub enum KeyCall {
    Create { name: Seq<char>, now: Seq<char> },
    Rotate { name: Seq<char>, now: Seq<char> },
    Revoke { name: Seq<char>, now: Seq<char> },
}

/// The store holds a current record named `name` that is `Active`.
pub open spec fn has_active(v: StoreView, name: Seq<char>) -> bool {
    exists|j: int| 0 <= j < v.keys.len() && #[trigger] v.keys[j].name == name && v.keys[j].status == KeyStatus::Active
}

/// Whether the request succeeds on a store in state `v`: a creation needs a
/// fresh name, a rotation or revocation an `Active` key of that name.
pub open spec fn call_succeeds(v: StoreView, c: KeyCall) -> bool {
    match c {
        KeyCall::Create { name, .. } => !names_of(v.keys).contains(name),
        KeyCall::Rotate { name, .. } => has_active(v, name),
        KeyCall::Revoke { name, .. } => has_active(v, name),
    }
}

/// The audit entry a successful request appends.
pub open spec fn call_event(c: KeyCall) -> AuditView {
    match c {
        KeyCall::Create { name, now } => AuditView { timestamp: now, key_name: name, event: AuditEvent::Created },
        KeyCall::Rotate { name, now } => AuditView { timestamp: now, key_name: name, event: AuditEvent::Rotated },
        KeyCall::Revoke { name, now } => AuditView { timestamp: now, key_name: name, event: AuditEvent::Revoked },
    }
}

/// The audit log after the request: one more entry if it succeeds, else unchanged.
pub open spec fn audit_after(v: StoreView, c: KeyCall) -> Seq<AuditView> {
    if call_succeeds(v, c) {
        v.audit.push(call_event(c))
    } else {
        v.audit
    }
}

/// The entries of the successful requests among `cs`, in request order, where
/// request `i` is made on the store in state `vs[i]`.
pub open spec fn logged_events(vs: Seq<StoreView>, cs: Seq<KeyCall>) -> Seq<AuditView>
    decreases cs.len(),
{
    if cs.len() == 0 {
        Seq::empty()
    } else {
        let i = cs.len() - 1;
        let prev = logged_events(vs, cs.drop_last());
        if call_succeeds(vs[i], cs[i]) {
            prev.push(call_event(cs[i]))
        } else {
            prev
        }
    }
}

/// The record a creation stores.
pub open spec fn created_view(name: Seq<char>, purpose: KeyPurpose, description: Option<Seq<char>>, now: Seq<char>) -> KeyView {
    KeyView { name, purpose, status: KeyStatus::Active, created_at: now, last_changed_at: None, description }
}

impl View for KeyStore {
    type V = StoreView;

    closed spec fn view(&self) -> StoreView {
        StoreView { keys: key_views(self.keys@), archived: key_views(self.archived@), audit: audit_views(self.audit@) }
    }
}

impl KeyStore {
    #[verifier::type_invariant]
    spec fn well_formed(&self) -> bool {
        &&& sorted(key_views(self.keys@))
        &&& none_rotated(key_views(self.keys@))
        &&& all_rotated(key_views(self.archived@))
    }

    /// An empty store.
    pub fn new() -> (s: Self)
        ensures
            s@.keys.len() == 0,
            s@.archived.len() == 0,
            s@.audit.len() == 0,
            audit_consistent(s@),
    {
        let s = KeyStore { keys: Vec::new(), archived: Vec::new(), audit: Vec::new() };
        proof {
            assert(key_views(s.keys@) =~= Seq::<KeyView>::empty());
            assert(key_views(s.archived@) =~= Seq::<KeyView>::empty());
            assert(audit_views(s.audit@) =~= Seq::<AuditView>::empty());
        }
        s
    }

    fn find(&self, name: &str) -> (r: Option<usize>)
        ensures
            match r {
                Some(i) => i < self@.keys.len() && self@.keys[i as int].name == name@,
                None => !names_of(self@.keys).contains(name@) && forall|k: int|
                    0 <= k < self@.keys.len() ==> #[trigger] self@.keys[k].name != name@,
            },
    {
        let n: usize = self.keys.len();
        for i in 0..n
            invariant
                n == self.keys@.len(),
                forall|k: int| 0 <= k < i ==> self.keys@[k].name.0@ != name@,
        {
            if str_eq(self.keys[i].name.0.as_str(), name) {
                proof {
                    assert(self@.keys[i as int] == self.keys@[i as int]@);
                }
                return Some(i);
            }
        }
        proof {
            let ns = names_of(self@.keys);
            assert forall|k: int| 0 <= k < ns.len() implies ns[k] != name@ by {
                assert(ns[k] == self.keys@[k].name.0@);
            }
            assert forall|k: int| 0 <= k < self@.keys.len() implies #[trigger] self@.keys[k].name != name@ by {
                assert(self@.keys[k] == self.keys@[k]@);
            }
        }
        None
    }

    /// Stores `key` under its name (replacing a record of the same name).
    fn store(&mut self, key: ManagedKey)
        requires
            key@.status != KeyStatus::Rotated,
        ensures
            final(self)@.keys == upsert(old(self)@.keys, key@),
            final(self)@.archived == old(self)@.archived,
            final(self)@.audit == old(self)@.audit,
    {
        proof {
            use_type_invariant(&*self);
        }
        let ghost s = old(self)@.keys;
        let ghost kv = key@;
        let n: usize = self.keys.len();
        let mut i: usize = 0;
        while i < n
            invariant
                n == self.keys@.len(),
                i <= n,
                s == key_views(self.keys@),
                sorted(s),
                forall|j: int| 0 <= j < i ==> s[j].name != key@.name && !seq_lt(key@.name, s[j].name),
            ensures
                i <= n,
                forall|j: int| 0 <= j < i ==> s[j].name != key@.name && !seq_lt(key@.name, s[j].name),
                i < n ==> (s[i as int].name == key@.name || seq_lt(key@.name, s[i as int].name)),
            decreases n - i,
        {
            let same = str_eq(self.keys[i].name.0.as_str(), key.name.0.as_str());
            let before = str_lt(key.name.0.as_str(), self.keys[i].name.0.as_str());
            if same || before {
                proof {
                    assert(s[i as int] == self.keys@[i as int]@);
                }
                break;
            }
            i = i + 1;
        }
        proof {
            lemma_upsert_skip(s, kv, i as int);
            lemma_upsert_sorted(s, kv);
            lemma_upsert_none_rotated(s, kv);
        }
        let same = i < n && str_eq(self.keys[i].name.0.as_str(), key.name.0.as_str());
        let mut keys: Vec<ManagedKey> = Vec::new();
        std::mem::swap(&mut keys, &mut self.keys);
        if same {
            keys.set(i, key);
            proof {
                assert(s.skip(i as int)[0].name == kv.name);
                assert(upsert(s.skip(i as int), kv) =~= s.skip(i as int).update(0, kv));
                assert(key_views(keys@) =~= s.take(i as int) + upsert(s.skip(i as int), kv));
            }
        } else {
            keys.insert(i, key);
            proof {
                if i < n {
                    assert(s.skip(i as int)[0].name != kv.name);
                    assert(upsert(s.skip(i as int), kv) =~= seq![kv] + s.skip(i as int));
                } else {
                    assert(s.skip(i as int) =~= Seq::<KeyView>::empty());
                }
                assert(key_views(keys@) =~= s.take(i as int) + upsert(s.skip(i as int), kv));
            }
        }
        self.keys = keys;
    }

    /// Appends a `Rotated` record to the archive.
    fn archive(&mut self, key: ManagedKey)
        requires
            key@.status == KeyStatus::Rotated,
        ensures
            final(self)@.keys == old(self)@.keys,
            final(self)@.archived == old(self)@.archived.push(key@),
            final(self)@.audit == old(self)@.audit,
    {
        proof {
            use_type_invariant(&*self);
        }
        let ghost before = old(self)@;
        let ghost kv = key@;
        let mut archived: Vec<ManagedKey> = Vec::new();
        std::mem::swap(&mut archived, &mut self.archived);
        archived.push(key);
        proof {
            assert(key_views(archived@) =~= before.archived.push(kv));
        }
        self.archived = archived;
    }

    /// Creates a new `Active` key; fails if a key with the same name exists.
    pub fn create(&mut self, name: KeyName, purpose: KeyPurpose, description: Option<String>, now: &str) -> (r: Result<ManagedKey, KeyError>)
        ensures
            names_of(old(self)@.keys).contains(name.0@) ==> (r matches Err(KeyError::AlreadyExists(n)) && n@
                == name.0@ && final(self)@ == old(self)@),
            !names_of(old(self)@.keys).contains(name.0@) ==> (r matches Ok(k) && k@ == created_view(
                name.0@,
                purpose,
                ov(description),
                now@,
            ) && final(self)@.keys == upsert(old(self)@.keys, k@) && final(self)@.archived == old(self)@.archived
                && final(self)@.audit == old(self)@.audit.push(
                AuditView { timestamp: now@, key_name: name.0@, event: AuditEvent::Created },
            )),
            final(self)@.audit == audit_after(old(self)@, KeyCall::Create { name: name.0@, now: now@ }),
            audit_consistent(old(self)@) ==> audit_consistent(final(self)@),
    {
        proof {
            use_type_invariant(&*self);
        }
        match self.find(name.0.as_str()) {
            Some(i) => {
                proof {
                    assert(names_of(self@.keys)[i as int] == name.0@);
                }
                return Err(KeyError::AlreadyExists(name.0.clone()));
            },
            None => {},
        }
        let key = ManagedKey {
            name: name.copy(),
            purpose,
            status: KeyStatus::Active,
            created_at: String::from_str(now),
            last_changed_at: None,
            description,
        };
        let result = key.duplicate();
        self.store(key);
        let ghost before = old(self)@;
        proof {
            use_type_invariant(&*self);
        }
        let mut audit: Vec<AuditEntry> = Vec::new();
        std::mem::swap(&mut audit, &mut self.audit);
        audit.push(AuditEntry { timestamp: String::from_str(now), key_name: name, event: AuditEvent::Created });
        self.audit = audit;
        proof {
            lemma_upsert_sorted(before.keys, result@);
            assert(self@.audit =~= before.audit.push(
                AuditView { timestamp: now@, key_name: result@.name, event: AuditEvent::Created },
            ));
            lemma_consistent_after_store(before, self@, result@.name);
        }
        Ok(result)
    }

    /// Rotates an `Active` key: the existing record is archived, marked
    /// `Rotated` and changed `now`, and a fresh `Active` record created `now`
    /// with the same name, purpose and description takes its place.
    pub fn rotate(&mut self, name: &KeyName, now: &str) -> (r: Result<ManagedKey, KeyError>)
        ensures
            !names_of(old(self)@.keys).contains(name.0@) ==> (r matches Err(KeyError::NotFound(n)) && n@
                == name.0@ && final(self)@ == old(self)@),
            forall|i: int|
                0 <= i < old(self)@.keys.len() && #[trigger] old(self)@.keys[i].name == name.0@ ==> {
                    let k = old(self)@.keys[i];
                    if k.status != KeyStatus::Active {
                        &&& r matches Err(KeyError::InvalidTransition { name: n, current, requested })
                        &&& n@ == name.0@ && current@ == status_label(k.status) && requested@ == "rotated"@
                        &&& final(self)@ == old(self)@
                    } else {
                        &&& r matches Ok(nk)
                        &&& nk@ == created_view(name.0@, k.purpose, k.description, now@)
                        &&& final(self)@.keys == old(self)@.keys.update(i, nk@)
                        &&& final(self)@.archived == old(self)@.archived.push(archived_view(k, now@))
                        &&& final(self)@.audit == old(self)@.audit.push(
                            AuditView { timestamp: now@, key_name: name.0@, event: AuditEvent::Rotated },
                        )
                    }
                },
            final(self)@.audit == audit_after(old(self)@, KeyCall::Rotate { name: name.0@, now: now@ }),
            audit_consistent(old(self)@) ==> audit_consistent(final(self)@),
    {
        proof {
            use_type_invariant(&*self);
        }
        let i = match self.find(name.0.as_str()) {
            Some(i) => i,
            None => return Err(KeyError::NotFound(name.0.clone())),
        };
        proof {
            lemma_name_position_unique(old(self)@.keys, i as int);
            assert(names_of(old(self)@.keys)[i as int] == name.0@);
            assert(old(self)@.keys[i as int] == self.keys@[i as int]@);
        }
        let status = self.keys[i].status;
        if status != KeyStatus::Active {
            return Err(
                KeyError::InvalidTransition {
                    name: name.0.clone(),
                    current: String::from_str(status.as_str()),
                    requested: String::from_str("rotated"),
                },
            );
        }
        let fresh = ManagedKey {
            name: name.copy(),
            purpose: self.keys[i].purpose,
            status: KeyStatus::Active,
            created_at: String::from_str(now),
            last_changed_at: None,
            description: copy_opt(&self.keys[i].description),
        };
        let result = fresh.duplicate();
        let old_key = self.keys[i].duplicate();
        let retired = ManagedKey {
            name: old_key.name,
            purpose: old_key.purpose,
            status: KeyStatus::Rotated,
            created_at: old_key.created_at,
            last_changed_at: Some(String::from_str(now)),
            description: old_key.description,
        };
        let ghost before = old(self)@;
        let ghost av = retired@;
        assert(av == archived_view(before.keys[i as int], now@));
        let mut archived: Vec<ManagedKey> = Vec::new();
        std::mem::swap(&mut archived, &mut self.archived);
        archived.push(retired);
        proof {
            assert(key_views(archived@) =~= before.archived.push(av));
        }
        self.archived = archived;
        let mut keys: Vec<ManagedKey> = Vec::new();
        std::mem::swap(&mut keys, &mut self.keys);
        keys.set(i, fresh);
        proof {
            assert(key_views(keys@) =~= before.keys.update(i as int, result@));
            lemma_update_same_name_sorted(before.keys, i as int, result@);
        }
        self.keys = keys;
        let mut audit: Vec<AuditEntry> = Vec::new();
        std::mem::swap(&mut audit, &mut self.audit);
        audit.push(AuditEntry { timestamp: String::from_str(now), key_name: name.copy(), event: AuditEvent::Rotated });
        self.audit = audit;
        proof {
            assert(key_views(self.keys@) =~= before.keys.update(i as int, result@));
            assert(audit_views(self.audit@) =~= before.audit.push(
                AuditView { timestamp: now@, key_name: name.0@, event: AuditEvent::Rotated },
            ));
            lemma_update_same_name_sorted(before.keys, i as int, result@);
            lemma_consistent_after_update(before, self@, i as int);
        }
        Ok(result)
    }

    /// Revokes an `Active` key: its status becomes `Revoked`, changed `now`.
    pub fn revoke(&mut self, name: &KeyName, now: &str) -> (r: Result<(), KeyError>)
        ensures
            !names_of(old(self)@.keys).contains(name.0@) ==> (r matches Err(KeyError::NotFound(n)) && n@
                == name.0@ && final(self)@ == old(self)@),
            forall|i: int|
                0 <= i < old(self)@.keys.len() && #[trigger] old(self)@.keys[i].name == name.0@ ==> {
                    let k = old(self)@.keys[i];
                    if k.status != KeyStatus::Active {
                        &&& r matches Err(KeyError::InvalidTransition { name: n, current, requested })
                        &&& n@ == name.0@ && current@ == status_label(k.status) && requested@ == "revoked"@
                        &&& final(self)@ == old(self)@
                    } else {
                        &&& r is Ok
                        &&& final(self)@.keys == old(self)@.keys.update(
                            i,
                            KeyView { status: KeyStatus::Revoked, last_changed_at: Some(now@), ..k },
                        )
                        &&& final(self)@.archived == old(self)@.archived
                        &&& final(self)@.audit == old(self)@.audit.push(
                            AuditView { timestamp: now@, key_name: name.0@, event: AuditEvent::Revoked },
                        )
                    }
                },
            final(self)@.audit == audit_after(old(self)@, KeyCall::Revoke { name: name.0@, now: now@ }),
            audit_consistent(old(self)@) ==> audit_consistent(final(self)@),
    {
        proof {
            use_type_invariant(&*self);
        }
        let i = match self.find(name.0.as_str()) {
            Some(i) => i,
            None => return Err(KeyError::NotFound(name.0.clone())),
        };
        proof {
            lemma_name_position_unique(old(self)@.keys, i as int);
            assert(names_of(old(self)@.keys)[i as int] == name.0@);
            assert(old(self)@.keys[i as int] == self.keys@[i as int]@);
        }
        let status = self.keys[i].status;
        if status != KeyStatus::Active {
            return Err(
                KeyError::InvalidTransition {
                    name: name.0.clone(),
                    current: String::from_str(status.as_str()),
                    requested: String::from_str("revoked"),
                },
            );
        }
        let old_key = self.keys[i].duplicate();
        let revoked = ManagedKey {
            name: old_key.name,
            purpose: old_key.purpose,
            status: KeyStatus::Revoked,
            created_at: old_key.created_at,
            last_changed_at: Some(String::from_str(now)),
            description: old_key.description,
        };
        let ghost rv = revoked@;
        let ghost before = old(self)@;
        let mut keys: Vec<ManagedKey> = Vec::new();
        std::mem::swap(&mut keys, &mut self.keys);
        keys.set(i, revoked);
        proof {
            assert(key_views(keys@) =~= before.keys.update(i as int, rv));
            lemma_update_same_name_sorted(before.keys, i as int, rv);
        }
        self.keys = keys;
        let mut audit: Vec<AuditEntry> = Vec::new();
        std::mem::swap(&mut audit, &mut self.audit);
        audit.push(AuditEntry { timestamp: String::from_str(now), key_name: name.copy(), event: AuditEvent::Revoked });
        self.audit = audit;
        proof {
            assert(key_views(self.keys@) =~= before.keys.update(i as int, rv));
            assert(audit_views(self.audit@) =~= before.audit.push(
                AuditView { timestamp: now@, key_name: name.0@, event: AuditEvent::Revoked },
            ));
            lemma_update_same_name_sorted(before.keys, i as int, rv);
            lemma_consistent_after_update(before, self@, i as int);
        }
        Ok(())
    }

    /// All key records (active, rotated, revoked): the current records in
    /// name order, then the records archived by rotation, oldest first.
    pub fn list(&self) -> (r: Vec<&ManagedKey>)
        ensures
            sorted(self@.keys),
            r@.len() == self@.keys.len() + self@.archived.len(),
            forall|i: int| 0 <= i < r@.len() ==> (#[trigger] r@[i])@ == (self@.keys + self@.archived)[i],
    {
        proof {
            use_type_invariant(self);
        }
        let mut r: Vec<&ManagedKey> = Vec::new();
        let n: usize = self.keys.len();
        for i in 0..n
            invariant
                n == self.keys@.len(),
                r@.len() == i,
                forall|k: int| 0 <= k < i ==> (#[trigger] r@[k])@ == self@.keys[k],
        {
            r.push(&self.keys[i]);
        }
        let m: usize = self.archived.len();
        for j in 0..m
            invariant
                n == self.keys@.len(),
                m == self.archived@.len(),
                r@.len() == n + j,
                forall|k: int| 0 <= k < n + j ==> (#[trigger] r@[k])@ == (self@.keys + self@.archived)[k],
        {
            r.push(&self.archived[j]);
        }
        r
    }

    /// The active keys, in name order: the `Active` records of `list`, in
    /// the same order.
    pub fn list_active(&self) -> (r: Vec<&ManagedKey>)
        ensures
            r@.map_values(|k: &ManagedKey| k@) == active_keys(self@.keys),
            r@.map_values(|k: &ManagedKey| k@) == active_keys(self@.keys + self@.archived),
    {
        proof {
            use_type_invariant(self);
            lemma_active_keys_skip_rotated(self@.keys, self@.archived);
        }
        let mut r: Vec<&ManagedKey> = Vec::new();
        let n: usize = self.keys.len();
        let ghost all = self@.keys;
        for i in 0..n
            invariant
                n == self.keys@.len(),
                all == self@.keys,
                r@.map_values(|k: &ManagedKey| k@) == active_keys(all.take(i as int)),
        {
            proof {
                assert(all.take(i + 1).drop_last() =~= all.take(i as int));
                assert(all.take(i + 1).last() == self.keys@[i as int]@);
            }
            let ghost before = r@;
            if self.keys[i].status == KeyStatus::Active {
                r.push(&self.keys[i]);
                proof {
                    assert(r@.map_values(|k: &ManagedKey| k@) =~= before.map_values(|k: &ManagedKey| k@).push(all[i as int]));
                }
            }
        }
        proof {
            assert(all.take(n as int) =~= all);
        }
        r
    }

    /// The audit log in insertion order.
    pub fn audit_log(&self) -> (r: &[AuditEntry])
        ensures
            audit_views(r@) == self@.audit,
    {
        self.audit.as_slice()
    }

    /// The key with the given name.
    pub fn get(&self, name: &KeyName) -> (r: Option<&ManagedKey>)
        ensures
            match r {
                Some(k) => names_of(self@.keys).contains(name.0@) && k@.name == name.0@ && (exists|i: int|
                    0 <= i < self@.keys.len() && self@.keys[i] == k@) && forall|j: int|
                    0 <= j < self@.keys.len() && #[trigger] self@.keys[j].name == name.0@ ==> self@.keys[j] == k@,
                None => !names_of(self@.keys).contains(name.0@),
            },
    {
        proof {
            use_type_invariant(self);
        }
        match self.find(name.0.as_str()) {
            Some(i) => {
                proof {
                    lemma_name_position_unique(self@.keys, i as int);
                    assert(names_of(self@.keys)[i as int] == name.0@);
                    assert(self@.keys[i as int] == self.keys@[i as int]@);
                }
                Some(&self.keys[i])
            },
            None => None,
        }
    }

    /// Whether the store has no keys.
    pub fn is_empty(&self) -> (b: bool)
        ensures
            b == (self@.keys.len() == 0),
    {
        self.keys.len() == 0
    }

    /// The number of keys (all statuses).
    pub fn len(&self) -> (n: usize)
        ensures
            n == self@.keys.len(),
    {
        self.keys.len()
    }

    /// One problem description per audit entry that refers to an unknown key.
    pub fn health_check(&self) -> (r: Vec<String>)
        ensures
            r@.map_values(|s: String| s@) == health_issues(self@.keys, self@.audit),
    {
        let mut issues: Vec<String> = Vec::new();
        let n: usize = self.audit.len();
        let ghost audit = self@.audit;
        for i in 0..n
            invariant
                n == self.audit@.len(),
                audit == self@.audit,
                issues@.map_values(|s: String| s@) == health_issues(self@.keys, audit.take(i as int)),
        {
            proof {
                assert(audit.take(i + 1).drop_last() =~= audit.take(i as int));
                assert(audit.take(i + 1).last() == self.audit@[i as int]@);
            }
            let ghost before = issues@;
            let found = self.find(self.audit[i].key_name.0.as_str());
            proof {
                assert(audit[i as int] == self.audit@[i as int]@);
                if found is Some {
                    assert(names_of(self@.keys)[found->Some_0 as int] == audit[i as int].key_name);
                }
            }
            if found.is_none() {
                let mut m = String::from_str("audit entry references unknown key '");
                m.append(self.audit[i].key_name.0.as_str());
                m.append("'");
                issues.push(m);
                proof {
                    assert(issues@.map_values(|s: String| s@) =~= before.map_values(|s: String| s@).push(
                        unknown_key_issue(audit[i as int].key_name),
                    ));
                }
            }
        }
        proof {
            assert(audit.take(n as int) =~= audit);
        }
        issues
    }

    /// A snapshot of the store's contents: the current records, then the
    /// archived ones, and the audit log.
    pub fn snapshot(&self) -> (s: KeyStoreSnapshot)
        ensures
            key_views(s.keys@) == self@.keys + self@.archived,
            audit_views(s.audit@) == self@.audit,
            sorted(self@.keys),
            none_rotated(self@.keys),
            all_rotated(self@.archived),
    {
        proof {
            use_type_invariant(self);
        }
        let mut keys: Vec<ManagedKey> = Vec::new();
        let ghost all = self@.keys + self@.archived;
        let n: usize = self.keys.len();
        for i in 0..n
            invariant
                n == self.keys@.len(),
                all == self@.keys + self@.archived,
                key_views(keys@) == all.take(i as int),
        {
            let d = self.keys[i].duplicate();
            let ghost before = keys@;
            keys.push(d);
            proof {
                assert(key_views(keys@) =~= key_views(before).push(d@));
                assert(key_views(keys@) =~= all.take(i + 1));
            }
        }
        let na: usize = self.archived.len();
        for j in 0..na
            invariant
                n == self.keys@.len(),
                na == self.archived@.len(),
                all == self@.keys + self@.archived,
                key_views(keys@) == all.take(n + j),
        {
            let d = self.archived[j].duplicate();
            let ghost before = keys@;
            keys.push(d);
            proof {
                assert(key_views(keys@) =~= key_views(before).push(d@));
                assert(key_views(keys@) =~= all.take(n + j + 1));
            }
        }
        proof {
            assert(all.take(n + na) =~= all);
        }
        let mut audit: Vec<AuditEntry> = Vec::new();
        let m: usize = self.audit.len();
        for i in 0..m
            invariant
                m == self.audit@.len(),
                audit_views(audit@) == audit_views(self.audit@).take(i as int),
        {
            let d = self.audit[i].duplicate();
            let ghost before = audit@;
            audit.push(d);
            proof {
                assert(audit_views(audit@) =~= audit_views(before).push(d@));
                assert(audit_views(audit@) =~= audit_views(self.audit@).take(i + 1));
            }
        }
        proof {
            assert(audit_views(self.audit@).take(m as int) =~= audit_views(self.audit@));
        }
        KeyStoreSnapshot { keys, audit }
    }
}

impl Default for KeyStore {
    fn default() -> (s: Self)
        ensures
            s@.keys.len() == 0 && s@.audit.len() == 0,
    {
        KeyStore::new()
    }
}

/// In a sorted list, the position of a name is the only one holding it.
proof fn lemma_name_position_unique(s: Seq<KeyView>, i: int)
    requires
        sorted(s),
        0 <= i < s.len(),
    ensures
        forall|j: int| 0 <= j < s.len() && #[trigger] s[j].name == s[i].name ==> j == i,
{
    assert forall|j: int| 0 <= j < s.len() && #[trigger] s[j].name == s[i].name implies j == i by {
        if j < i {
            assert(seq_lt(s[j].name, s[i].name));
            lemma_lt_asymmetric(s[j].name, s[i].name);
        } else if j > i {
            assert(seq_lt(s[i].name, s[j].name));
            lemma_lt_asymmetric(s[i].name, s[j].name);
        }
    }
}

proof fn lemma_update_same_name_sorted(s: Seq<KeyView>, i: int, k: KeyView)
    requires
        sorted(s),
        0 <= i < s.len(),
        k.name == s[i].name,
    ensures
        sorted(s.update(i, k)),
{
    let u = s.update(i, k);
    assert forall|a: int, b: int| 0 <= a < b < u.len() implies seq_lt(#[trigger] u[a].name, #[trigger] u[b].name) by {
        assert(seq_lt(s[a].name, s[b].name));
    }
}

proof fn lemma_consistent_after_update(before: StoreView, after: StoreView, i: int)
    requires
        0 <= i < before.keys.len(),
        after.keys.len() == before.keys.len(),
        after.keys[i].name == before.keys[i].name,
        forall|j: int| 0 <= j < before.keys.len() && j != i ==> after.keys[j] == before.keys[j],
        after.audit.len() == before.audit.len() + 1,
        forall|j: int| 0 <= j < before.audit.len() ==> after.audit[j] == before.audit[j],
        after.audit.last().key_name == before.keys[i].name,
    ensures
        audit_consistent(before) ==> audit_consistent(after),
{
    if audit_consistent(before) {
        assert forall|a: int| 0 <= a < after.audit.len() implies names_of(after.keys).contains(
            #[trigger] after.audit[a].key_name,
        ) by {
            let n = after.audit[a].key_name;
            if a < before.audit.len() {
                assert(before.audit[a] == after.audit[a]);
                assert(names_of(before.keys).contains(n));
                let q = choose|q: int| 0 <= q < names_of(before.keys).len() && names_of(before.keys)[q] == n;
                if q == i {
                    assert(names_of(after.keys)[i] == n);
                } else {
                    assert(names_of(after.keys)[q] == n);
                }
            } else {
                assert(names_of(after.keys)[i] == n);
            }
        }
    }
}

proof fn lemma_consistent_after_store(before: StoreView, after: StoreView, name: Seq<char>)
    requires
        forall|n: Seq<char>| n != name ==> (names_of(after.keys).contains(n) <==> names_of(before.keys).contains(n)),
        names_of(after.keys).contains(name),
        after.audit.len() == before.audit.len() + 1,
        forall|j: int| 0 <= j < before.audit.len() ==> after.audit[j] == before.audit[j],
        after.audit.last().key_name == name,
    ensures
        audit_consistent(before) ==> audit_consistent(after),
{
    if audit_consistent(before) {
        assert forall|a: int| 0 <= a < after.audit.len() implies names_of(after.keys).contains(
            #[trigger] after.audit[a].key_name,
        ) by {
            if a < before.audit.len() {
                assert(before.audit[a] == after.audit[a]);
            }
        }
    }
}

/// The health check of a store reports nothing exactly when every audit
/// entry refers to a key of the store.
pub proof fn lemma_health_check_empty_iff_consistent(v: StoreView)
    ensures
        health_issues(v.keys, v.audit).len() == 0 <==> audit_consistent(v),
    decreases v.audit.len(),
{
    if v.audit.len() > 0 {
        let w = StoreView { keys: v.keys, archived: v.archived, audit: v.audit.drop_last() };
        lemma_health_check_empty_iff_consistent(w);
        if audit_consistent(v) {
            assert(audit_consistent(w)) by {
                assert forall|i: int| 0 <= i < w.audit.len() implies names_of(w.keys).contains(
                    #[trigger] w.audit[i].key_name,
                ) by {
                    assert(w.audit[i] == v.audit[i]);
                }
            }
            assert(names_of(v.keys).contains(v.audit[v.audit.len() - 1].key_name));
        } else {
            let i = choose|i: int| 0 <= i < v.audit.len() && !names_of(v.keys).contains(#[trigger] v.audit[i].key_name);
            if i < v.audit.len() - 1 {
                assert(w.audit[i] == v.audit[i]);
                assert(!audit_consistent(w));
            }
        }
    }
}

// ── Snapshots ────────────────────────────────────────────────────────────────

/// A plain copy of a store's contents, used for persistence.
#[derive(Debug, Clone, PartialEq, Eq, Default)]
pub struct KeyStoreSnapshot {
    pub keys: Vec<ManagedKey>,
    pub audit: Vec<AuditEntry>,
}

impl KeyStoreSnapshot {
    /// Rebuilds a store: each record that is not `Rotated` is stored in turn
    /// under its name (a later record replaces an earlier one of the same
    /// name), the `Rotated` records are archived in order, and the audit log
    /// is taken as it is.
    pub fn into_store(self) -> (s: KeyStore)
        ensures
            s@.keys == upsert_all(Seq::empty(), current_records(key_views(self.keys@))),
            s@.archived == rotated_records(key_views(self.keys@)),
            s@.audit == audit_views(self.audit@),
    {
        let mut store = KeyStore::new();
        let ghost ks = key_views(self.keys@);
        let n: usize = self.keys.len();
        for i in 0..n
            invariant
                n == self.keys@.len(),
                ks == key_views(self.keys@),
                store@.keys == upsert_all(Seq::empty(), current_records(ks.take(i as int))),
                store@.archived == rotated_records(ks.take(i as int)),
                store@.audit.len() == 0,
        {
            proof {
                assert(ks.take(i + 1).drop_last() =~= ks.take(i as int));
                assert(ks.take(i + 1).last() == self.keys@[i as int]@);
                lemma_upsert_all_push(Seq::empty(), current_records(ks.take(i as int)), ks[i as int]);
            }
            if self.keys[i].status == KeyStatus::Rotated {
                store.archive(self.keys[i].duplicate());
            } else {
                store.store(self.keys[i].duplicate());
            }
        }
        proof {
            assert(ks.take(n as int) =~= ks);
        }
        proof {
            use_type_invariant(&store);
        }
        store.audit = self.audit;
        store
    }
}

impl KeyStoreSnapshot {
    /// A snapshot of the store's contents (`KeyStore::snapshot`).
    pub fn from(store: &KeyStore) -> (s: KeyStoreSnapshot)
        ensures
            key_views(s.keys@) == store@.keys + store@.archived,
            audit_views(s.audit@) == store@.audit,
            sorted(store@.keys),
            none_rotated(store@.keys),
            all_rotated(store@.archived),
    {
        store.snapshot()
    }
}

/// Storing a record whose name sorts after every held name appends it.
proof fn lemma_upsert_after_all(t: Seq<KeyView>, k: KeyView)
    requires
        forall|i: int| 0 <= i < t.len() ==> seq_lt(#[trigger] t[i].name, k.name),
    ensures
        upsert(t, k) == t.push(k),
    decreases t.len(),
{
    if t.len() == 0 {
        assert(seq![k] =~= t.push(k));
    } else {
        lemma_lt_asymmetric(t[0].name, k.name);
        let d = t.drop_first();
        assert forall|i: int| 0 <= i < d.len() implies seq_lt(#[trigger] d[i].name, k.name) by {
            assert(d[i] == t[i + 1]);
        }
        lemma_upsert_after_all(d, k);
        assert(seq![t[0]] + d.push(k) =~= t.push(k));
    }
}

/// Storing a name-sorted list record by record into an empty list
/// reproduces it.
proof fn lemma_upsert_all_sorted(s: Seq<KeyView>)
    requires
        sorted(s),
    ensures
        upsert_all(Seq::empty(), s) == s,
    decreases s.len(),
{
    if s.len() > 0 {
        let t = s.drop_last();
        assert(sorted(t)) by {
            assert forall|i: int, j: int| 0 <= i < j < t.len() implies seq_lt(#[trigger] t[i].name, #[trigger] t[j].name) by {
                assert(seq_lt(s[i].name, s[j].name));
            }
        }
        lemma_upsert_all_sorted(t);
        assert forall|i: int| 0 <= i < t.len() implies seq_lt(#[trigger] t[i].name, s.last().name) by {
            assert(seq_lt(s[i].name, s[s.len() - 1].name));
        }
        lemma_upsert_after_all(t, s.last());
        assert(t.push(s.last()) =~= s);
    }
}


/// Rebuilding a store from a snapshot of a store gives back the same current
/// records in the same order and the same archived records: the snapshot
/// lists the current records (sorted, none `Rotated`) and then the archived
/// ones (all `Rotated`).
pub proof fn lemma_snapshot_round_trip(v: StoreView)
    requires
        sorted(v.keys),
        none_rotated(v.keys),
        all_rotated(v.archived),
    ensures
        upsert_all(Seq::empty(), current_records(v.keys + v.archived)) == v.keys,
        rotated_records(v.keys + v.archived) == v.archived,
{
    lemma_records_concat(v.keys, v.archived);
    lemma_records_none_rotated(v.keys);
    lemma_records_all_rotated(v.archived);
    assert(v.keys + Seq::<KeyView>::empty() =~= v.keys);
    assert(Seq::<KeyView>::empty() + v.archived =~= v.archived);
    lemma_upsert_all_sorted(v.keys);
}

proof fn lemma_records_concat(a: Seq<KeyView>, b: Seq<KeyView>)
    ensures
        current_records(a + b) == current_records(a) + current_records(b),
        rotated_records(a + b) == rotated_records(a) + rotated_records(b),
    decreases b.len(),
{
    if b.len() == 0 {
        assert(a + b =~= a);
        assert(current_records(a) + Seq::<KeyView>::empty() =~= current_records(a));
        assert(rotated_records(a) + Seq::<KeyView>::empty() =~= rotated_records(a));
    } else {
        lemma_records_concat(a, b.drop_last());
        assert((a + b).drop_last() =~= a + b.drop_last());
        assert((a + b).last() == b.last());
        assert((current_records(a) + current_records(b.drop_last())).push(b.last()) =~= current_records(a) + current_records(
            b.drop_last(),
        ).push(b.last()));
        assert((rotated_records(a) + rotated_records(b.drop_last())).push(b.last()) =~= rotated_records(a) + rotated_records(
            b.drop_last(),
        ).push(b.last()));
    }
}

proof fn lemma_records_none_rotated(s: Seq<KeyView>)
    requires
        none_rotated(s),
    ensures
        current_records(s) == s,
        rotated_records(s) == Seq::<KeyView>::empty(),
    decreases s.len(),
{
    if s.len() > 0 {
        assert(s.last() == s[s.len() - 1]);
        assert(none_rotated(s.drop_last())) by {
            assert forall|i: int| 0 <= i < s.drop_last().len() implies (#[trigger] s.drop_last()[i]).status
                != KeyStatus::Rotated by {
                assert(s.drop_last()[i] == s[i]);
            }
        }
        lemma_records_none_rotated(s.drop_last());
        assert(s.drop_last().push(s.last()) =~= s);
    }
}

proof fn lemma_records_all_rotated(s: Seq<KeyView>)
    requires
        all_rotated(s),
    ensures
        rotated_records(s) == s,
        current_records(s) == Seq::<KeyView>::empty(),
    decreases s.len(),
{
    if s.len() > 0 {
        assert(s.last() == s[s.len() - 1]);
        assert(all_rotated(s.drop_last())) by {
            assert forall|i: int| 0 <= i < s.drop_last().len() implies (#[trigger] s.drop_last()[i]).status
                == KeyStatus::Rotated by {
                assert(s.drop_last()[i] == s[i]);
            }
        }
        lemma_records_all_rotated(s.drop_last());
        assert(s.drop_last().push(s.last()) =~= s);
    }
}

/// The active records of a list followed by `Rotated` ones are those of the
/// list.
proof fn lemma_active_keys_skip_rotated(a: Seq<KeyView>, b: Seq<KeyView>)
    requires
        all_rotated(b),
    ensures
        active_keys(a + b) == active_keys(a),
    decreases b.len(),
{
    if b.len() == 0 {
        assert(a + b =~= a);
    } else {
        let b1 = b.drop_last();
        assert(all_rotated(b1)) by {
            assert forall|i: int| 0 <= i < b1.len() implies (#[trigger] b1[i]).status == KeyStatus::Rotated by {
                assert(b1[i] == b[i]);
            }
        }
        lemma_active_keys_skip_rotated(a, b1);
        assert((a + b).drop_last() =~= a + b1);
        assert((a + b).last() == b[b.len() - 1]);
    }
}

/// Storing a record that is not `Rotated` into a list without `Rotated`
/// records keeps it so.
proof fn lemma_upsert_none_rotated(s: Seq<KeyView>, k: KeyView)
    requires
        none_rotated(s),
        k.status != KeyStatus::Rotated,
    ensures
        none_rotated(upsert(s, k)),
    decreases s.len(),
{
    let u = upsert(s, k);
    if s.len() == 0 {
        assert(u[0] == k);
    } else if s[0].name == k.name {
        assert forall|i: int| 0 <= i < u.len() implies (#[trigger] u[i]).status != KeyStatus::Rotated by {
            if i != 0 {
                assert(u[i] == s[i]);
            }
        }
    } else if seq_lt(k.name, s[0].name) {
        assert forall|i: int| 0 <= i < u.len() implies (#[trigger] u[i]).status != KeyStatus::Rotated by {
            if i > 0 {
                assert(u[i] == s[i - 1]);
            }
        }
    } else {
        let d = s.drop_first();
        assert(none_rotated(d)) by {
            assert forall|i: int| 0 <= i < d.len() implies (#[trigger] d[i]).status != KeyStatus::Rotated by {
                assert(d[i] == s[i + 1]);
            }
        }
        lemma_upsert_none_rotated(d, k);
        let w = upsert(d, k);
        assert forall|i: int| 0 <= i < u.len() implies (#[trigger] u[i]).status != KeyStatus::Rotated by {
            if i > 0 {
                assert(u[i] == w[i - 1]);
            }
        }
    }
}

/// Storing one more record: what storing the list gives, then that record.
proof fn lemma_upsert_all_push(s: Seq<KeyView>, ks: Seq<KeyView>, k: KeyView)
    ensures
        upsert_all(s, ks.push(k)) == upsert(upsert_all(s, ks), k),
{
    assert(ks.push(k).drop_last() =~= ks);
}

/// The audit log is append-only and records exactly the successful requests:
/// after any run of `create`, `rotate` and `revoke` requests, request `i`
/// made on the store in state `vs[i]` and leaving it in state `vs[i + 1]`,
/// the final log is the first log followed by one entry per successful
/// request, in request order, with that request's name, time and event;
/// failed requests add nothing and no entry is removed or altered.
pub proof fn lemma_audit_log_over_calls(vs: Seq<StoreView>, cs: Seq<KeyCall>)
    requires
        vs.len() == cs.len() + 1,
        forall|i: int| 0 <= i < cs.len() ==> vs[i + 1].audit == audit_after(vs[i], #[trigger] cs[i]),
    ensures
        vs.last().audit == vs[0].audit + logged_events(vs, cs),
    decreases cs.len(),
{
    if cs.len() == 0 {
        assert(vs[0].audit + logged_events(vs, cs) =~= vs[0].audit);
    } else {
        let n = cs.len() - 1;
        let vs1 = vs.drop_last();
        let cs1 = cs.drop_last();
        assert forall|i: int| 0 <= i < cs1.len() implies vs1[i + 1].audit == audit_after(vs1[i], #[trigger] cs1[i]) by {
            assert(cs1[i] == cs[i]);
            assert(vs[i + 1].audit == audit_after(vs[i], cs[i]));
        }
        lemma_audit_log_over_calls(vs1, cs1);
        lemma_logged_events_prefix(vs, cs1, vs1);
        assert(vs[n + 1].audit == audit_after(vs[n], cs[n]));
        assert(cs.drop_last() == cs1);
        if call_succeeds(vs[n], cs[n]) {
            assert((vs[0].audit + logged_events(vs, cs1)).push(call_event(cs[n])) =~= vs[0].audit + logged_events(vs, cs));
        }
    }
}

/// The entries of a run of requests depend only on the states the requests
/// were made on.
proof fn lemma_logged_events_prefix(vs: Seq<StoreView>, cs: Seq<KeyCall>, ws: Seq<StoreView>)
    requires
        cs.len() <= ws.len(),
        cs.len() <= vs.len(),
        forall|i: int| 0 <= i < cs.len() ==> vs[i] == ws[i],
    ensures
        logged_events(vs, cs) == logged_events(ws, cs),
    decreases cs.len(),
{
    if cs.len() > 0 {
        lemma_logged_events_prefix(vs, cs.drop_last(), ws);
        assert(vs[cs.len() - 1] == ws[cs.len() - 1]);
    }
}

// ── Config references ───────────────────────────────────────────────────────

/// A reference to a managed key embedded in provider/deployment config.
/// Holds only the identifier — never key material.
#[derive(Debug, Clone, PartialEq, Eq)]
pub struct SecureKeyRef {
    /// The name used to look up the key in the key store.
    pub name: String,
    /// Human-readable description of what this reference is for.
    pub purpose: String,
}

// ── Rendering ────────────────────────────────────────────────────────────────

/// `s` padded with spaces on the right to at least `width` characters.
pub open spec fn pad_right(s: Seq<char>, width: nat) -> Seq<char> {
    if s.len() >= width {
        s
    } else {
        s + crate::text::seq_repeat(' ', (width - s.len()) as nat)
    }
}

fn push_padded(out: &mut String, s: &str, width: usize)
    ensures
        final(out)@ == old(out)@ + pad_right(s@, width as nat),
{
    out.append(s);
    let n: usize = s.unicode_len();
    if n < width {
        let pad = crate::text::repeat_char(' ', width - n);
        out.append(pad.as_str());
    }
}

/// The header line of the key table.
pub open spec fn keys_header() -> Seq<char> {
    "NAME                 PURPOSE                  STATUS    CREATED"@
}

/// One row of the key table.
pub open spec fn key_row(k: KeyView) -> Seq<char> {
    pad_right(k.name, 20) + " "@ + pad_right(purpose_label(k.purpose), 24) + " "@ + pad_right(
        status_label(k.status),
        9,
    ) + " "@ + k.created_at
}

/// The table rendering of a key list.
pub open spec fn keys_table(keys: Seq<KeyView>) -> Seq<char> {
    if keys.len() == 0 {
        "No managed keys found."@
    } else {
        crate::text::seq_join(seq![keys_header()] + keys.map_values(|k: KeyView| key_row(k)), "\n"@)
    }
}

/// Renders the key list as a human-readable table.
pub fn render_keys_list(keys: &[&ManagedKey]) -> (r: String)
    ensures
        r@ == keys_table(keys@.map_values(|k: &ManagedKey| k@)),
{
    let n: usize = keys.len();
    if n == 0 {
        return String::from_str("No managed keys found.");
    }
    let mut lines: Vec<String> = Vec::new();
    lines.push(String::from_str("NAME                 PURPOSE                  STATUS    CREATED"));
    let ghost kv = keys@.map_values(|k: &ManagedKey| k@);
    for i in 0..n
        invariant
            n == keys@.len(),
            kv == keys@.map_values(|k: &ManagedKey| k@),
            crate::text::views(lines@) == seq![keys_header()] + kv.take(i as int).map_values(|k: KeyView| key_row(k)),
    {
        let k = keys[i];
        let mut row = String::new();
        push_padded(&mut row, k.name.0.as_str(), 20);
        row.append(" ");
        push_padded(&mut row, k.purpose.as_str(), 24);
        row.append(" ");
        push_padded(&mut row, k.status.as_str(), 9);
        row.append(" ");
        row.append(k.created_at.as_str());
        let ghost before = lines@;
        lines.push(row);
        proof {
            assert(kv[i as int] == k@);
            assert(crate::text::views(lines@) =~= crate::text::views(before).push(key_row(kv[i as int])));
            assert(kv.take(i + 1).map_values(|k: KeyView| key_row(k)) =~= kv.take(i as int).map_values(
                |k: KeyView| key_row(k),
            ).push(key_row(kv[i as int])));
        }
    }
    proof {
        assert(kv.take(n as int) =~= kv);
    }
    crate::text::join(&lines, "\n")
}

} // verus!
