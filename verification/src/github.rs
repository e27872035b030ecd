//! GitHub pull-request checks: owner/repo resolution from URLs, the snapshot
//! of a pull request built from REST (or legacy GraphQL) data, and the
//! builtin evidence derived from it.
use crate::sm_audit::trim_suffix;
use crate::state::{
    BuiltinEvidence, EvidenceStatus, GithubMergeability, GithubPullRequestSnapshot, GithubReviewStatus,
    PullRequestRef,
};
use crate::text::{chars_of, owned, str_eq, string_of};
use vstd::prelude::*;

verus! {

#[verifier::external_type_specification]
#[verifier::external_body]
pub struct ExJsonError(serde_json::Error);

/// Why a pull-request snapshot could not be produced.
#[derive(Debug)]
pub enum GithubSnapshotError {
    /// The JSON could not be decoded.
    Json(serde_json::Error),
    /// A required piece of data is missing (the text says which).
    MissingField(&'static str),
    /// A field holds a value this code does not know.
    UnsupportedValue { field: &'static str, value: String },
}

/// The display text of a JSON decoding error (`serde_json::Error`'s
/// `Display`).
///
/// Trusted: it only formats the error; nothing is stated of the text.
#[verifier::external_body]
fn json_error_text(e: &serde_json::Error) -> String {
    e.to_string()
}

/// Whether `t` is the description of `e`: the message of a missing field,
/// `unsupported GitHub value for <field>: <value>`, or, for a JSON error,
/// `invalid GitHub JSON: ` followed by the decoder's own text.
pub open spec fn describes(e: GithubSnapshotError, t: Seq<char>) -> bool {
    match e {
        GithubSnapshotError::MissingField(m) => t == m@,
        GithubSnapshotError::UnsupportedValue { field, value } => t == "unsupported GitHub value for "@ + field@ + ": "@ + value@,
        GithubSnapshotError::Json(_) => t.len() >= 21 && t.take(21) == "invalid GitHub JSON: "@,
    }
}

impl GithubSnapshotError {
    /// The human-readable description.
    pub fn to_string(&self) -> (r: String)
        ensures
            describes(*self, r@),
    {
        match self {
            GithubSnapshotError::Json(e) => {
                let mut s = String::from_str("invalid GitHub JSON: ");
                let t = json_error_text(e);
                s.append(t.as_str());
                proof {
                    reveal_strlit("invalid GitHub JSON: ");
                    assert(s@.take(21) =~= "invalid GitHub JSON: "@);
                }
                s
            },
            GithubSnapshotError::MissingField(m) => owned(m),
            GithubSnapshotError::UnsupportedValue { field, value } => {
                let mut s = String::from_str("unsupported GitHub value for ");
                s.append(field);
                s.append(": ");
                s.append(value.as_str());
                s
            },
        }
    }
}

// ── Owner and repository from URLs ───────────────────────────────────────────

/// The index of the first `/` (the length when there is none).
pub open spec fn slash_index(s: Seq<char>) -> nat
    decreases s.len(),
{
    if s.len() == 0 {
        0
    } else if s[0] == '/' {
        0
    } else {
        1 + slash_index(s.drop_first())
    }
}

proof fn lemma_slash_index(s: Seq<char>)
    ensures
        slash_index(s) <= s.len(),
        slash_index(s) < s.len() ==> s[slash_index(s) as int] == '/',
        forall|k: int| 0 <= k < slash_index(s) ==> s[k] != '/',
    decreases s.len(),
{
    if s.len() > 0 && s[0] != '/' {
        lemma_slash_index(s.drop_first());
        assert forall|k: int| 0 <= k < slash_index(s) implies s[k] != '/' by {
            if k > 0 {
                assert(s[k] == s.drop_first()[k - 1]);
            }
        }
    }
}

/// `(owner, repo)` from `owner/repo[/...]`: the first two `/`-separated
/// parts, both non-empty.
pub open spec fn split_owner_repo(rest: Seq<char>) -> Option<(Seq<char>, Seq<char>)> {
    let i = slash_index(rest);
    if i >= rest.len() {
        None
    } else {
        let owner = rest.take(i as int);
        let tail = rest.skip(i as int + 1);
        let repo = tail.take(slash_index(tail) as int);
        if owner.len() > 0 && repo.len() > 0 {
            Some((owner, repo))
        } else {
            None
        }
    }
}

/// `s` without the prefix `p`, when it has it.
pub open spec fn strip_prefix(s: Seq<char>, p: Seq<char>) -> Option<Seq<char>> {
    if p.len() <= s.len() && s.take(p.len() as int) == p {
        Some(s.skip(p.len() as int))
    } else {
        None
    }
}

/// `(owner, repo)` from a remote URL (`https://github.com/o/r(.git)`,
/// `http://...`, or `git@github.com:o/r(.git)`).
pub open spec fn owner_repo_of_url(url: Seq<char>) -> Option<(Seq<char>, Seq<char>)> {
    let t = trim_suffix(url, ".git"@);
    let web = match strip_prefix(t, "https://github.com/"@) {
        Some(r) => Some(r),
        None => strip_prefix(t, "http://github.com/"@),
    };
    let via_web = match web {
        Some(r) => split_owner_repo(r),
        None => None,
    };
    if via_web is Some {
        via_web
    } else {
        match strip_prefix(t, "git@github.com:"@) {
            Some(r) => split_owner_repo(r),
            None => None,
        }
    }
}

/// `(owner, repo)` from a pull-request URL (`https://github.com/o/r/pull/n`).
pub open spec fn owner_repo_of_pr_url(url: Seq<char>) -> Option<(Seq<char>, Seq<char>)> {
    match strip_prefix(url, "https://github.com/"@) {
        Some(r) => split_owner_repo(r),
        None => match strip_prefix(url, "http://github.com/"@) {
            Some(r) => split_owner_repo(r),
            None => None,
        },
    }
}

fn prefix_end(v: &Vec<char>, from: usize, p: &str) -> (r: Option<usize>)
    requires
        from <= v@.len(),
    ensures
        match strip_prefix(v@.subrange(from as int, v@.len() as int), p@) {
            Some(rest) => r matches Some(e) && from <= e <= v@.len() && v@.subrange(e as int, v@.len() as int) == rest,
            None => r is None,
        },
{
    let pv = chars_of(p);
    let ghost s = v@.subrange(from as int, v@.len() as int);
    if pv.len() > v.len() - from {
        return None;
    }
    if crate::text::has_at(v, from, &pv) {
        proof {
            assert(s.take(pv@.len() as int) =~= v@.subrange(from as int, from + pv@.len()));
            assert(s.skip(pv@.len() as int) =~= v@.subrange(from + pv@.len(), v@.len() as int));
        }
        Some(from + pv.len())
    } else {
        proof {
            assert(s.take(pv@.len() as int) =~= v@.subrange(from as int, from + pv@.len()));
        }
        None
    }
}

fn slash_at_or_end(v: &Vec<char>, from: usize, to: usize) -> (r: usize)
    requires
        from <= to <= v@.len(),
    ensures
        from <= r <= to,
        r - from == slash_index(v@.subrange(from as int, to as int)),
{
    proof {
        lemma_slash_index(v@.subrange(from as int, to as int));
    }
    let mut i: usize = from;
    while i < to && v[i] != '/'
        invariant
            from <= i <= to <= v@.len(),
            forall|k: int| from <= k < i ==> v@[k] != '/',
        decreases to - i,
    {
        i = i + 1;
    }
    proof {
        let s = v@.subrange(from as int, to as int);
        let j = slash_index(s);
        if j < i - from {
            assert(s[j as int] == v@[from + j]);
        }
        if i < to {
            assert(s[i - from] == '/');
        }
    }
    i
}

/// `(owner, repo)` from `v[from..to]`.
fn split_at(v: &Vec<char>, from: usize, to: usize) -> (r: Option<(String, String)>)
    requires
        from <= to <= v@.len(),
    ensures
        match split_owner_repo(v@.subrange(from as int, to as int)) {
            Some(p) => r matches Some(x) && x.0@ == p.0 && x.1@ == p.1,
            None => r is None,
        },
{
    let ghost rest = v@.subrange(from as int, to as int);
    let i = slash_at_or_end(v, from, to);
    if i >= to {
        return None;
    }
    let j = slash_at_or_end(v, i + 1, to);
    proof {
        assert(rest.take((i - from) as int) =~= v@.subrange(from as int, i as int));
        assert(rest.skip(i - from + 1) =~= v@.subrange(i + 1, to as int));
        let tail = rest.skip(i - from + 1);
        assert(tail.take(slash_index(tail) as int) =~= v@.subrange(i + 1, j as int));
    }
    if i > from && j > i + 1 {
        Some((string_of(v, from, i), string_of(v, i + 1, j)))
    } else {
        None
    }
}

/// Extracts `(owner, repo)` from a GitHub remote URL: `https://` or
/// `http://github.com/owner/repo`, or `git@github.com:owner/repo`, with or
/// without `.git`.
pub fn parse_owner_repo_from_url(url: &str) -> (r: Result<(String, String), GithubSnapshotError>)
    ensures
        match owner_repo_of_url(url@) {
            Some(p) => r matches Ok(x) && x.0@ == p.0 && x.1@ == p.1,
            None => r matches Err(GithubSnapshotError::MissingField(m)) && m@
                == "could not parse owner/repo from remote URL"@,
        },
{
    let v = chars_of(url);
    let t = crate::sm_audit::trim_end(&v, ".git");
    let mut w: Vec<char> = Vec::new();
    for k in 0..t
        invariant
            t <= v@.len(),
            w@ == v@.subrange(0, k as int),
    {
        w.push(v[k]);
        proof {
            assert(v@.subrange(0, k + 1) =~= v@.subrange(0, k as int).push(v@[k as int]));
        }
    }
    let n: usize = w.len();
    proof {
        assert(w@.subrange(0, n as int) =~= w@);
    }
    let web = match prefix_end(&w, 0, "https://github.com/") {
        Some(e) => Some(e),
        None => prefix_end(&w, 0, "http://github.com/"),
    };
    match web {
        Some(e) => match split_at(&w, e, n) {
            Some(p) => {
                return Ok(p);
            },
            None => {},
        },
        None => {},
    }
    match prefix_end(&w, 0, "git@github.com:") {
        Some(e) => match split_at(&w, e, n) {
            Some(p) => {
                return Ok(p);
            },
            None => {},
        },
        None => {},
    }
    Err(GithubSnapshotError::MissingField("could not parse owner/repo from remote URL"))
}

/// Extracts `(owner, repo)` from a pull-request URL like
/// `https://github.com/owner/repo/pull/123`.
pub fn parse_owner_repo_from_pr_url(url: &str) -> (r: Result<(String, String), GithubSnapshotError>)
    ensures
        strip_prefix(url@, "https://github.com/"@) is None && strip_prefix(url@, "http://github.com/"@) is None
            ==> (r matches Err(GithubSnapshotError::MissingField(m)) && m@ == "pull request URL is not a GitHub URL"@),
        !(strip_prefix(url@, "https://github.com/"@) is None && strip_prefix(url@, "http://github.com/"@) is None)
            ==> (match owner_repo_of_pr_url(url@) {
            Some(p) => r matches Ok(x) && x.0@ == p.0 && x.1@ == p.1,
            None => r matches Err(GithubSnapshotError::MissingField(m)) && m@
                == "could not parse owner/repo from pull request URL"@,
        }),
{
    let v = chars_of(url);
    let n: usize = v.len();
    proof {
        assert(v@.subrange(0, n as int) =~= v@);
    }
    let e = match prefix_end(&v, 0, "https://github.com/") {
        Some(e) => e,
        None => match prefix_end(&v, 0, "http://github.com/") {
            Some(e) => e,
            None => {
                return Err(GithubSnapshotError::MissingField("pull request URL is not a GitHub URL"));
            },
        },
    };
    match split_at(&v, e, n) {
        Some(p) => Ok(p),
        None => Err(GithubSnapshotError::MissingField("could not parse owner/repo from pull request URL")),
    }
}

// ── Checks and evidence ──────────────────────────────────────────────────────

/// The builtin GitHub checks on a pull request.
#[derive(Debug, Clone, Copy, PartialEq, Eq, PartialOrd, Ord, Structural)]
pub enum GithubCheckId {
    PullRequestExists,
    PullRequestReadyForReview,
    PullRequestChecksGreen,
    PullRequestReviewApproved,
    PullRequestMergeable,
}

pub open spec fn check_key(id: GithubCheckId) -> Seq<char> {
    match id {
        GithubCheckId::PullRequestExists => "builtin.github.pr_exists"@,
        GithubCheckId::PullRequestReadyForReview => "builtin.github.pr_ready_for_review"@,
        GithubCheckId::PullRequestChecksGreen => "builtin.github.pr_checks_green"@,
        GithubCheckId::PullRequestReviewApproved => "builtin.github.pr_review_approved"@,
        GithubCheckId::PullRequestMergeable => "builtin.github.pr_mergeable"@,
    }
}

impl GithubCheckId {
    /// The evidence key of the check.
    pub fn builtin_key(self) -> (r: &'static str)
        ensures
            r@ == check_key(self),
    {
        match self {
            GithubCheckId::PullRequestExists => "builtin.github.pr_exists",
            GithubCheckId::PullRequestReadyForReview => "builtin.github.pr_ready_for_review",
            GithubCheckId::PullRequestChecksGreen => "builtin.github.pr_checks_green",
            GithubCheckId::PullRequestReviewApproved => "builtin.github.pr_review_approved",
            GithubCheckId::PullRequestMergeable => "builtin.github.pr_mergeable",
        }
    }
}

/// One check and its status.
#[derive(Debug, Clone, Copy, PartialEq, Eq, Structural)]
pub struct GithubCheck {
    pub id: GithubCheckId,
    pub status: EvidenceStatus,
}

/// The GitHub report on a pull request: the snapshot (or the error that
/// prevented it) and the checks derived from it.
#[derive(Debug, Clone, PartialEq, Eq)]
pub struct GithubReport {
    pub snapshot: Option<GithubPullRequestSnapshot>,
    pub error: Option<String>,
    pub checks: Vec<GithubCheck>,
}

/// The status recorded last for the key of check `key`, among `cs`.
pub open spec fn last_status(cs: Seq<GithubCheck>, key: Seq<char>) -> Option<EvidenceStatus>
    decreases cs.len(),
{
    if cs.len() == 0 {
        None
    } else if check_key(cs.last().id) == key {
        Some(cs.last().status)
    } else {
        last_status(cs.drop_last(), key)
    }
}

impl GithubReport {
    /// The checks as builtin evidence: each check's status under its key.
    pub fn to_builtin_evidence(&self) -> (e: BuiltinEvidence)
        ensures
            forall|k: Seq<char>| #[trigger] e.status_of(k) == last_status(self.checks@, k),
    {
        let mut ev = BuiltinEvidence::new();
        let n: usize = self.checks.len();
        for i in 0..n
            invariant
                n == self.checks@.len(),
                forall|k: Seq<char>| #[trigger] ev.status_of(k) == last_status(self.checks@.take(i as int), k),
        {
            proof {
                assert(self.checks@.take(i + 1).drop_last() =~= self.checks@.take(i as int));
                assert(self.checks@.take(i + 1).last() == self.checks@[i as int]);
            }
            let c = self.checks[i];
            ev = ev.with_status(c.id.builtin_key(), c.status);
        }
        proof {
            assert(self.checks@.take(n as int) =~= self.checks@);
        }
        ev
    }
}

pub open spec fn review_evidence(r: GithubReviewStatus) -> EvidenceStatus {
    match r {
        GithubReviewStatus::Approved => EvidenceStatus::Passing,
        GithubReviewStatus::ReviewRequired => EvidenceStatus::Manual,
        GithubReviewStatus::ChangesRequested => EvidenceStatus::Failing,
    }
}

pub open spec fn mergeability_evidence(m: GithubMergeability) -> EvidenceStatus {
    match m {
        GithubMergeability::Mergeable => EvidenceStatus::Passing,
        GithubMergeability::Conflicting => EvidenceStatus::Failing,
        GithubMergeability::Blocked => EvidenceStatus::Failing,
        GithubMergeability::Unknown => EvidenceStatus::Pending,
    }
}

/// The review decision as evidence.
pub fn review_status_to_evidence(review_status: GithubReviewStatus) -> (r: EvidenceStatus)
    ensures
        r == review_evidence(review_status),
{
    match review_status {
        GithubReviewStatus::Approved => EvidenceStatus::Passing,
        GithubReviewStatus::ReviewRequired => EvidenceStatus::Manual,
        GithubReviewStatus::ChangesRequested => EvidenceStatus::Failing,
    }
}

/// The mergeability as evidence.
pub fn mergeability_to_evidence(mergeability: GithubMergeability) -> (r: EvidenceStatus)
    ensures
        r == mergeability_evidence(mergeability),
{
    match mergeability {
        GithubMergeability::Mergeable => EvidenceStatus::Passing,
        GithubMergeability::Conflicting => EvidenceStatus::Failing,
        GithubMergeability::Blocked => EvidenceStatus::Failing,
        GithubMergeability::Unknown => EvidenceStatus::Pending,
    }
}

/// The checks of a snapshot: the pull request exists; and, when it does,
/// it is ready for review, its checks are green, its review is approved and
/// it is mergeable.
pub open spec fn snapshot_checks(s: Option<GithubPullRequestSnapshot>) -> Seq<GithubCheck> {
    match s {
        None => seq![GithubCheck { id: GithubCheckId::PullRequestExists, status: EvidenceStatus::Failing }],
        Some(p) => seq![
            GithubCheck { id: GithubCheckId::PullRequestExists, status: EvidenceStatus::Passing },
            GithubCheck {
                id: GithubCheckId::PullRequestReadyForReview,
                status: if p.is_draft { EvidenceStatus::Failing } else { EvidenceStatus::Passing },
            },
            GithubCheck { id: GithubCheckId::PullRequestChecksGreen, status: p.checks },
            GithubCheck { id: GithubCheckId::PullRequestReviewApproved, status: review_evidence(p.review_status) },
            GithubCheck { id: GithubCheckId::PullRequestMergeable, status: mergeability_evidence(p.mergeability) },
        ],
    }
}

/// The checks derived from a snapshot (or from its absence).
pub fn checks_from_snapshot(snapshot: Option<&GithubPullRequestSnapshot>) -> (r: Vec<GithubCheck>)
    ensures
        r@ == snapshot_checks(
            match snapshot {
                Some(s) => Some(*s),
                None => None,
            },
        ),
{
    let mut checks: Vec<GithubCheck> = Vec::new();
    match snapshot {
        None => {
            checks.push(GithubCheck { id: GithubCheckId::PullRequestExists, status: EvidenceStatus::Failing });
        },
        Some(s) => {
            checks.push(GithubCheck { id: GithubCheckId::PullRequestExists, status: EvidenceStatus::Passing });
            checks.push(
                GithubCheck {
                    id: GithubCheckId::PullRequestReadyForReview,
                    status: if s.is_draft { EvidenceStatus::Failing } else { EvidenceStatus::Passing },
                },
            );
            checks.push(GithubCheck { id: GithubCheckId::PullRequestChecksGreen, status: s.checks });
            checks.push(
                GithubCheck {
                    id: GithubCheckId::PullRequestReviewApproved,
                    status: review_status_to_evidence(s.review_status),
                },
            );
            checks.push(
                GithubCheck {
                    id: GithubCheckId::PullRequestMergeable,
                    status: mergeability_to_evidence(s.mergeability),
                },
            );
        },
    }
    proof {
        assert(checks@ =~= snapshot_checks(
            match snapshot {
                Some(s) => Some(*s),
                None => None,
            },
        ));
    }
    checks
}

/// The source of pull-request snapshots (the `gh` CLI on the host; test
/// doubles in tests).
pub trait GithubEnvironment {
    /// Whether `r` is an answer this environment gives for the pull request
    /// numbered `number` at `url` (any answer, unless it says otherwise).
    open spec fn snapshot_answer(
        &self,
        number: u64,
        url: Seq<char>,
        r: Result<GithubPullRequestSnapshot, GithubSnapshotError>,
    ) -> bool {
        true
    }

    fn pull_request_snapshot(&self, pull_request: &PullRequestRef) -> (r: Result<
        GithubPullRequestSnapshot,
        GithubSnapshotError,
    >)
        ensures
            self.snapshot_answer(pull_request.number, pull_request.url@, r),
    ;
}

/// The report for a snapshot result: the snapshot or the error's text, and
/// the checks derived from it.
pub fn report_from_result(result: Result<GithubPullRequestSnapshot, GithubSnapshotError>) -> (r: GithubReport)
    ensures
        match result {
            Ok(s) => r.snapshot == Some(s) && r.error is None,
            Err(e) => r.snapshot is None && (r.error matches Some(m) && describes(e, m@)),
        },
        r.checks@ == snapshot_checks(r.snapshot),
{
    match result {
        Ok(s) => {
            let checks = checks_from_snapshot(Some(&s));
            GithubReport { snapshot: Some(s), error: None, checks }
        },
        Err(e) => {
            let msg = e.to_string();
            let checks = checks_from_snapshot(None);
            GithubReport { snapshot: None, error: Some(msg), checks }
        },
    }
}

/// Asks the environment for the pull request's snapshot and derives the
/// checks from it; when the environment fails, the error's text is kept and
/// only the (failing) existence check is reported.
pub fn collect_github_report<E: GithubEnvironment>(environment: &E, pull_request: &PullRequestRef) -> (r: GithubReport)
    ensures
        r.checks@ == snapshot_checks(r.snapshot),
        r.snapshot is None <==> r.error is Some,
        exists|res: Result<GithubPullRequestSnapshot, GithubSnapshotError>|
            #[trigger] environment.snapshot_answer(pull_request.number, pull_request.url@, res) && match res {
                Ok(s) => r.snapshot == Some(s) && r.error is None,
                Err(e) => r.snapshot is None && (r.error matches Some(m) && describes(e, m@)),
            },
{
    let res = environment.pull_request_snapshot(pull_request);
    let ghost rv = res;
    let r = report_from_result(res);
    proof {
        assert(environment.snapshot_answer(pull_request.number, pull_request.url@, rv));
    }
    r
}

// ── REST and GraphQL data ────────────────────────────────────────────────────

/// A pull request as `GET /repos/{o}/{r}/pulls/{n}` returns it (the fields
/// used here).
#[derive(Debug, Clone)]
pub struct RestPullRequest {
    pub state: String,
    pub draft: Option<bool>,
    pub mergeable_state: Option<String>,
    pub head: RestPullRequestHead,
}

#[derive(Debug, Clone)]
pub struct RestPullRequestHead {
    pub sha: String,
}

/// A review from `GET /repos/{o}/{r}/pulls/{n}/reviews`.
#[derive(Debug, Clone)]
pub struct RestReview {
    pub user: RestUser,
    pub state: String,
}

#[derive(Debug, Clone)]
pub struct RestUser {
    pub login: String,
}

/// A check run from `GET /repos/{o}/{r}/commits/{sha}/check-runs`.
#[derive(Debug, Clone)]
pub struct RestCheckRun {
    pub status: String,
    pub conclusion: Option<String>,
}

/// A pull request as the legacy GraphQL view returns it.
#[derive(Debug, Clone)]
pub struct PrView {
    pub state: String,
    pub is_draft: bool,
    pub review_decision: Option<String>,
    pub merge_state_status: String,
    pub status_check_rollup: Vec<LegacyCheckRollup>,
}

/// An entry of the legacy status-check rollup.
#[derive(Debug, Clone)]
pub struct LegacyCheckRollup {
    pub status: Option<String>,
    pub conclusion: Option<String>,
}

// ── Reviews ──────────────────────────────────────────────────────────────────

/// A review state that counts towards the decision.
pub open spec fn actionable(state: Seq<char>) -> bool {
    state == "APPROVED"@ || state == "CHANGES_REQUESTED"@ || state == "DISMISSED"@
}

/// The state of the latest counting review by `user`.
pub open spec fn latest_review(rs: Seq<RestReview>, user: Seq<char>) -> Option<Seq<char>>
    decreases rs.len(),
{
    if rs.len() == 0 {
        None
    } else {
        let later = latest_review(rs.drop_first(), user);
        if later is Some {
            later
        } else if actionable(rs[0].state@) && rs[0].user.login@ == user {
            Some(rs[0].state@)
        } else {
            None
        }
    }
}

/// Some user's latest counting review has state `st`.
pub open spec fn some_latest(rs: Seq<RestReview>, st: Seq<char>) -> bool {
    exists|u: Seq<char>| #[trigger] latest_review(rs, u) == Some(st)
}

/// The review decision: changes requested when some user's latest review
/// requests changes; otherwise approved when some user's latest review
/// approves; otherwise review required.
pub open spec fn review_decision(rs: Seq<RestReview>) -> GithubReviewStatus {
    if some_latest(rs, "CHANGES_REQUESTED"@) {
        GithubReviewStatus::ChangesRequested
    } else if some_latest(rs, "APPROVED"@) {
        GithubReviewStatus::Approved
    } else {
        GithubReviewStatus::ReviewRequired
    }
}

proof fn lemma_latest_none(rs: Seq<RestReview>, u: Seq<char>)
    requires
        forall|k: int| 0 <= k < rs.len() ==> !(actionable(rs[k].state@) && #[trigger] rs[k].user.login@ == u),
    ensures
        latest_review(rs, u) is None,
    decreases rs.len(),
{
    if rs.len() > 0 {
        assert forall|k: int| 0 <= k < rs.drop_first().len() implies !(actionable(rs.drop_first()[k].state@) && #[trigger] rs.drop_first()[k].user.login@ == u) by {
            assert(rs.drop_first()[k] == rs[k + 1]);
        }
        lemma_latest_none(rs.drop_first(), u);
        assert(!(actionable(rs[0].state@) && rs[0].user.login@ == u));
    }
}

proof fn lemma_latest_some(rs: Seq<RestReview>, u: Seq<char>, k: int)
    requires
        0 <= k < rs.len(),
        actionable(rs[k].state@) && rs[k].user.login@ == u,
    ensures
        latest_review(rs, u) is Some,
    decreases rs.len(),
{
    if k > 0 {
        assert(rs.drop_first()[k - 1] == rs[k]);
        lemma_latest_some(rs.drop_first(), u, k - 1);
    }
}

/// Review `i` is the last review of its author whose state is approved,
/// changes requested or dismissed, and it has one of those states itself.
pub open spec fn last_word(rs: Seq<RestReview>, i: int) -> bool {
    &&& 0 <= i < rs.len()
    &&& (rs[i].state@ == "APPROVED"@ || rs[i].state@ == "CHANGES_REQUESTED"@ || rs[i].state@ == "DISMISSED"@)
    &&& forall|j: int|
        i < j < rs.len() && (#[trigger] rs[j]).user.login@ == rs[i].user.login@ ==> !(rs[j].state@ == "APPROVED"@
            || rs[j].state@ == "CHANGES_REQUESTED"@ || rs[j].state@ == "DISMISSED"@)
}

/// A user's latest counting review is the last of that user's reviews in
/// the approved / changes requested / dismissed states.
proof fn lemma_latest_is_last_word(rs: Seq<RestReview>, u: Seq<char>, st: Seq<char>)
    ensures
        latest_review(rs, u) == Some(st) <==> exists|i: int|
            last_word(rs, i) && (#[trigger] rs[i]).user.login@ == u && rs[i].state@ == st,
    decreases rs.len(),
{
    if rs.len() > 0 {
        let t = rs.drop_first();
        lemma_latest_is_last_word(t, u, st);
        if latest_review(rs, u) == Some(st) {
            if latest_review(t, u) is Some {
                let i = choose|i: int| last_word(t, i) && (#[trigger] t[i]).user.login@ == u && t[i].state@ == st;
                assert(rs[i + 1] == t[i]);
                assert forall|j: int| i + 1 < j < rs.len() && (#[trigger] rs[j]).user.login@ == rs[i + 1].user.login@ implies !(
                rs[j].state@ == "APPROVED"@ || rs[j].state@ == "CHANGES_REQUESTED"@ || rs[j].state@ == "DISMISSED"@) by {
                    assert(t[j - 1] == rs[j]);
                }
                assert(last_word(rs, i + 1));
            } else {
                assert forall|j: int| 0 < j < rs.len() && (#[trigger] rs[j]).user.login@ == rs[0].user.login@ implies !(
                rs[j].state@ == "APPROVED"@ || rs[j].state@ == "CHANGES_REQUESTED"@ || rs[j].state@ == "DISMISSED"@) by {
                    assert(t[j - 1] == rs[j]);
                    if actionable(t[j - 1].state@) {
                        lemma_latest_some(t, u, j - 1);
                    }
                }
                assert(last_word(rs, 0));
            }
        }
        if exists|i: int| last_word(rs, i) && (#[trigger] rs[i]).user.login@ == u && rs[i].state@ == st {
            let i = choose|i: int| last_word(rs, i) && (#[trigger] rs[i]).user.login@ == u && rs[i].state@ == st;
            if i > 0 {
                assert(t[i - 1] == rs[i]);
                assert forall|j: int| i - 1 < j < t.len() && (#[trigger] t[j]).user.login@ == t[i - 1].user.login@ implies !(
                t[j].state@ == "APPROVED"@ || t[j].state@ == "CHANGES_REQUESTED"@ || t[j].state@ == "DISMISSED"@) by {
                    assert(t[j] == rs[j + 1]);
                }
                assert(last_word(t, i - 1));
            } else {
                assert forall|k: int| 0 <= k < t.len() implies !(actionable(t[k].state@) && #[trigger] t[k].user.login@
                    == u) by {
                    assert(t[k] == rs[k + 1]);
                }
                lemma_latest_none(t, u);
            }
        }
    }
}

/// The review decision, in terms of each author's last review among the
/// approved, changes-requested and dismissed ones: changes requested when
/// some author's last such review requests changes; otherwise approved when
/// some author's last such review approves (a later dismissal by the same
/// author withdraws an approval); otherwise review required.
pub proof fn lemma_review_decision_by_last_words(rs: Seq<RestReview>)
    ensures
        review_decision(rs) == GithubReviewStatus::ChangesRequested <==> exists|i: int|
            last_word(rs, i) && (#[trigger] rs[i]).state@ == "CHANGES_REQUESTED"@,
        review_decision(rs) == GithubReviewStatus::Approved <==> (!exists|i: int|
            last_word(rs, i) && (#[trigger] rs[i]).state@ == "CHANGES_REQUESTED"@) && exists|i: int|
            last_word(rs, i) && (#[trigger] rs[i]).state@ == "APPROVED"@,
        review_decision(rs) == GithubReviewStatus::ReviewRequired <==> !exists|i: int|
            last_word(rs, i) && ((#[trigger] rs[i]).state@ == "CHANGES_REQUESTED"@ || rs[i].state@ == "APPROVED"@),
{
    assert(some_latest(rs, "CHANGES_REQUESTED"@) <==> exists|i: int|
        last_word(rs, i) && (#[trigger] rs[i]).state@ == "CHANGES_REQUESTED"@) by {
        if some_latest(rs, "CHANGES_REQUESTED"@) {
            let u = choose|u: Seq<char>| #[trigger] latest_review(rs, u) == Some("CHANGES_REQUESTED"@);
            lemma_latest_is_last_word(rs, u, "CHANGES_REQUESTED"@);
        }
        if exists|i: int| last_word(rs, i) && (#[trigger] rs[i]).state@ == "CHANGES_REQUESTED"@ {
            let i = choose|i: int| last_word(rs, i) && (#[trigger] rs[i]).state@ == "CHANGES_REQUESTED"@;
            lemma_latest_is_last_word(rs, rs[i].user.login@, "CHANGES_REQUESTED"@);
        }
    }
    assert(some_latest(rs, "APPROVED"@) <==> exists|i: int| last_word(rs, i) && (#[trigger] rs[i]).state@
        == "APPROVED"@) by {
        if some_latest(rs, "APPROVED"@) {
            let u = choose|u: Seq<char>| #[trigger] latest_review(rs, u) == Some("APPROVED"@);
            lemma_latest_is_last_word(rs, u, "APPROVED"@);
        }
        if exists|i: int| last_word(rs, i) && (#[trigger] rs[i]).state@ == "APPROVED"@ {
            let i = choose|i: int| last_word(rs, i) && (#[trigger] rs[i]).state@ == "APPROVED"@;
            lemma_latest_is_last_word(rs, rs[i].user.login@, "APPROVED"@);
        }
    }
}

/// Derives the review decision from the reviews, taking the latest
/// counting review (approved, changes requested, dismissed) of each user.
pub fn derive_review_decision(reviews: &[RestReview]) -> (r: GithubReviewStatus)
    ensures
        r == review_decision(reviews@),
        r == GithubReviewStatus::Approved <==> (!exists|i: int|
            last_word(reviews@, i) && (#[trigger] reviews@[i]).state@ == "CHANGES_REQUESTED"@) && exists|i: int|
            last_word(reviews@, i) && (#[trigger] reviews@[i]).state@ == "APPROVED"@,
        r == GithubReviewStatus::ChangesRequested <==> exists|i: int|
            last_word(reviews@, i) && (#[trigger] reviews@[i]).state@ == "CHANGES_REQUESTED"@,
{
    proof {
        lemma_review_decision_by_last_words(reviews@);
    }
    let n: usize = reviews.len();
    let mut seen: Vec<String> = Vec::new();
    let mut has_cr = false;
    let mut has_ap = false;
    let mut i: usize = n;
    proof {
        assert(reviews@.skip(n as int) =~= Seq::<RestReview>::empty());
    }
    while i > 0
        invariant
            n == reviews@.len(),
            i <= n,
            forall|u: Seq<char>| crate::text::views(seen@).contains(u) <==> latest_review(reviews@.skip(i as int), u) is Some,
            has_cr == some_latest(reviews@.skip(i as int), "CHANGES_REQUESTED"@),
            has_ap == some_latest(reviews@.skip(i as int), "APPROVED"@),
        decreases i,
    {
        let ghost old_s = reviews@.skip(i as int);
        i = i - 1;
        let r = &reviews[i];
        let ghost new_s = reviews@.skip(i as int);
        proof {
            assert(new_s.drop_first() =~= old_s);
            assert(new_s[0] == reviews@[i as int]);
        }
        let st = r.state.as_str();
        let counts = str_eq(st, "APPROVED") || str_eq(st, "CHANGES_REQUESTED") || str_eq(st, "DISMISSED");
        if counts {
            let login = r.user.login.as_str();
            let mut known = false;
            let m: usize = seen.len();
            for j in 0..m
                invariant
                    m == seen@.len(),
                    known == (exists|k: int| 0 <= k < j && #[trigger] seen@[k]@ == login@),
            {
                if str_eq(seen[j].as_str(), login) {
                    known = true;
                }
            }
            proof {
                if known {
                    let k = choose|k: int| 0 <= k < m && #[trigger] seen@[k]@ == login@;
                    assert(crate::text::views(seen@)[k] == login@);
                }
                if crate::text::views(seen@).contains(login@) {
                    let k = choose|k: int| 0 <= k < crate::text::views(seen@).len() && crate::text::views(seen@)[k] == login@;
                    assert(seen@[k]@ == login@);
                }
            }
            if !known {
                let ghost before = crate::text::views(seen@);
                seen.push(owned(login));
                if str_eq(st, "CHANGES_REQUESTED") {
                    has_cr = true;
                }
                if str_eq(st, "APPROVED") {
                    has_ap = true;
                }
                proof {
                    assert(crate::text::views(seen@) =~= before.push(login@));
                    assert(latest_review(new_s, login@) == Some(st@));
                    assert forall|u: Seq<char>| u != login@ implies latest_review(new_s, u) == latest_review(old_s, u) by {}
                    assert forall|u: Seq<char>| crate::text::views(seen@).contains(u) <==> latest_review(new_s, u) is Some by {
                        if u != login@ {
                            if crate::text::views(seen@).contains(u) {
                                let k = choose|k: int| 0 <= k < crate::text::views(seen@).len() && crate::text::views(seen@)[k] == u;
                                assert(before[k] == u);
                            }
                            if before.contains(u) {
                                let k = choose|k: int| 0 <= k < before.len() && before[k] == u;
                                assert(crate::text::views(seen@)[k] == u);
                            }
                        } else {
                            assert(crate::text::views(seen@)[before.len() as int] == u);
                        }
                    }
                    if has_cr {
                        if st@ == "CHANGES_REQUESTED"@ {
                            assert(latest_review(new_s, login@) == Some("CHANGES_REQUESTED"@));
                        } else {
                            let w = choose|w: Seq<char>| #[trigger] latest_review(old_s, w) == Some("CHANGES_REQUESTED"@);
                            assert(latest_review(new_s, w) == Some("CHANGES_REQUESTED"@));
                        }
                    }
                    if some_latest(new_s, "CHANGES_REQUESTED"@) {
                        let w = choose|w: Seq<char>| #[trigger] latest_review(new_s, w) == Some("CHANGES_REQUESTED"@);
                        if w != login@ {
                            assert(latest_review(old_s, w) == Some("CHANGES_REQUESTED"@));
                        }
                    }
                    if has_ap {
                        if st@ == "APPROVED"@ {
                            assert(latest_review(new_s, login@) == Some("APPROVED"@));
                        } else {
                            let w = choose|w: Seq<char>| #[trigger] latest_review(old_s, w) == Some("APPROVED"@);
                            assert(latest_review(new_s, w) == Some("APPROVED"@));
                        }
                    }
                    if some_latest(new_s, "APPROVED"@) {
                        let w = choose|w: Seq<char>| #[trigger] latest_review(new_s, w) == Some("APPROVED"@);
                        if w != login@ {
                            assert(latest_review(old_s, w) == Some("APPROVED"@));
                        }
                    }
                }
            } else {
                proof {
                    assert(latest_review(old_s, login@) is Some);
                    assert forall|u: Seq<char>| latest_review(new_s, u) == latest_review(old_s, u) by {}
                    if has_cr {
                        let w = choose|w: Seq<char>| #[trigger] latest_review(old_s, w) == Some("CHANGES_REQUESTED"@);
                        assert(latest_review(new_s, w) == Some("CHANGES_REQUESTED"@));
                    }
                    if some_latest(new_s, "CHANGES_REQUESTED"@) {
                        let w = choose|w: Seq<char>| #[trigger] latest_review(new_s, w) == Some("CHANGES_REQUESTED"@);
                        assert(latest_review(old_s, w) == Some("CHANGES_REQUESTED"@));
                    }
                    if has_ap {
                        let w = choose|w: Seq<char>| #[trigger] latest_review(old_s, w) == Some("APPROVED"@);
                        assert(latest_review(new_s, w) == Some("APPROVED"@));
                    }
                    if some_latest(new_s, "APPROVED"@) {
                        let w = choose|w: Seq<char>| #[trigger] latest_review(new_s, w) == Some("APPROVED"@);
                        assert(latest_review(old_s, w) == Some("APPROVED"@));
                    }
                }
            }
        } else {
            proof {
                assert forall|u: Seq<char>| latest_review(new_s, u) == latest_review(old_s, u) by {}
                if has_cr {
                    let w = choose|w: Seq<char>| #[trigger] latest_review(old_s, w) == Some("CHANGES_REQUESTED"@);
                    assert(latest_review(new_s, w) == Some("CHANGES_REQUESTED"@));
                }
                if some_latest(new_s, "CHANGES_REQUESTED"@) {
                    let w = choose|w: Seq<char>| #[trigger] latest_review(new_s, w) == Some("CHANGES_REQUESTED"@);
                    assert(latest_review(old_s, w) == Some("CHANGES_REQUESTED"@));
                }
                if has_ap {
                    let w = choose|w: Seq<char>| #[trigger] latest_review(old_s, w) == Some("APPROVED"@);
                    assert(latest_review(new_s, w) == Some("APPROVED"@));
                }
                if some_latest(new_s, "APPROVED"@) {
                    let w = choose|w: Seq<char>| #[trigger] latest_review(new_s, w) == Some("APPROVED"@);
                    assert(latest_review(old_s, w) == Some("APPROVED"@));
                }
            }
        }
    }
    proof {
        assert(reviews@.skip(0) =~= reviews@);
    }
    if has_cr {
        GithubReviewStatus::ChangesRequested
    } else if has_ap {
        GithubReviewStatus::Approved
    } else {
        GithubReviewStatus::ReviewRequired
    }
}

/// Maps the GraphQL `reviewDecision`.
pub fn parse_review_status(review_decision: Option<&str>) -> (r: Result<GithubReviewStatus, GithubSnapshotError>)
    ensures
        match review_decision {
            None => r matches Ok(GithubReviewStatus::ReviewRequired),
            Some(v) => if v@ == "APPROVED"@ {
                r matches Ok(GithubReviewStatus::Approved)
            } else if v@ == "REVIEW_REQUIRED"@ {
                r matches Ok(GithubReviewStatus::ReviewRequired)
            } else if v@ == "CHANGES_REQUESTED"@ {
                r matches Ok(GithubReviewStatus::ChangesRequested)
            } else {
                r matches Err(GithubSnapshotError::UnsupportedValue { field, value }) && field@ == "reviewDecision"@
                    && value@ == v@
            },
        },
{
    match review_decision {
        None => Ok(GithubReviewStatus::ReviewRequired),
        Some(v) => {
            if str_eq(v, "APPROVED") {
                Ok(GithubReviewStatus::Approved)
            } else if str_eq(v, "REVIEW_REQUIRED") {
                Ok(GithubReviewStatus::ReviewRequired)
            } else if str_eq(v, "CHANGES_REQUESTED") {
                Ok(GithubReviewStatus::ChangesRequested)
            } else {
                Err(GithubSnapshotError::UnsupportedValue { field: "reviewDecision", value: owned(v) })
            }
        },
    }
}

// ── Check runs ───────────────────────────────────────────────────────────────

/// A completed run's conclusion that counts as success.
pub open spec fn good_conclusion(c: Seq<char>) -> bool {
    c == "success"@ || c == "neutral"@ || c == "skipped"@
}

/// The status of the runs `rs` given whether a pending run was seen before:
/// the first completed run with another conclusion fails everything; a
/// queued, running or unknown run makes the result pending.
pub open spec fn runs_status(rs: Seq<RestCheckRun>, saw_pending: bool) -> EvidenceStatus
    decreases rs.len(),
{
    if rs.len() == 0 {
        if saw_pending {
            EvidenceStatus::Pending
        } else {
            EvidenceStatus::Passing
        }
    } else {
        let st = rs[0].status@;
        if st == "completed"@ {
            let ok = match rs[0].conclusion {
                Some(c) => good_conclusion(c@),
                None => false,
            };
            if !ok {
                EvidenceStatus::Failing
            } else {
                runs_status(rs.drop_first(), saw_pending)
            }
        } else {
            runs_status(rs.drop_first(), true)
        }
    }
}

/// The checks status from the REST check runs: pending when there are none.
pub open spec fn check_runs_status(rs: Seq<RestCheckRun>) -> EvidenceStatus {
    if rs.len() == 0 {
        EvidenceStatus::Pending
    } else {
        runs_status(rs, false)
    }
}

/// A check run that finished with a success, neutral or skipped conclusion.
pub open spec fn run_succeeded(r: RestCheckRun) -> bool {
    &&& r.status@ == "completed"@
    &&& r.conclusion matches Some(c) && (c@ == "success"@ || c@ == "neutral"@ || c@ == "skipped"@)
}

/// A check run that finished with any other conclusion, or none.
pub open spec fn run_failed(r: RestCheckRun) -> bool {
    r.status@ == "completed"@ && !run_succeeded(r)
}

/// The checks verdict over the runs: failing as soon as any finished run
/// failed, wherever it stands; otherwise pending while any run has not
/// finished (or there are no runs); passing only when every run finished
/// with success, neutral or skipped.
pub proof fn lemma_check_runs_verdict(rs: Seq<RestCheckRun>)
    ensures
        (exists|i: int| 0 <= i < rs.len() && run_failed(#[trigger] rs[i])) ==> check_runs_status(rs)
            == EvidenceStatus::Failing,
        !(exists|i: int| 0 <= i < rs.len() && run_failed(#[trigger] rs[i])) && (rs.len() == 0 || exists|i: int|
            0 <= i < rs.len() && (#[trigger] rs[i]).status@ != "completed"@) ==> check_runs_status(rs)
            == EvidenceStatus::Pending,
        check_runs_status(rs) == EvidenceStatus::Passing <==> (rs.len() > 0 && forall|i: int|
            0 <= i < rs.len() ==> run_succeeded(#[trigger] rs[i])),
{
    if rs.len() > 0 {
        lemma_runs_status_verdict(rs, false);
    }
}

proof fn lemma_runs_status_verdict(rs: Seq<RestCheckRun>, p: bool)
    ensures
        (exists|i: int| 0 <= i < rs.len() && run_failed(#[trigger] rs[i])) ==> runs_status(rs, p)
            == EvidenceStatus::Failing,
        !(exists|i: int| 0 <= i < rs.len() && run_failed(#[trigger] rs[i])) ==> runs_status(rs, p) == (if p
            || exists|i: int| 0 <= i < rs.len() && (#[trigger] rs[i]).status@ != "completed"@ {
            EvidenceStatus::Pending
        } else {
            EvidenceStatus::Passing
        }),
        runs_status(rs, p) == EvidenceStatus::Passing ==> !p && forall|i: int|
            0 <= i < rs.len() ==> run_succeeded(#[trigger] rs[i]),
        !p && (forall|i: int| 0 <= i < rs.len() ==> run_succeeded(#[trigger] rs[i])) ==> runs_status(rs, p)
            == EvidenceStatus::Passing,
    decreases rs.len(),
{
    if rs.len() > 0 {
        let t = rs.drop_first();
        let q = rs[0].status@ != "completed"@ || p;
        lemma_runs_status_verdict(t, q);
        assert forall|i: int| 0 <= i < t.len() implies #[trigger] t[i] == rs[i + 1] by {}
        if rs[0].status@ == "completed"@ {
            if !run_succeeded(rs[0]) {
                assert(run_failed(rs[0]));
            }
        }
        assert forall|i: int| 0 <= i < rs.len() && run_failed(#[trigger] rs[i]) && i > 0 implies run_failed(
            t[i - 1],
        ) by {}
        assert forall|i: int| 0 <= i < rs.len() && (#[trigger] rs[i]).status@ != "completed"@ && i > 0 implies t[i
            - 1].status@ != "completed"@ by {}
        if forall|i: int| 0 <= i < t.len() ==> run_succeeded(#[trigger] t[i]) {
            if run_succeeded(rs[0]) {
                assert forall|i: int| 0 <= i < rs.len() implies run_succeeded(#[trigger] rs[i]) by {
                    if i > 0 {
                        assert(run_succeeded(t[i - 1]));
                    }
                }
            }
        }
        if exists|i: int| 0 <= i < t.len() && run_failed(#[trigger] t[i]) {
            let i = choose|i: int| 0 <= i < t.len() && run_failed(#[trigger] t[i]);
            assert(run_failed(rs[i + 1]));
        }
        if exists|i: int| 0 <= i < t.len() && (#[trigger] t[i]).status@ != "completed"@ {
            let i = choose|i: int| 0 <= i < t.len() && (#[trigger] t[i]).status@ != "completed"@;
            assert(rs[i + 1].status@ != "completed"@);
        }
    }
}

/// Folds the REST check runs into one status.
pub fn parse_rest_check_runs(check_runs: &[RestCheckRun]) -> (r: EvidenceStatus)
    ensures
        r == check_runs_status(check_runs@),
        (exists|i: int| 0 <= i < check_runs@.len() && run_failed(#[trigger] check_runs@[i])) ==> r
            == EvidenceStatus::Failing,
        r == EvidenceStatus::Passing <==> (check_runs@.len() > 0 && forall|i: int|
            0 <= i < check_runs@.len() ==> run_succeeded(#[trigger] check_runs@[i])),
{
    proof {
        lemma_check_runs_verdict(check_runs@);
    }
    let n: usize = check_runs.len();
    if n == 0 {
        return EvidenceStatus::Pending;
    }
    let mut saw_pending = false;
    proof {
        assert(check_runs@.skip(0) =~= check_runs@);
    }
    for i in 0..n
        invariant
            n == check_runs@.len(),
            runs_status(check_runs@.skip(i as int), saw_pending) == runs_status(check_runs@, false),
    {
        let run = &check_runs[i];
        proof {
            assert(check_runs@.skip(i as int)[0] == check_runs@[i as int]);
            assert(check_runs@.skip(i as int).drop_first() =~= check_runs@.skip(i + 1));
        }
        if str_eq(run.status.as_str(), "completed") {
            let good = match &run.conclusion {
                Some(c) => str_eq(c.as_str(), "success") || str_eq(c.as_str(), "neutral") || str_eq(c.as_str(), "skipped"),
                None => false,
            };
            if !good {
                return EvidenceStatus::Failing;
            }
        } else {
            saw_pending = true;
        }
    }
    proof {
        assert(check_runs@.skip(n as int) =~= Seq::<RestCheckRun>::empty());
    }
    if saw_pending {
        EvidenceStatus::Pending
    } else {
        EvidenceStatus::Passing
    }
}

pub open spec fn pending_legacy(st: Seq<char>) -> bool {
    st == "QUEUED"@ || st == "IN_PROGRESS"@ || st == "PENDING"@ || st == "WAITING"@ || st == "REQUESTED"@
}

/// The legacy rollup folded into one status, or the error for the first
/// malformed entry.
pub open spec fn legacy_status(rs: Seq<LegacyCheckRollup>, saw_pending: bool) -> Result<EvidenceStatus, Seq<char>>
    decreases rs.len(),
{
    if rs.len() == 0 {
        Ok(if saw_pending { EvidenceStatus::Pending } else { EvidenceStatus::Passing })
    } else {
        match rs[0].status {
            None => Err("statusCheckRollup entry is missing status"@),
            Some(s) => if pending_legacy(s@) {
                legacy_status(rs.drop_first(), true)
            } else if s@ == "COMPLETED"@ {
                match rs[0].conclusion {
                    None => Err("statusCheckRollup entry is missing conclusion"@),
                    Some(c) => if !(c@ == "SUCCESS"@ || c@ == "NEUTRAL"@ || c@ == "SKIPPED"@) {
                        Ok(EvidenceStatus::Failing)
                    } else {
                        legacy_status(rs.drop_first(), saw_pending)
                    },
                }
            } else {
                Err("statusCheckRollup.status"@ + ": "@ + s@)
            },
        }
    }
}

/// A rollup entry that completed with a success, neutral or skipped conclusion.
pub open spec fn legacy_succeeded(r: LegacyCheckRollup) -> bool {
    &&& r.status matches Some(st) && st@ == "COMPLETED"@
    &&& r.conclusion matches Some(c) && (c@ == "SUCCESS"@ || c@ == "NEUTRAL"@ || c@ == "SKIPPED"@)
}

/// A rollup entry that is queued, in progress, pending, waiting or requested.
pub open spec fn legacy_waiting(r: LegacyCheckRollup) -> bool {
    r.status matches Some(st) && (st@ == "QUEUED"@ || st@ == "IN_PROGRESS"@ || st@ == "PENDING"@ || st@
        == "WAITING"@ || st@ == "REQUESTED"@)
}

/// The legacy rollup passes exactly when every entry completed with success,
/// neutral or skipped; it is pending only when some entry is still waiting.
pub proof fn lemma_legacy_verdict(rs: Seq<LegacyCheckRollup>)
    ensures
        legacy_status(rs, false) == Ok::<EvidenceStatus, Seq<char>>(EvidenceStatus::Passing) <==> forall|i: int|
            0 <= i < rs.len() ==> legacy_succeeded(#[trigger] rs[i]),
        legacy_status(rs, false) == Ok::<EvidenceStatus, Seq<char>>(EvidenceStatus::Pending) ==> exists|i: int|
            0 <= i < rs.len() && legacy_waiting(#[trigger] rs[i]),
{
    lemma_legacy_status_verdict(rs, false);
}

proof fn lemma_legacy_status_verdict(rs: Seq<LegacyCheckRollup>, p: bool)
    ensures
        legacy_status(rs, p) == Ok::<EvidenceStatus, Seq<char>>(EvidenceStatus::Passing) ==> !p && forall|i: int|
            0 <= i < rs.len() ==> legacy_succeeded(#[trigger] rs[i]),
        !p && (forall|i: int| 0 <= i < rs.len() ==> legacy_succeeded(#[trigger] rs[i])) ==> legacy_status(rs, p)
            == Ok::<EvidenceStatus, Seq<char>>(EvidenceStatus::Passing),
        legacy_status(rs, p) == Ok::<EvidenceStatus, Seq<char>>(EvidenceStatus::Pending) ==> p || exists|i: int|
            0 <= i < rs.len() && legacy_waiting(#[trigger] rs[i]),
    decreases rs.len(),
{
    if rs.len() > 0 {
        let t = rs.drop_first();
        assert forall|i: int| 0 <= i < t.len() implies #[trigger] t[i] == rs[i + 1] by {}
        lemma_legacy_status_verdict(t, p);
        lemma_legacy_status_verdict(t, true);
        if forall|i: int| 0 <= i < t.len() ==> legacy_succeeded(#[trigger] t[i]) {
            if legacy_succeeded(rs[0]) {
                assert forall|i: int| 0 <= i < rs.len() implies legacy_succeeded(#[trigger] rs[i]) by {
                    if i > 0 {
                        assert(legacy_succeeded(t[i - 1]));
                    }
                }
            }
        }
        if forall|i: int| 0 <= i < rs.len() ==> legacy_succeeded(#[trigger] rs[i]) {
            reveal_strlit("COMPLETED");
            reveal_strlit("QUEUED");
            reveal_strlit("IN_PROGRESS");
            reveal_strlit("PENDING");
            reveal_strlit("WAITING");
            reveal_strlit("REQUESTED");
            assert(legacy_succeeded(rs[0]));
            assert("COMPLETED"@[0] != "QUEUED"@[0] && "COMPLETED"@[0] != "IN_PROGRESS"@[0] && "COMPLETED"@[0]
                != "PENDING"@[0] && "COMPLETED"@[0] != "WAITING"@[0] && "COMPLETED"@[0] != "REQUESTED"@[0]);
            assert(!pending_legacy("COMPLETED"@));
            assert forall|i: int| 0 <= i < t.len() implies legacy_succeeded(#[trigger] t[i]) by {
                assert(legacy_succeeded(rs[i + 1]));
            }
        }
        if exists|i: int| 0 <= i < t.len() && legacy_waiting(#[trigger] t[i]) {
            let i = choose|i: int| 0 <= i < t.len() && legacy_waiting(#[trigger] t[i]);
            assert(legacy_waiting(rs[i + 1]));
        }
        if legacy_waiting(rs[0]) {
            assert(legacy_waiting(rs[0]));
        }
    }
}

/// The error text of a snapshot error (`Json` errors excepted).
pub open spec fn error_text(e: GithubSnapshotError) -> Seq<char> {
    match e {
        GithubSnapshotError::MissingField(m) => m@,
        GithubSnapshotError::UnsupportedValue { field, value } => field@ + ": "@ + value@,
        GithubSnapshotError::Json(_) => Seq::empty(),
    }
}

/// Folds the legacy status-check rollup into one status.
pub fn parse_legacy_checks_status(checks: &[LegacyCheckRollup]) -> (r: Result<EvidenceStatus, GithubSnapshotError>)
    ensures
        checks@.len() == 0 ==> r matches Ok(EvidenceStatus::Pending),
        checks@.len() > 0 ==> match legacy_status(checks@, false) {
            Ok(s) => r == Ok::<EvidenceStatus, GithubSnapshotError>(s),
            Err(t) => r matches Err(e) && !(e is Json) && error_text(e) == t,
        },
        r == Ok::<EvidenceStatus, GithubSnapshotError>(EvidenceStatus::Passing) <==> (checks@.len() > 0 && forall|i: int|
            0 <= i < checks@.len() ==> legacy_succeeded(#[trigger] checks@[i])),
{
    proof {
        lemma_legacy_verdict(checks@);
    }
    let n: usize = checks.len();
    if n == 0 {
        return Ok(EvidenceStatus::Pending);
    }
    let mut saw_pending = false;
    proof {
        assert(checks@.skip(0) =~= checks@);
    }
    for i in 0..n
        invariant
            n == checks@.len(),
            legacy_status(checks@.skip(i as int), saw_pending) == legacy_status(checks@, false),
    {
        let c = &checks[i];
        proof {
            assert(checks@.skip(i as int)[0] == checks@[i as int]);
            assert(checks@.skip(i as int).drop_first() =~= checks@.skip(i + 1));
        }
        let status: &str = match &c.status {
            Some(s) => s.as_str(),
            None => {
                return Err(GithubSnapshotError::MissingField("statusCheckRollup entry is missing status"));
            },
        };
        if str_eq(status, "QUEUED") || str_eq(status, "IN_PROGRESS") || str_eq(status, "PENDING") || str_eq(status, "WAITING")
            || str_eq(status, "REQUESTED") {
            saw_pending = true;
        } else if str_eq(status, "COMPLETED") {
            let conclusion: &str = match &c.conclusion {
                Some(x) => x.as_str(),
                None => {
                    return Err(GithubSnapshotError::MissingField("statusCheckRollup entry is missing conclusion"));
                },
            };
            if !(str_eq(conclusion, "SUCCESS") || str_eq(conclusion, "NEUTRAL") || str_eq(conclusion, "SKIPPED")) {
                return Ok(EvidenceStatus::Failing);
            }
        } else {
            return Err(GithubSnapshotError::UnsupportedValue { field: "statusCheckRollup.status", value: owned(status) });
        }
    }
    proof {
        assert(checks@.skip(n as int) =~= Seq::<LegacyCheckRollup>::empty());
    }
    if saw_pending {
        Ok(EvidenceStatus::Pending)
    } else {
        Ok(EvidenceStatus::Passing)
    }
}

// ── Mergeability ─────────────────────────────────────────────────────────────

/// The REST `mergeable_state`, mapped.
pub open spec fn rest_mergeability(v: Option<Seq<char>>) -> Option<GithubMergeability> {
    match v {
        None => Some(GithubMergeability::Unknown),
        Some(s) => if s == "clean"@ || s == "has_hooks"@ || s == "unstable"@ {
            Some(GithubMergeability::Mergeable)
        } else if s == "dirty"@ {
            Some(GithubMergeability::Conflicting)
        } else if s == "blocked"@ || s == "behind"@ || s == "draft"@ {
            Some(GithubMergeability::Blocked)
        } else if s == "unknown"@ {
            Some(GithubMergeability::Unknown)
        } else {
            None
        },
    }
}

/// Maps the REST `mergeable_state`.
pub fn parse_mergeability_rest(value: Option<&str>) -> (r: Result<GithubMergeability, GithubSnapshotError>)
    ensures
        match rest_mergeability(
            match value {
                Some(v) => Some(v@),
                None => None,
            },
        ) {
            Some(m) => r == Ok::<GithubMergeability, GithubSnapshotError>(m),
            None => value is Some && (r matches Err(GithubSnapshotError::UnsupportedValue { field, value: v })
                && field@ == "mergeable_state"@ && v@ == value.unwrap()@),
        },
{
    match value {
        None => Ok(GithubMergeability::Unknown),
        Some(s) => {
            if str_eq(s, "clean") || str_eq(s, "has_hooks") || str_eq(s, "unstable") {
                Ok(GithubMergeability::Mergeable)
            } else if str_eq(s, "dirty") {
                Ok(GithubMergeability::Conflicting)
            } else if str_eq(s, "blocked") || str_eq(s, "behind") || str_eq(s, "draft") {
                Ok(GithubMergeability::Blocked)
            } else if str_eq(s, "unknown") {
                Ok(GithubMergeability::Unknown)
            } else {
                Err(GithubSnapshotError::UnsupportedValue { field: "mergeable_state", value: owned(s) })
            }
        },
    }
}

/// The GraphQL `mergeStateStatus`, mapped.
pub open spec fn graphql_mergeability(s: Seq<char>) -> Option<GithubMergeability> {
    if s == "CLEAN"@ || s == "HAS_HOOKS"@ || s == "UNSTABLE"@ {
        Some(GithubMergeability::Mergeable)
    } else if s == "DIRTY"@ {
        Some(GithubMergeability::Conflicting)
    } else if s == "BLOCKED"@ || s == "BEHIND"@ || s == "DRAFT"@ {
        Some(GithubMergeability::Blocked)
    } else if s == "UNKNOWN"@ {
        Some(GithubMergeability::Unknown)
    } else {
        None
    }
}

/// Maps the GraphQL `mergeStateStatus`.
pub fn parse_mergeability_graphql(value: &str) -> (r: Result<GithubMergeability, GithubSnapshotError>)
    ensures
        match graphql_mergeability(value@) {
            Some(m) => r == Ok::<GithubMergeability, GithubSnapshotError>(m),
            None => r matches Err(GithubSnapshotError::UnsupportedValue { field, value: v }) && field@ == "mergeStateStatus"@
                && v@ == value@,
        },
{
    if str_eq(value, "CLEAN") || str_eq(value, "HAS_HOOKS") || str_eq(value, "UNSTABLE") {
        Ok(GithubMergeability::Mergeable)
    } else if str_eq(value, "DIRTY") {
        Ok(GithubMergeability::Conflicting)
    } else if str_eq(value, "BLOCKED") || str_eq(value, "BEHIND") || str_eq(value, "DRAFT") {
        Ok(GithubMergeability::Blocked)
    } else if str_eq(value, "UNKNOWN") {
        Ok(GithubMergeability::Unknown)
    } else {
        Err(GithubSnapshotError::UnsupportedValue { field: "mergeStateStatus", value: owned(value) })
    }
}

// ── Snapshots ────────────────────────────────────────────────────────────────

/// The Unicode lowercase of a string (`str::to_lowercase`).
pub uninterp spec fn lowercase(s: Seq<char>) -> Seq<char>;

/// `str::to_lowercase`.
///
/// Trusted: the result is Unicode's lowercase mapping of the argument, a
/// function of the argument alone, named here and not spelled out.
#[verifier::external_body]
fn to_lowercase(s: &str) -> (r: String)
    ensures
        r@ == lowercase(s@),
{
    s.to_lowercase()
}

/// The snapshot of a REST pull request whose lowercased state is `state`:
/// only open and closed pull requests are accepted.
pub open spec fn rest_snapshot(state: Seq<char>, pr: RestPullRequest, reviews: Seq<RestReview>, runs: Seq<RestCheckRun>) -> Option<GithubPullRequestSnapshot> {
    if state != "open"@ && state != "closed"@ {
        None
    } else {
        match rest_mergeability(os_of(pr.mergeable_state)) {
            None => None,
            Some(m) => Some(
                GithubPullRequestSnapshot {
                    is_draft: match pr.draft {
                        Some(d) => d,
                        None => false,
                    },
                    review_status: review_decision(reviews),
                    checks: check_runs_status(runs),
                    mergeability: m,
                },
            ),
        }
    }
}

pub open spec fn os_of(o: Option<String>) -> Option<Seq<char>> {
    match o {
        Some(s) => Some(s@),
        None => None,
    }
}

/// Builds the snapshot from REST data, given the pull request's state
/// already lowercased.
pub fn rest_snapshot_from(state_lower: &str, pr: &RestPullRequest, reviews: &[RestReview], check_runs: &[RestCheckRun]) -> (r: Result<GithubPullRequestSnapshot, GithubSnapshotError>)
    ensures
        state_lower@ != "open"@ && state_lower@ != "closed"@ ==> (r matches Err(GithubSnapshotError::UnsupportedValue { field, value })
            && field@ == "state"@ && value@ == pr.state@),
        match rest_snapshot(state_lower@, *pr, reviews@, check_runs@) {
            Some(s) => r == Ok::<GithubPullRequestSnapshot, GithubSnapshotError>(s),
            None => r is Err,
        },
        (state_lower@ == "open"@ || state_lower@ == "closed"@) && rest_mergeability(os_of(pr.mergeable_state)) is None
            ==> (r matches Err(GithubSnapshotError::UnsupportedValue { field, value }) && field@ == "mergeable_state"@
            && os_of(pr.mergeable_state) == Some(value@)),
{
    if !str_eq(state_lower, "open") && !str_eq(state_lower, "closed") {
        return Err(GithubSnapshotError::UnsupportedValue { field: "state", value: pr.state.clone() });
    }
    let is_draft = match pr.draft {
        Some(d) => d,
        None => false,
    };
    let review_status = derive_review_decision(reviews);
    let checks = parse_rest_check_runs(check_runs);
    let ms: Option<&str> = match &pr.mergeable_state {
        Some(s) => Some(s.as_str()),
        None => None,
    };
    let mergeability = match parse_mergeability_rest(ms) {
        Ok(m) => m,
        Err(e) => {
            return Err(e);
        },
    };
    Ok(GithubPullRequestSnapshot { is_draft, review_status, checks, mergeability })
}

/// Builds the snapshot from REST data (pull request, reviews, check runs).
pub fn parse_rest_pull_request(pr: &RestPullRequest, reviews: &[RestReview], check_runs: &[RestCheckRun]) -> (r: Result<GithubPullRequestSnapshot, GithubSnapshotError>)
    ensures
        match rest_snapshot(lowercase(pr.state@), *pr, reviews@, check_runs@) {
            Some(s) => r == Ok::<GithubPullRequestSnapshot, GithubSnapshotError>(s),
            None => r is Err,
        },
{
    let lower = to_lowercase(pr.state.as_str());
    rest_snapshot_from(lower.as_str(), pr, reviews, check_runs)
}

/// The GraphQL `reviewDecision`, mapped.
pub open spec fn graphql_review(v: Option<Seq<char>>) -> Option<GithubReviewStatus> {
    match v {
        None => Some(GithubReviewStatus::ReviewRequired),
        Some(s) => if s == "APPROVED"@ {
            Some(GithubReviewStatus::Approved)
        } else if s == "REVIEW_REQUIRED"@ {
            Some(GithubReviewStatus::ReviewRequired)
        } else if s == "CHANGES_REQUESTED"@ {
            Some(GithubReviewStatus::ChangesRequested)
        } else {
            None
        },
    }
}

/// The checks status of a legacy rollup: pending when empty.
pub open spec fn rollup_status(rs: Seq<LegacyCheckRollup>) -> Option<EvidenceStatus> {
    if rs.len() == 0 {
        Some(EvidenceStatus::Pending)
    } else {
        match legacy_status(rs, false) {
            Ok(s) => Some(s),
            Err(_) => None,
        }
    }
}

/// The snapshot of a legacy view, when every field is understood.
pub open spec fn pr_view_snapshot(v: PrView) -> Option<GithubPullRequestSnapshot> {
    if v.state@ != "OPEN"@ && v.state@ != "MERGED"@ {
        None
    } else {
        match (graphql_review(os_of(v.review_decision)), rollup_status(v.status_check_rollup@), graphql_mergeability(v.merge_state_status@)) {
            (Some(r), Some(c), Some(m)) => Some(GithubPullRequestSnapshot { is_draft: v.is_draft, review_status: r, checks: c, mergeability: m }),
            _ => None,
        }
    }
}

/// The snapshot of a legacy GraphQL view: open or merged pull requests only.
pub fn parse_pr_view(view: &PrView) -> (r: Result<GithubPullRequestSnapshot, GithubSnapshotError>)
    ensures
        view.state@ != "OPEN"@ && view.state@ != "MERGED"@ ==> (r matches Err(GithubSnapshotError::UnsupportedValue { field, value })
            && field@ == "state"@ && value@ == view.state@),
        match pr_view_snapshot(*view) {
            Some(s) => r == Ok::<GithubPullRequestSnapshot, GithubSnapshotError>(s),
            None => r is Err,
        },
{
    if !str_eq(view.state.as_str(), "OPEN") && !str_eq(view.state.as_str(), "MERGED") {
        return Err(GithubSnapshotError::UnsupportedValue { field: "state", value: view.state.clone() });
    }
    let rd: Option<&str> = match &view.review_decision {
        Some(s) => Some(s.as_str()),
        None => None,
    };
    let review_status = match parse_review_status(rd) {
        Ok(s) => s,
        Err(e) => {
            return Err(e);
        },
    };
    let checks = match parse_legacy_checks_status(view.status_check_rollup.as_slice()) {
        Ok(c) => c,
        Err(e) => {
            return Err(e);
        },
    };
    let mergeability = match parse_mergeability_graphql(view.merge_state_status.as_str()) {
        Ok(m) => m,
        Err(e) => {
            return Err(e);
        },
    };
    Ok(GithubPullRequestSnapshot { is_draft: view.is_draft, review_status, checks, mergeability })
}

} // verus!
