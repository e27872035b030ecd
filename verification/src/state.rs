//! Evidence and pull-request state shared by the GitHub checks and the
//! status views.
use crate::named::{get_of, keys_sorted, lemma_get_after_put, put, put_named};
use crate::text::owned;
use vstd::prelude::*;

verus! {

/// The status of one piece of evidence for a gate.
#[derive(Debug, Clone, Copy, PartialEq, Eq, Structural)]
pub enum EvidenceStatus {
    Passing,
    Failing,
    Pending,
    Manual,
}

/// The status of one gate of a feature.
#[derive(Debug, Clone, Copy, PartialEq, Eq, Structural)]
pub enum GateStatus {
    Pending,
    Passing,
    Failing,
    Manual,
}

/// The review decision of a pull request.
#[derive(Debug, Clone, Copy, PartialEq, Eq, Structural)]
pub enum GithubReviewStatus {
    Approved,
    ReviewRequired,
    ChangesRequested,
}

/// Whether a pull request can be merged.
#[derive(Debug, Clone, Copy, PartialEq, Eq, Structural)]
pub enum GithubMergeability {
    Mergeable,
    Conflicting,
    Blocked,
    Unknown,
}

/// What GitHub reports about a pull request.
#[derive(Debug, Clone, Copy, PartialEq, Eq, Structural)]
pub struct GithubPullRequestSnapshot {
    pub is_draft: bool,
    pub review_status: GithubReviewStatus,
    pub checks: EvidenceStatus,
    pub mergeability: GithubMergeability,
}

/// A pull request: its number and URL.
#[derive(Debug, Clone, PartialEq, Eq)]
pub struct PullRequestRef {
    pub number: u64,
    pub url: String,
}

/// Evidence keyed by name (`builtin.github.pr_exists`, ...): one status per
/// key, keys in increasing order.
#[derive(Debug)]
pub struct BuiltinEvidence {
    entries: Vec<(String, EvidenceStatus)>,
}

impl BuiltinEvidence {
    #[verifier::type_invariant]
    spec fn well_formed(&self) -> bool {
        keys_sorted(self.entries@)
    }

    /// The `(key, status)` pairs in key order.
    pub closed spec fn pairs(&self) -> Seq<(String, EvidenceStatus)> {
        self.entries@
    }

    /// The status recorded under `key`.
    pub open spec fn status_of(&self, key: Seq<char>) -> Option<EvidenceStatus> {
        get_of(self.pairs(), key)
    }

    /// No evidence.
    pub fn new() -> (e: BuiltinEvidence)
        ensures
            e.pairs().len() == 0,
            forall|k: Seq<char>| e.status_of(k) is None,
    {
        BuiltinEvidence { entries: Vec::new() }
    }

    /// This evidence with `status` recorded under `key` (replacing an earlier
    /// status of that key).
    pub fn with_status(self, key: &str, status: EvidenceStatus) -> (e: BuiltinEvidence)
        ensures
            e.status_of(key@) == Some(status),
            forall|k: Seq<char>| k != key@ ==> e.status_of(k) == self.status_of(k),
    {
        proof {
            use_type_invariant(&self);
        }
        let mut entries = self.entries;
        let ghost e0 = entries@;
        let k = owned(key);
        proof {
            lemma_get_after_put(e0, k, status, key@);
            assert forall|n: Seq<char>| n != key@ implies get_of(put(e0, k, status), n) == get_of(e0, n) by {
                lemma_get_after_put(e0, k, status, n);
            }
        }
        put_named(&mut entries, k, status);
        BuiltinEvidence { entries }
    }

    /// This evidence with a pass (`true`) or failure recorded under `key`.
    pub fn with_result(self, key: &str, passed: bool) -> (e: BuiltinEvidence)
        ensures
            e.status_of(key@) == Some(if passed { EvidenceStatus::Passing } else { EvidenceStatus::Failing }),
            forall|k: Seq<char>| k != key@ ==> e.status_of(k) == self.status_of(k),
    {
        self.with_status(key, if passed { EvidenceStatus::Passing } else { EvidenceStatus::Failing })
    }

    /// The status recorded under `key`.
    pub fn get(&self, key: &str) -> (r: Option<EvidenceStatus>)
        ensures
            r == self.status_of(key@),
    {
        proof {
            use_type_invariant(self);
        }
        match crate::named::get_named(&self.entries, key) {
            Some(s) => Some(*s),
            None => None,
        }
    }
}

} // verus!
