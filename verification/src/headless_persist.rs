//! Snapshot records for interrupted headless runs.
//!
//! When a headless run stops (signal, step limit, fatal error) a small record
//! of where it stood is written beside the repository state; the next run can
//! resume from it.  After a clean terminal exit the record is deleted.  The
//! record's file format and its reading and writing belong to the program.
use vstd::prelude::*;

verus! {

/// Why a run stopped, as stored in a snapshot.
#[derive(Debug, Clone, Copy, PartialEq, Eq, Structural)]
pub enum ExitReasonTag {
    /// A `terminal` state was reached.
    Terminal,
    /// A shutdown signal was received.
    Interrupted,
    /// A fatal execution error occurred.
    Error,
    /// The configured step limit was reached.
    StepLimitReached,
}

/// The label of a tag.
pub open spec fn tag_label(tag: ExitReasonTag) -> Seq<char> {
    match tag {
        ExitReasonTag::Terminal => "terminal"@,
        ExitReasonTag::Interrupted => "interrupted"@,
        ExitReasonTag::Error => "error"@,
        ExitReasonTag::StepLimitReached => "step_limit_reached"@,
    }
}

impl ExitReasonTag {
    /// Human-readable label for log messages.
    pub fn as_str(&self) -> (s: &'static str)
        ensures
            s@ == tag_label(*self),
    {
        match self {
            ExitReasonTag::Terminal => "terminal",
            ExitReasonTag::Interrupted => "interrupted",
            ExitReasonTag::Error => "error",
            ExitReasonTag::StepLimitReached => "step_limit_reached",
        }
    }

    /// The label as an owned string.
    pub fn to_string(&self) -> (s: String)
        ensures
            s@ == tag_label(*self),
    {
        String::from_str(self.as_str())
    }
}

/// A snapshot of a stopped run.
#[derive(Debug, Clone, PartialEq, Eq)]
pub struct HeadlessRunState {
    /// The state the machine was in (or about to enter) when it stopped.
    pub current_state: String,
    /// Number of loop iterations at the time of stopping.
    pub iteration: usize,
    /// Why the run stopped.
    pub exit_reason: ExitReasonTag,
    /// Signal name, error message or step count, when there is one.
    pub exit_detail: Option<String>,
    /// RFC 3339 timestamp of when the snapshot was taken.
    pub timestamp: String,
}

/// `<root>/.calypso/headless-state.json`, joined as a path is.
pub open spec fn snapshot_path(root: Seq<char>) -> Seq<char> {
    if root.len() == 0 {
        ".calypso/headless-state.json"@
    } else if root.last() == '/' {
        root + ".calypso/headless-state.json"@
    } else {
        root + "/.calypso/headless-state.json"@
    }
}

impl HeadlessRunState {
    /// The default snapshot path inside a repository root.
    pub fn default_path(repo_root: &str) -> (p: String)
        ensures
            p@ == snapshot_path(repo_root@),
    {
        let n: usize = repo_root.unicode_len();
        if n == 0 {
            String::from_str(".calypso/headless-state.json")
        } else if repo_root.get_char(n - 1) == '/' {
            let mut s = String::from_str(repo_root);
            s.append(".calypso/headless-state.json");
            s
        } else {
            let mut s = String::from_str(repo_root);
            s.append("/.calypso/headless-state.json");
            s
        }
    }
}

/// The RFC 3339 text chrono gives for a UTC instant
/// (`DateTime::<Utc>::from_timestamp(secs, nanos)` then `to_rfc3339`), or
/// `None` when the instant is outside chrono's range: a function of the two
/// numbers alone.
pub uninterp spec fn chrono_rfc3339(secs: int, nanos: nat) -> Option<Seq<char>>;

/// Formats a UTC instant given as seconds and nanoseconds since the epoch
/// (`DateTime::<Utc>::from_timestamp`, then `DateTime::to_rfc3339`).
///
/// Trusted: the text is named (`chrono_rfc3339`), not spelled out.
#[verifier::external_body]
fn rfc3339_of(secs: i64, nanos: u32) -> (r: Option<String>)
    ensures
        match r {
            Some(t) => chrono_rfc3339(secs as int, nanos as nat) == Some(t@),
            None => chrono_rfc3339(secs as int, nanos as nat) is None,
        },
{
    chrono::DateTime::<chrono::Utc>::from_timestamp(secs, nanos).map(|t| t.to_rfc3339())
}

/// The current UTC time as RFC 3339, as chrono formats it
/// (`Utc::now().to_rfc3339()`); when the clock reads outside chrono's range,
/// the time as `YYYY-MM-DDTHH:MM:SSZ` (the epoch for a time before it).
pub fn now_rfc3339() -> (r: String)
    ensures
        exists|secs: i64, nanos: u32|
            nanos < 1_000_000_000 && r@ == (match #[trigger] chrono_rfc3339(secs as int, nanos as nat) {
                Some(t) => t,
                None => crate::timefmt::epoch_text(if secs < 0 { 0 } else { secs as nat }),
            }),
{
    let (secs, nanos) = crate::timefmt::clock_instant();
    let r = match rfc3339_of(secs, nanos) {
        Some(t) => t,
        None => crate::timefmt::format_epoch_seconds(if secs < 0 { 0u64 } else { secs as u64 }),
    };
    proof {
        assert(nanos < 1_000_000_000 && r@ == (match chrono_rfc3339(secs as int, nanos as nat) {
            Some(t) => t,
            None => crate::timefmt::epoch_text(if secs < 0 { 0 } else { secs as nat }),
        }));
    }
    r
}

} // verus!
