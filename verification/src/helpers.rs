//! Helpers around host commands: their outcome, and what the library makes
//! of the outputs of `git` and `gh`.
use crate::error::{error_is, CalypsoError, Recoverability};
use crate::state::{BuiltinEvidence, PullRequestRef};
use crate::text::owned;
use vstd::prelude::*;

verus! {

/// The outcome of a host command that ran: its trimmed standard output, or
/// the failure message.
#[derive(Debug, Clone, PartialEq, Eq)]
pub enum CommandOutput {
    Success(String),
    Failure(String),
}

/// The placeholder for a pull request that does not exist.
pub fn missing_pull_request_ref() -> (r: PullRequestRef)
    ensures
        r.number == 0,
        r.url@.len() == 0,
{
    PullRequestRef { number: 0, url: String::new() }
}

/// Evidence that no pull request exists: the existence check failed.
pub fn missing_pull_request_evidence() -> (e: BuiltinEvidence)
    ensures
        e.status_of("builtin.github.pr_exists"@) == Some(crate::state::EvidenceStatus::Failing),
        forall|k: Seq<char>| k != "builtin.github.pr_exists"@ ==> e.status_of(k) is None,
{
    BuiltinEvidence::new().with_result("builtin.github.pr_exists", false)
}

/// The repository root from `git rev-parse --show-toplevel`.
pub fn repo_root_from(output: CommandOutput) -> (r: Result<String, CalypsoError>)
    ensures
        match output {
            CommandOutput::Success(o) => r matches Ok(s) && s@ == o@,
            CommandOutput::Failure(m) => r matches Err(e) && error_is(
                e,
                "repo_root_not_found"@,
                "not inside a git repository: "@ + m@,
                Recoverability::UserActionRequired,
            ),
        },
{
    match output {
        CommandOutput::Success(o) => Ok(o),
        CommandOutput::Failure(m) => {
            let mut msg = String::from_str("not inside a git repository: ");
            msg.append(m.as_str());
            Err(CalypsoError::repo_root_not_found(msg.as_str()))
        },
    }
}

/// The current branch from `git branch --show-current`.
pub fn branch_from(output: CommandOutput) -> (r: Result<String, CalypsoError>)
    ensures
        match output {
            CommandOutput::Success(o) => r matches Ok(s) && s@ == o@,
            CommandOutput::Failure(m) => r matches Err(e) && error_is(
                e,
                "git"@,
                "could not determine current branch: "@ + m@,
                Recoverability::Unrecoverable,
            ),
        },
{
    match output {
        CommandOutput::Success(o) => Ok(o),
        CommandOutput::Failure(m) => {
            let mut msg = String::from_str("could not determine current branch: ");
            msg.append(m.as_str());
            Err(CalypsoError::git(msg.as_str()))
        },
    }
}

/// The outcome of looking up the open pull request of a branch when `gh`
/// failed: "no pull requests found" means there is none; any other failure
/// is a GitHub API error.
pub fn pull_request_lookup_failure(message: &str) -> (r: Result<Option<PullRequestRef>, CalypsoError>)
    ensures
        crate::text::seq_contains_sub(message@, "no pull requests found"@) ==> r matches Ok(None),
        !crate::text::seq_contains_sub(message@, "no pull requests found"@) ==> (r matches Err(e) && error_is(
            e,
            "github_api"@,
            message@,
            Recoverability::Recoverable,
        )),
{
    if crate::text::str_contains(message, "no pull requests found") {
        Ok(None)
    } else {
        Err(CalypsoError::github_api(message))
    }
}

} // verus!
