//! Verified core of the nightshift engine: headless state machines and their
//! driver, the workflow interpreter, key management, audits and renderers.
pub mod agents;
pub mod blueprint_workflows;
pub mod db;
pub mod gha;
pub mod doctor;
pub mod error;
pub mod github;
pub mod headless_persist;
pub mod headless_sm;
pub mod headless_sm_driver;
pub mod helpers;
pub mod interpreter;
pub mod interpreter_scheduler;
pub mod keys;
pub mod named;
pub mod orchestrator;
pub mod order;
pub mod pinned_prompt;
pub mod signal;
pub mod sm_audit;
pub mod state;
pub mod status;
pub mod text;
pub mod timefmt;
pub mod workflows;

use vstd::prelude::*;

verus! {

/// Build metadata shown by `--version` and `--help`.
#[derive(Debug, Clone, Copy, PartialEq, Eq)]
pub struct BuildInfo<'a> {
    pub version: &'a str,
    pub git_hash: &'a str,
    pub build_time: &'a str,
    pub git_tags: &'a str,
}

/// The one-line version banner.
pub open spec fn version_text(version: Seq<char>, hash: Seq<char>, built: Seq<char>, tags: Seq<char>) -> Seq<char> {
    "calypso-cli "@ + version + " git:"@ + hash + " built:"@ + built + " tags:"@ + tags
}

/// `calypso-cli <version> git:<hash> built:<time> tags:<tags>`.
pub fn render_version(info: BuildInfo<'_>) -> (r: String)
    ensures
        r@ == version_text(info.version@, info.git_hash@, info.build_time@, info.git_tags@),
{
    let mut s = String::from_str("calypso-cli ");
    s.append(info.version);
    s.append(" git:");
    s.append(info.git_hash);
    s.append(" built:");
    s.append(info.build_time);
    s.append(" tags:");
    s.append(info.git_tags);
    s
}

/// The help text, from the usage line to the build-metadata label.
pub open spec fn help_body() -> Seq<char> {
    "\n\nUsage:\n  calypso [OPTIONS] [path] [COMMAND]\n\nOptions:\n  -p, --path <dir>    Project directory (default: current working directory)\n  -h, --help          Show this help output\n  -v, --version       Show build version information\n  -v, -vv             Verbosity: -v = info, -vv = trace (default: debug)\n  --json              Emit JSON-lines instead of human-readable text\n\nPositional:\n  [path]              Project directory (alternative to --path)\n\nCommands:\n  (none)              Drive the state machine for the project directory\n  --step              Drive the state machine one step at a time\n  doctor              Check local prerequisites and environment\n  doctor --json       Output doctor results as JSON (exit 1 if any failing)\n  doctor --fix <id>   Apply an available fix for a doctor check\n  status              Render the feature status for the project directory\n  state               Alias for `state status`\n  state --json        Alias for `state status --json`\n  state status        Show a human-readable summary of .calypso/repository-state.json\n  state status --json Output state status as JSON\n  state show          Print the current state file as raw JSON\n  agents              Show active agent sessions\n  agents --json       Output agent sessions as JSON\n  init                Initialise a repository for Calypso\n  init --reinit       Re-initialise an already-initialised repository\n  init --json         Initialise and output results as JSON\n  init --status       Show current init state machine progress\n  init --step <step>  Manually trigger a specific init step\n  init --refresh      Refresh/overwrite GitHub Actions workflow files\n  init --org <org> --repo <name>\n                      Create upstream GitHub remote during init\n  feature-start <id> --worktree-base <path>\n                      Create a feature branch, worktree, draft PR, and state file\n  template validate   Validate the local workflow template\n  workflows list      List all embedded blueprint workflow names\n  workflows show <name>\n                      Print the raw YAML for the named blueprint workflow\n  workflows validate <name>\n                      Parse the named workflow and report OK or the parse error\n  webview             Start a local HTTP server (port 7373) with live state UI\n  webview --port <N>  Start the webview server on a custom port\n  keys list           List all managed keys with metadata\n  keys list --json    List managed keys as JSON\n  keys rotate <name>  Rotate the named key (generates new material, archives old)\n  keys revoke <name>  Revoke the named key (marks it unusable)\n\nGit hash: "@
}

/// The help output: the banner with the version, usage, options,
/// positional arguments and commands, then the build metadata.
pub open spec fn help_text(version: Seq<char>, hash: Seq<char>, built: Seq<char>, tags: Seq<char>) -> Seq<char> {
    "calypso-cli "@ + version + help_body() + hash + "  Built: "@ + built + "  Tags: "@ + tags
}

/// The `--help` output.
pub fn render_help(info: BuildInfo<'_>) -> (r: String)
    ensures
        r@ == help_text(info.version@, info.git_hash@, info.build_time@, info.git_tags@),
{
    let mut s = String::from_str("calypso-cli ");
    s.append(info.version);
    s.append(
        "\n\nUsage:\n  calypso [OPTIONS] [path] [COMMAND]\n\nOptions:\n  -p, --path <dir>    Project directory (default: current working directory)\n  -h, --help          Show this help output\n  -v, --version       Show build version information\n  -v, -vv             Verbosity: -v = info, -vv = trace (default: debug)\n  --json              Emit JSON-lines instead of human-readable text\n\nPositional:\n  [path]              Project directory (alternative to --path)\n\nCommands:\n  (none)              Drive the state machine for the project directory\n  --step              Drive the state machine one step at a time\n  doctor              Check local prerequisites and environment\n  doctor --json       Output doctor results as JSON (exit 1 if any failing)\n  doctor --fix <id>   Apply an available fix for a doctor check\n  status              Render the feature status for the project directory\n  state               Alias for `state status`\n  state --json        Alias for `state status --json`\n  state status        Show a human-readable summary of .calypso/repository-state.json\n  state status --json Output state status as JSON\n  state show          Print the current state file as raw JSON\n  agents              Show active agent sessions\n  agents --json       Output agent sessions as JSON\n  init                Initialise a repository for Calypso\n  init --reinit       Re-initialise an already-initialised repository\n  init --json         Initialise and output results as JSON\n  init --status       Show current init state machine progress\n  init --step <step>  Manually trigger a specific init step\n  init --refresh      Refresh/overwrite GitHub Actions workflow files\n  init --org <org> --repo <name>\n                      Create upstream GitHub remote during init\n  feature-start <id> --worktree-base <path>\n                      Create a feature branch, worktree, draft PR, and state file\n  template validate   Validate the local workflow template\n  workflows list      List all embedded blueprint workflow names\n  workflows show <name>\n                      Print the raw YAML for the named blueprint workflow\n  workflows validate <name>\n                      Parse the named workflow and report OK or the parse error\n  webview             Start a local HTTP server (port 7373) with live state UI\n  webview --port <N>  Start the webview server on a custom port\n  keys list           List all managed keys with metadata\n  keys list --json    List managed keys as JSON\n  keys rotate <name>  Rotate the named key (generates new material, archives old)\n  keys revoke <name>  Revoke the named key (marks it unusable)\n\nGit hash: ",
    );
    s.append(info.git_hash);
    s.append("  Built: ");
    s.append(info.build_time);
    s.append("  Tags: ");
    s.append(info.git_tags);
    s
}

} // verus!
