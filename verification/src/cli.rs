//! The command line, and the help text that reports the optional tools
//! and the cron status.

use crate::fmt::{pad_left, pad_left_str, pad_right, pad_right_str};
use crate::text::{chars_of, concat3, lines, lines_of, owned, string_of, views, words, words_of};
use vstd::prelude::*;

verus! {

/// The parsed command line.
pub struct Cli {
    /// Path to config file
    pub config: Option<String>,
    /// Enable verbose output
    pub verbose: bool,
    /// Dry run: show what would be done without moving files
    pub dry_run: bool,
    /// Disable cache and force a full scan of all source directories
    pub no_cache: bool,
    /// Preserve subdirectory structure when moving files (enables recursive scanning)
    pub preserve_paths: bool,
    /// The subcommand, if any
    pub command: Option<Commands>,
}

/// Subcommands.
pub enum Commands {
    /// Manage the kondo cron job
    Cron {
        /// Action to perform
        action: CronAction,
        /// Cron schedule expression (used with install/reinstall)
        schedule: String,
    },
}

/// What to do with the cron job.
#[derive(Clone, Copy, PartialEq, Eq, Debug)]
pub enum CronAction {
    /// Install the cron job
    Install,
    /// Remove and re-install the cron job
    Reinstall,
    /// Remove the cron job
    Uninstall,
    /// Show current cron job status
    Status,
}

/// What one run of kondo does.
pub enum Task {
    /// Install the cron job on the schedule.
    InstallCron { schedule: String },
    /// Remove the cron job (ignoring a failure), then install it on the schedule.
    ReinstallCron { schedule: String },
    /// Remove the cron job.
    UninstallCron,
    /// Print the cron status.
    ShowCronStatus,
    /// Organize the source directories.
    Organize { dry_run: bool, verbose: bool },
}

impl Cli {
    /// The task this command line asks for: the cron subcommand's action,
    /// or organizing the files.
    pub fn task(&self) -> (t: Task)
        ensures
            match self.command {
                Some(Commands::Cron { action, schedule }) => match action {
                    CronAction::Install => t matches Task::InstallCron { schedule: s }
                        && s@ == schedule@,
                    CronAction::Reinstall => t matches Task::ReinstallCron { schedule: s }
                        && s@ == schedule@,
                    CronAction::Uninstall => t is UninstallCron,
                    CronAction::Status => t is ShowCronStatus,
                },
                None => t matches Task::Organize { dry_run, verbose } && dry_run == self.dry_run
                    && verbose == self.verbose,
            },
    {
        match &self.command {
            Some(Commands::Cron { action, schedule }) => match action {
                CronAction::Install => Task::InstallCron { schedule: schedule.clone() },
                CronAction::Reinstall => Task::ReinstallCron { schedule: schedule.clone() },
                CronAction::Uninstall => Task::UninstallCron,
                CronAction::Status => Task::ShowCronStatus,
            },
            None => Task::Organize { dry_run: self.dry_run, verbose: self.verbose },
        }
    }
}

/// Whether an optional tool was found, and its version.
pub struct ToolStatus {
    pub version: String,
    pub status_icon: String,
}

/// The version a tool reports: the last word of the first line of its
/// output, or `"unknown"`.
pub open spec fn version_text(stdout: Seq<char>) -> Seq<char> {
    let ls = lines(stdout);
    if ls.len() > 0 && words(ls[0]).len() > 0 {
        words(ls[0]).last()
    } else {
        "unknown"@
    }
}

/// The status of a tool from the output of `<tool> --version`: `output`
/// is its standard output when it ran and succeeded, `None` otherwise.
pub fn tool_status(output: Option<&str>) -> (t: ToolStatus)
    ensures
        match output {
            Some(out) => t.version@ == version_text(out@) && t.status_icon@ == "\u{2705}"@,
            None => t.version@ == "not found"@ && t.status_icon@ == "\u{274c}"@,
        },
{
    match output {
        Some(out) => {
            let v = chars_of(out);
            let ls = lines_of(&v);
            let mut version = owned("unknown");
            if ls.len() > 0 {
                assert(views(ls@)[0] == ls@[0]@);
                let ws = words_of(&ls[0]);
                if ws.len() > 0 {
                    assert(views(ws@).last() == ws@[ws.len() - 1]@);
                    version = string_of(&ws[ws.len() - 1]);
                }
            }
            ToolStatus { version, status_icon: owned("\u{2705}") }
        },
        None => ToolStatus { version: owned("not found"), status_icon: owned("\u{274c}") },
    }
}

/// One line of the tool table:
/// `format!("  {} {:<10} {:>12}  ({})\n", icon, name, version, purpose)`.
pub open spec fn tool_line(
    icon: Seq<char>,
    name: Seq<char>,
    version: Seq<char>,
    purpose: Seq<char>,
) -> Seq<char> {
    "  "@ + icon + " "@ + pad_right(name, 10) + " "@ + pad_left(version, 12) + "  ("@ + purpose
        + ")\n"@
}

/// The help text listing the optional tools and the cron status.
pub open spec fn help_text(
    dashify_icon: Seq<char>,
    dashify_version: Seq<char>,
    rkvr_icon: Seq<char>,
    rkvr_version: Seq<char>,
    cron_status: Seq<char>,
) -> Seq<char> {
    "OPTIONAL TOOLS:\n"@ + tool_line(dashify_icon, "dashify"@, dashify_version, "file renaming"@)
        + tool_line(rkvr_icon, "rkvr"@, rkvr_version, "safe file removal with recovery"@) + "\n"@
        + "CRON STATUS:\n  "@ + cron_status + "\n"@
        + "\nLogs are written to: ~/.local/share/kondo/logs/kondo.log"@
}

fn tool_line_string(icon: &str, name: &str, version: &str, purpose: &str) -> (r: String)
    ensures
        r@ == tool_line(icon@, name@, version@, purpose@),
{
    let mut r = concat3("  ", icon, " ");
    r.append(pad_right_str(name, 10).as_str());
    r.append(" ");
    r.append(pad_left_str(version, 12).as_str());
    r.append("  (");
    r.append(purpose);
    r.append(")\n");
    r
}

/// The help text that follows the usage: the optional tools and whether
/// they were found, the cron status, and where the logs go.
pub fn get_tool_validation_help(dashify: &ToolStatus, rkvr: &ToolStatus, cron_status: &str) -> (r:
    String)
    ensures
        r@ == help_text(
            dashify.status_icon@,
            dashify.version@,
            rkvr.status_icon@,
            rkvr.version@,
            cron_status@,
        ),
{
    let mut help = owned("OPTIONAL TOOLS:\n");
    help.append(
        tool_line_string(
            dashify.status_icon.as_str(),
            "dashify",
            dashify.version.as_str(),
            "file renaming",
        ).as_str(),
    );
    help.append(
        tool_line_string(
            rkvr.status_icon.as_str(),
            "rkvr",
            rkvr.version.as_str(),
            "safe file removal with recovery",
        ).as_str(),
    );
    help.append("\n");
    help.append(concat3("CRON STATUS:\n  ", cron_status, "\n").as_str());
    help.append("\nLogs are written to: ~/.local/share/kondo/logs/kondo.log");
    help
}

} // verus!
