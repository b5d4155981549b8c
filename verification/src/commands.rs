//! The command-line surface, as plain data.
//!
//! These are the arguments each subcommand carries. The process's
//! argument parser fills copies of them and hands them over; the library
//! holds the shapes so the rest of the logic can speak of them.

use vstd::prelude::*;

verus! {

/// Arguments of the capture command.
#[derive(Debug)]
pub struct OPRecord {
    /// The workspace name.
    pub target: String,
    /// Clean the workspace first.
    pub force: bool,
}

/// Arguments of the target-status commands.
#[derive(Debug)]
pub struct Stats {
    /// The target connection string.
    pub uri: Option<String>,
    /// The target database.
    pub db: Option<String>,
    /// The target collection.
    pub coll: Option<String>,
}

/// Arguments of the pull command.
#[derive(Debug)]
pub struct OPPull {
    /// The workspace name.
    pub target: String,
    /// The capture window: two timestamps separated by whitespace.
    pub time_range: String,
    /// Clean the workspace first.
    pub force: bool,
}

/// Arguments of the stress command.
#[derive(Debug)]
pub struct OPStress {
    /// The workspace name, or a path to copy in.
    pub target: String,
    /// Re-copy the source file over the workspace.
    pub update: Option<bool>,
    /// A regex over raw log lines choosing what replays.
    pub filter: Option<String>,
    /// Overrides the configured connection string.
    pub uri: Option<String>,
    /// Overrides the configured loop count.
    pub loop_count: Option<usize>,
    /// Overrides the configured thread count.
    pub thread_count: Option<usize>,
    /// Run only the reading handlers.
    pub readonly: bool,
    /// Fields to shed from inserted documents.
    pub ignore_field: Vec<String>,
}

/// Arguments of the replay family of commands.
#[derive(Debug)]
pub struct OPReplay {
    /// The workspace name, or a path to copy in.
    pub target: String,
    /// Re-copy the source file over the workspace.
    pub update: Option<bool>,
    /// Regenerate the compensating logs.
    pub rebuild: Option<bool>,
    /// Overrides the configured connection string.
    pub uri: Option<String>,
    /// Overrides the configured thread count.
    pub thread_count: Option<usize>,
}

/// Arguments of the import command.
#[derive(Debug)]
pub struct OPImport {
    /// The workspace name.
    pub target: String,
    /// The target connection string.
    pub uri: String,
    /// Regenerate the compensating logs.
    pub rebuild: Option<bool>,
}

/// Arguments of the save-as command.
#[derive(Debug)]
pub struct SaveAs {
    /// The workspace name.
    pub target: String,
    /// Where to save the log.
    pub outdir: String,
    /// Overwrite an existing file.
    pub force: bool,
}

/// Arguments of the dashboard command.
#[derive(Debug)]
pub struct UI {
    /// The workspace name, or a path to copy in.
    pub target: String,
    /// A regex over raw log lines choosing what replays.
    pub filter: Option<String>,
    /// Regenerate the compensating logs.
    pub rebuild: Option<bool>,
    /// Re-copy the source file over the workspace.
    pub update: Option<bool>,
    /// Overrides the configured connection string.
    pub uri: Option<String>,
    /// Overrides the configured loop count.
    pub loop_count: Option<usize>,
    /// Overrides the configured thread count.
    pub thread_count: Option<usize>,
    /// Run only the reading handlers.
    pub readonly: bool,
    /// Fields to shed from inserted documents.
    pub ignore_field: Vec<String>,
}

/// Arguments of the audit-analysis tool.
#[derive(Debug)]
pub struct Analyzer {
    /// The audit file.
    pub target: String,
    /// A regex over raw log lines.
    pub filter: Option<String>,
    /// Regenerate outputs.
    pub rebuild: Option<bool>,
    /// Overrides the configured connection string.
    pub uri: Option<String>,
    /// Overrides the configured loop count.
    pub loop_count: Option<usize>,
}

/// Arguments of the audit-conversion tool.
#[derive(Debug)]
pub struct Convert {
    /// The audit file.
    pub target: String,
    /// A regex over raw log lines.
    pub filter: Option<String>,
    /// Keep only rows of this database.
    pub filter_db: Option<String>,
    /// Regenerate outputs.
    pub rebuild: Option<bool>,
}

/// Arguments of the line-filter tool.
#[derive(Debug)]
pub struct Filter {
    /// The file to filter.
    pub target: String,
    /// The match text: a regex, or a key under mode matching.
    pub filter: String,
    /// Match records by their key instead of by regex.
    pub mode: bool,
}

/// The helper tools.
#[derive(Debug)]
pub enum Tool {
    /// Analyze an audit log.
    Ana(Analyzer),
    /// Convert an audit log into an op log.
    Cov(Convert),
    /// Filter a file's lines.
    Filter(Filter),
}

/// Every subcommand the process accepts.
#[derive(Debug)]
pub enum Commands {
    /// Capture profiler output into an op log.
    OPRecord(OPRecord),
    /// Pull a time window of operations into an op log.
    OPPull(OPPull),
    /// Replay the log under full fan-out for throughput.
    OPStress(OPStress),
    /// Replay in order with revert and resume around it.
    OPReplay(OPReplay),
    /// Roll the target back before a replay.
    OPRevert(OPReplay),
    /// Reconcile the target after a replay.
    OPResume(OPReplay),
    /// Build the reconciliation log without running it.
    OPBuildResume(OPReplay),
    /// Export touched documents to a data log.
    OPExport(OPReplay),
    /// Import an exported data log into a target.
    OPImport(OPImport),
    /// Save the workspace's op log elsewhere.
    SaveAs(SaveAs),
    /// Show the target's status.
    Stats(Stats),
    /// Show which indexes are used.
    IndexStatus(Stats),
    /// The helper tools.
    Tool(Tool),
    /// Run the dashboard.
    UI(UI),
}

/// The parsed command line.
#[derive(Debug)]
pub struct Cli {
    /// The chosen subcommand.
    pub commands: Commands,
}

} // verus!
