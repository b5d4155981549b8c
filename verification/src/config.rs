//! The workspace: its configuration, its capture window state, and the
//! on-disk layout of its files.
//!
//! A workspace lives under `.mongobar/<name>/` below the working
//! directory and holds the primary op log, the two generated
//! compensating logs, the exported data log, and a state file. Paths are
//! built here as plain slash-separated strings; reading and writing the
//! files is the caller's work.

use vstd::prelude::*;

use crate::metrics::Indicator;
use crate::signal::Signal;

verus! {

/// The run configuration read at startup and merged with flags.
#[derive(Debug)]
pub struct MongobarConfig {
    /// The target connection string.
    pub uri: String,
    /// The target database.
    pub db: String,
    /// Workers per run.
    pub thread_count: u32,
    /// Passes per worker.
    pub loop_count: usize,
    /// Regenerate the compensating logs before a replay.
    pub rebuild: Option<bool>,
}

impl MongobarConfig {
    /// The defaults a fresh configuration file gets: ten workers, a
    /// thousand passes, empty names.
    pub fn new_default() -> (r: MongobarConfig)
        ensures
            r.uri@ == Seq::<char>::empty(),
            r.db@ == Seq::<char>::empty(),
            r.thread_count == 10,
            r.loop_count == 1000,
            r.rebuild is None,
    {
        MongobarConfig {
            uri: String::new(),
            db: String::new(),
            thread_count: 10,
            loop_count: 1000,
            rebuild: None,
        }
    }
}

/// The capture window and stress timestamps kept in the state file.
#[derive(Debug)]
pub struct OpState {
    /// The stress cursor.
    pub stress_index: i64,
    /// When the last stress began, in milliseconds.
    pub stress_start_ts: i64,
    /// When the last stress ended, in milliseconds.
    pub stress_end_ts: i64,
    /// When the capture began, in milliseconds.
    pub record_start_ts: i64,
    /// When the capture ended, in milliseconds.
    pub record_end_ts: i64,
}

impl Default for OpState {
    /// A fresh state: every timestamp zero.
    fn default() -> (r: OpState)
        ensures
            r.stress_index == 0,
            r.stress_start_ts == 0,
            r.stress_end_ts == 0,
            r.record_start_ts == 0,
            r.record_end_ts == 0,
    {
        OpState {
            stress_index: 0,
            stress_start_ts: 0,
            stress_end_ts: 0,
            record_start_ts: 0,
            record_end_ts: 0,
        }
    }
}

/// One workspace, with its file paths, configuration and state.
pub struct Mongobar {
    /// The workspaces' root: the working directory and `.mongobar`.
    pub dir: String,
    /// The workspace name.
    pub name: String,
    /// The workspace directory.
    pub op_workdir: String,
    /// The primary op log.
    pub op_file_oplogs: String,
    /// The generated rollback log.
    pub op_file_revert: String,
    /// The generated reconciliation log.
    pub op_file_resume: String,
    /// The exported snapshot log.
    pub op_file_data: String,
    /// The state file.
    pub op_state_file: String,
    /// The capture window and stress timestamps.
    pub op_state: OpState,
    /// The run configuration.
    pub config: MongobarConfig,
    /// The run metrics registry.
    pub indicator: Indicator,
    /// The cooperative stop word.
    pub signal: Signal,
}

impl Mongobar {
    /// Lays out a workspace under the working directory: the root is
    /// `<cwd>/.mongobar`, the workspace sits under it by name, and the
    /// five files sit inside with their fixed names.
    pub fn new(cur_cwd: &str, name: &str) -> (r: Mongobar)
        ensures
            r.dir@ == cur_cwd@ + "/.mongobar"@,
            r.name@ == name@,
            r.op_workdir@ == cur_cwd@ + "/.mongobar"@ + "/"@ + name@,
            r.op_file_oplogs@ == r.op_workdir@ + "/oplogs.op"@,
            r.op_file_revert@ == r.op_workdir@ + "/revert.op"@,
            r.op_file_resume@ == r.op_workdir@ + "/resume.op"@,
            r.op_file_data@ == r.op_workdir@ + "/data.op"@,
            r.op_state_file@ == r.op_workdir@ + "/state.json"@,
            r.config.thread_count == 10,
            r.config.loop_count == 1000,
            r.signal.spec_get() == crate::signal::SIG_RUNNING,
    {
        let mut dir: String = cur_cwd.to_owned();
        dir.append("/.mongobar");
        let mut workdir: String = dir.clone();
        workdir.append("/");
        workdir.append(name);
        let mut op_file_oplogs = workdir.clone();
        op_file_oplogs.append("/oplogs.op");
        let mut op_file_revert = workdir.clone();
        op_file_revert.append("/revert.op");
        let mut op_file_resume = workdir.clone();
        op_file_resume.append("/resume.op");
        let mut op_file_data = workdir.clone();
        op_file_data.append("/data.op");
        let mut op_state_file = workdir.clone();
        op_state_file.append("/state.json");
        Mongobar {
            dir,
            name: name.to_owned(),
            op_workdir: workdir,
            op_file_oplogs,
            op_file_revert,
            op_file_resume,
            op_file_data,
            op_state_file,
            op_state: OpState::default(),
            config: MongobarConfig::new_default(),
            indicator: Indicator::new(),
            signal: Signal::new(),
        }
    }

    /// The workspace directory.
    pub fn cwd(&self) -> (r: String)
        ensures
            r@ == self.dir@ + "/"@ + self.name@,
    {
        let mut r = self.dir.clone();
        r.append("/");
        r.append(&self.name);
        r
    }

    /// Takes a rebuild choice into the configuration.
    pub fn merge_config_rebuild(&mut self, rebuild: Option<bool>)
        ensures
            final(self).config.rebuild == rebuild,
            final(self).config.uri == old(self).config.uri,
            final(self).config.db == old(self).config.db,
            final(self).config.thread_count == old(self).config.thread_count,
            final(self).config.loop_count == old(self).config.loop_count,
    {
        self.config.rebuild = rebuild;
    }

    /// Takes a connection string into the configuration when one is
    /// given; keeps the configured one otherwise.
    pub fn merge_config_uri(&mut self, uri: Option<String>)
        ensures
            match uri {
                Option::Some(u) => final(self).config.uri == u,
                Option::None => final(self).config.uri == old(self).config.uri,
            },
            final(self).config.rebuild == old(self).config.rebuild,
            final(self).config.db == old(self).config.db,
            final(self).config.thread_count == old(self).config.thread_count,
            final(self).config.loop_count == old(self).config.loop_count,
    {
        if let Some(u) = uri {
            self.config.uri = u;
        }
    }

    /// Takes a loop count into the configuration when one is given.
    pub fn merge_config_loop_count(&mut self, loop_count: Option<usize>)
        ensures
            match loop_count {
                Option::Some(n) => final(self).config.loop_count == n,
                Option::None => final(self).config.loop_count == old(self).config.loop_count,
            },
            final(self).config.uri == old(self).config.uri,
    {
        if let Some(n) = loop_count {
            self.config.loop_count = n;
        }
    }

    /// Takes a thread count into the configuration when one is given.
    pub fn merge_config_thread_count(&mut self, thread_count: Option<u32>)
        ensures
            match thread_count {
                Option::Some(n) => final(self).config.thread_count == n,
                Option::None => final(self).config.thread_count == old(self).config.thread_count,
            },
            final(self).config.uri == old(self).config.uri,
    {
        if let Some(n) = thread_count {
            self.config.thread_count = n;
        }
    }

    /// Whether a replay must regenerate the compensating logs first:
    /// when the rollback log is missing, or when a rebuild was asked for.
    pub fn replay_needs_rebuild(&self, revert_log_exists: bool) -> (r: bool)
        ensures
            r == (!revert_log_exists || self.config.rebuild == Option::Some(true)),
    {
        let forced = match self.config.rebuild {
            Some(b) => b,
            None => false,
        };
        !revert_log_exists || forced
    }

    /// The replay order: the rollback log single-threaded, then the op
    /// log at the configured width, then the reconciliation log
    /// single-threaded — each streamed once with writes enabled.
    pub fn replay_stages(&self) -> (r: Vec<(String, u32)>)
        ensures
            r@.len() == 3,
            r@[0].0@ == self.op_file_revert@ && r@[0].1 == 1,
            r@[1].0@ == self.op_file_oplogs@ && r@[1].1 == self.config.thread_count,
            r@[2].0@ == self.op_file_resume@ && r@[2].1 == 1,
    {
        let mut r: Vec<(String, u32)> = Vec::new();
        r.push((self.op_file_revert.clone(), 1));
        r.push((self.op_file_oplogs.clone(), self.config.thread_count));
        r.push((self.op_file_resume.clone(), 1));
        r
    }

    /// Replaces the run metrics registry.
    pub fn set_indicator(&mut self, indicator: Indicator)
        ensures
            final(self).indicator == indicator,
    {
        self.indicator = indicator;
    }

    /// Replaces the stop word.
    pub fn set_signal(&mut self, signal: Signal)
        ensures
            final(self).signal == signal,
    {
        self.signal = signal;
    }
}

} // verus!
