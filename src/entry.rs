//! One tracked process: its record and its lifecycle status.

use vstd::prelude::*;
use crate::text::same_text;

verus! {

/// Where a tracked process stands. `Running` is the only status that ever
/// changes; the other three are terminal.
#[derive(Clone, Copy, Debug, PartialEq, Eq, Structural)]
pub enum Status {
    Running,
    Completed,
    KilledManual,
    KilledTimeout,
}

/// The persisted spelling of each status.
pub open spec fn status_text(s: Status) -> Seq<char> {
    match s {
        Status::Running => "running"@,
        Status::Completed => "completed"@,
        Status::KilledManual => "killed (manual)"@,
        Status::KilledTimeout => "killed (timeout)"@,
    }
}

/// Reads a persisted status. A spelling that names no status is read as
/// `Completed`: an unknown status is terminal, and nothing acts on it again.
pub open spec fn status_of_text(t: Seq<char>) -> Status {
    if t == "running"@ {
        Status::Running
    } else if t == "killed (manual)"@ {
        Status::KilledManual
    } else if t == "killed (timeout)"@ {
        Status::KilledTimeout
    } else {
        Status::Completed
    }
}

impl Status {
    /// The spelling under which the status is stored.
    pub fn as_text(&self) -> (r: &'static str)
        ensures
            r@ == status_text(*self),
    {
        match self {
            Status::Running => "running",
            Status::Completed => "completed",
            Status::KilledManual => "killed (manual)",
            Status::KilledTimeout => "killed (timeout)",
        }
    }

    /// Reads a stored spelling back.
    pub fn from_text(t: &str) -> (r: Status)
        ensures
            r == status_of_text(t@),
    {
        if same_text(t, "running") {
            Status::Running
        } else if same_text(t, "killed (manual)") {
            Status::KilledManual
        } else if same_text(t, "killed (timeout)") {
            Status::KilledTimeout
        } else {
            Status::Completed
        }
    }

    pub fn is_running(&self) -> (r: bool)
        ensures
            r == (*self == Status::Running),
    {
        match self {
            Status::Running => true,
            _ => false,
        }
    }
}

/// What the table records of one launched process. Times are milliseconds
/// since the Unix epoch; the timeout is a duration in milliseconds.
#[derive(Clone, Debug)]
pub struct ProcessInfo {
    pub cmd_str: String,
    pub log_file: String,
    pub status: Status,
    pub start_time_ms: u64,
    pub timeout_ms: Option<u64>,
    pub script_name: String,
    pub working_dir: String,
    pub display_name: String,
}

/// The mathematical value of a `ProcessInfo`.
pub struct ProcessRecord {
    pub cmd: Seq<char>,
    pub log_file: Seq<char>,
    pub status: Status,
    pub start_time_ms: u64,
    pub timeout_ms: Option<u64>,
    pub script_name: Seq<char>,
    pub working_dir: Seq<char>,
    pub display_name: Seq<char>,
}

impl View for ProcessInfo {
    type V = ProcessRecord;

    open spec fn view(&self) -> ProcessRecord {
        ProcessRecord {
            cmd: self.cmd_str@,
            log_file: self.log_file@,
            status: self.status,
            start_time_ms: self.start_time_ms,
            timeout_ms: self.timeout_ms,
            script_name: self.script_name@,
            working_dir: self.working_dir@,
            display_name: self.display_name@,
        }
    }
}

impl ProcessInfo {
    /// A copy with the same value.
    pub fn duplicate(&self) -> (r: ProcessInfo)
        ensures
            r@ == self@,
    {
        ProcessInfo {
            cmd_str: self.cmd_str.clone(),
            log_file: self.log_file.clone(),
            status: self.status,
            start_time_ms: self.start_time_ms,
            timeout_ms: self.timeout_ms,
            script_name: self.script_name.clone(),
            working_dir: self.working_dir.clone(),
            display_name: self.display_name.clone(),
        }
    }
}

/// A tracked process under its OS process id.
#[derive(Clone, Debug)]
pub struct ProcessEntry {
    pub pid: u32,
    pub info: ProcessInfo,
}

impl View for ProcessEntry {
    type V = (u32, ProcessRecord);

    open spec fn view(&self) -> (u32, ProcessRecord) {
        (self.pid, self.info@)
    }
}

impl ProcessEntry {
    /// A copy with the same value.
    pub fn duplicate(&self) -> (r: ProcessEntry)
        ensures
            r@ == self@,
    {
        ProcessEntry { pid: self.pid, info: self.info.duplicate() }
    }
}

} // verus!
