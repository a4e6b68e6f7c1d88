//! The errors of process scanning and of loading the process database.
use vstd::prelude::*;

verus! {

/// Why reading the running processes failed.
#[derive(Debug)]
pub enum ProcessError {
    /// The process directory could not be listed; the text says why.
    ProcReadError(String),
    /// A directory entry that should name a process is not a number.
    PidParseError(String),
    /// The command line of a process could not be read.
    CmdlineReadError { pid: u32, source: String },
}

/// Why the process database could not be loaded.
#[derive(Debug)]
pub enum DatabaseError {
    LoadError { path: String, source: String },
    FileNotFound(String),
    IoError(String),
    ManagerError(String),
}

/// Why a detection run failed.
#[derive(Debug)]
pub enum DetectorError {
    ProcessError(ProcessError),
    DatabaseError(DatabaseError),
    SendError(String),
}

} // verus!
