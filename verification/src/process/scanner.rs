//! Process enumeration: the command-line parsing part. Reading `/proc` is
//! left to the program around the library.
use vstd::prelude::*;
use crate::text::{cmdline_arguments, cmdline_executable, split_cmdline, string_from_chars, string_views};

verus! {

/// A running process as read from `/proc`.
pub struct ProcessInfo {
    pub pid: u32,
    pub executable_path: String,
    pub arguments: Vec<String>,
}

/// The plain content of a process.
pub struct ProcessView {
    pub pid: u32,
    pub path: Seq<char>,
    pub args: Seq<Seq<char>>,
}

impl View for ProcessInfo {
    type V = ProcessView;

    open spec fn view(&self) -> ProcessView {
        ProcessView { pid: self.pid, path: self.executable_path@, args: string_views(self.arguments@) }
    }
}

/// Scans the processes listed under a `proc` directory.
pub struct ProcessScanner {
    proc_path: String,
}

impl ProcessScanner {
    /// A scanner of `/proc`.
    pub fn new() -> (r: Self)
        ensures
            r.proc_path() == "/proc"@,
    {
        ProcessScanner { proc_path: string_from_chars(crate::text::chars_of("/proc").as_slice()) }
    }

    /// The directory that is scanned.
    pub closed spec fn proc_path(&self) -> Seq<char> {
        self.proc_path@
    }

    /// The directory that is scanned.
    pub fn get_proc_path(&self) -> (r: &str)
        ensures
            r@ == self.proc_path(),
    {
        self.proc_path.as_str()
    }

    /// Splits the content of a `cmdline` file into the executable and its
    /// arguments (see `cmdline_executable` and `cmdline_arguments`).
    pub fn parse_cmdline(&self, content: &str) -> (r: (String, Vec<String>))
        ensures
            r.0@ == cmdline_executable(content@),
            string_views(r.1@) == cmdline_arguments(content@),
    {
        split_cmdline(content)
    }
}

impl Default for ProcessScanner {
    fn default() -> (r: Self)
        ensures
            r.proc_path() == "/proc"@,
    {
        ProcessScanner::new()
    }
}

} // verus!
