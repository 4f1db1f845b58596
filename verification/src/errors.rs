use vstd::prelude::*;

verus! {

/// Why the program could not show the tasks.
#[derive(Clone, Copy, Debug, PartialEq, Eq)]
pub enum Error {
    /// None of the file names that a Taskfile may have exists in the
    /// directory that was searched.
    NotFound,
    /// The Taskfile exists and could not be read.
    UnreadableFile,
    /// The Taskfile does not have the expected structure.
    ParseError,
    /// The Taskfile declares a version other than the supported one.
    UnsupportedVersion,
    /// The Taskfile defines no task.
    NoTasksFound,
    /// Drawing on the terminal or reading its input failed.
    TerminalIOError,
    /// The Taskfile of the home directory was asked for and there is no home
    /// directory to be found.
    HomeDirUnavailable,
}

impl Error {
    /// The message for the user, as a sequence of chars.
    pub open spec fn text(self) -> Seq<char> {
        match self {
            Error::NotFound => "Could not find Taskfile"@,
            Error::UnreadableFile => "Could not read found Taskfile"@,
            Error::ParseError => "Could not parse Taskfile."@,
            Error::UnsupportedVersion => "Unsupported Taskfile version. Supported version is 3"@,
            Error::NoTasksFound => "No tasks found"@,
            Error::TerminalIOError => "Terminal input or output failed"@,
            Error::HomeDirUnavailable => "Could not find home path."@,
        }
    }

    /// The message for the user.
    pub fn message(&self) -> (m: &'static str)
        ensures
            m@ == self.text(),
    {
        match self {
            Error::NotFound => "Could not find Taskfile",
            Error::UnreadableFile => "Could not read found Taskfile",
            Error::ParseError => "Could not parse Taskfile.",
            Error::UnsupportedVersion => "Unsupported Taskfile version. Supported version is 3",
            Error::NoTasksFound => "No tasks found",
            Error::TerminalIOError => "Terminal input or output failed",
            Error::HomeDirUnavailable => "Could not find home path.",
        }
    }
}

} // verus!
