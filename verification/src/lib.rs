use vstd::prelude::*;

pub mod app;
pub mod errors;
pub mod event;
pub mod selection;
pub mod text;
pub mod tui;
pub mod utils;

verus! {

/// The options of a run.
#[derive(Clone, Copy, Debug)]
pub struct Args {
    /// Look for the Taskfile of the home directory, not for that of the
    /// current directory.
    pub global: bool,
}

} // verus!
