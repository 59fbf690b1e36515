//! The screen modes of the application and the list filter mode.
use vstd::prelude::*;

verus! {

/// A prefix waiting to be deleted: its path, its game's name, its size.
pub type PendingDelete = (String, String, u64);

/// What the screen shows and how keys are read.
#[derive(Debug, Clone, PartialEq)]
pub enum AppMode {
    /// The first scan has not finished yet.
    Startup,
    Normal,
    FilterText,
    /// step 1 = first confirm, step 2 = second confirm (no cloud save)
    ConfirmDelete { step: u8 },
    /// Deletion is in progress. One item is removed per event-loop tick so the
    /// UI can show which prefix is currently being deleted.
    Deleting {
        /// Items still waiting to be removed from disk.
        pending: Vec<PendingDelete>,
        /// Name displayed in the loading overlay for the current item.
        current: String,
    },
    ManageDirs,
    RunExe { prefix_idx: usize, input: String },
    Help,
    Error(String),
}

/// Which prefixes the list shows.
#[derive(Debug, Clone, Copy, PartialEq, Eq, Structural)]
pub enum FilterMode {
    All,
    UninstalledOnly,
}

} // verus!
