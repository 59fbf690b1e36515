//! Management of Steam Wine/Proton prefixes: the parsers for Steam's files,
//! the discovery of prefixes from what the file system shows, and the state
//! of the prefix list (filtering, sorting, selection, deletion).
pub mod text;
pub mod paths;
pub mod steam;
pub mod app_types;
pub mod ordering;
pub mod state;
pub mod ui;
