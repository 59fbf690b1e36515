//! The small value types of the application state: the screen modes, the
//! filter mode, the sortable columns and the directory dialog.
pub mod modal;
pub mod mode;
pub mod sort;
