//! Mesai: the logic of a small study-time tracker.
//!
//! The library holds what the tracker decides and computes: the running
//! timer, the session database and its edits, the statistics screen, the
//! CSV export, the file-name rules for attachments, the text formats of
//! durations and dates, and the texts of the interface in English and
//! Turkish. Windows, files and the clock are left to the caller.

pub mod lang;
pub mod text;
pub mod clock;
pub mod format;
pub mod timer;
pub mod model;
pub mod stats;
pub mod paths;
pub mod state;
pub mod csv;
pub mod backup;
