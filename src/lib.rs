//! Builds a single archive out of a directory tree, with progress tracking.
//!
//! The modules hold the logic that decides what goes into the archive and how
//! progress is counted; reading the file system and drawing the terminal
//! display are left to the caller, who hands plain values in.

pub mod entry;
pub mod progress;
pub mod gateway;
pub mod processing;
pub mod pipeline;
pub mod encode;
pub mod status;
