//! Log files that rotate: the decisions, without the files.
//!
//! A sink stands before a log file and is asked before every write. Its
//! policy says whether the file is rotated away first, by size or by time,
//! and which files move where. The caller holds the file handle and the
//! clock, reports what is on disk, and carries out what the sink plans.

pub mod clock;
pub mod config;
pub mod laws;
pub mod names;
pub mod plan;
pub mod sink;
pub mod size;
pub mod text;
pub mod timed;
