//! A directory-scoped file organizer: rules select files by a plain
//! substring of their name, rewrite the name by a fold of replacements, and
//! send the file to a destination directory.
//!
//! `scan` picks the candidate files of a directory listing in a fixed order,
//! `engine` finds each one's rule, name and destination, and `transfer`
//! decides, one answer of the file system at a time, how the file is moved.
//! Reading the directory and touching the file system is left to the caller.
use vstd::prelude::*;

pub mod config;
pub mod engine;
pub mod scan;
pub mod text;
pub mod transfer;

verus! {

} // verus!
