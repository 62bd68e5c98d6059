//! The core of a package manager for a JavaScript runtime.
//!
//! Given the dependencies that a project lists, with a version constraint
//! for each, the core decides which version of each package is installed,
//! where its archive is kept and unpacked, in which order its scripts
//! run, and what the lockfile records. It answers two questions about
//! the result: which installed packages are still needed, and why a
//! package is installed at all.
//!
//! The library reads no file and opens no connection. Its functions take
//! what was read and say what is to be done; the program around it does
//! the reading and the doing.

use vstd::prelude::*;

pub mod cache;
pub mod config;
pub mod depmap;
pub mod explorer;
pub mod extract;
pub mod install;
pub mod linker;
pub mod manifest;
pub mod prune;
pub mod registry;
pub mod resolver;
pub mod runner;
pub mod safety;
pub mod section;
pub mod task;
pub mod text;
pub mod ui;

verus! {

/// The number of downloads that may run at the same time.
pub const MAX_CONCURRENT_DOWNLOADS: usize = 10;

} // verus!
