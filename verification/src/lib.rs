//! Decides whether an external command needs to re-run by comparing the
//! current content of the files a glob pattern matches against a record of
//! their content from the last successful run.
//!
//! The engine is handed the resolved snapshot — each matched path with its
//! current bytes — and the loaded cache state. Resolving patterns against
//! the filesystem, reading files and persisting the cache state are the
//! surrounding program's part; checking, diffing and recording are done and
//! specified here.

use vstd::prelude::*;

pub mod detect;
pub mod digest;
pub mod laws;
pub mod state;

pub use detect::check_glob;
pub use detect::write_glob;
pub use detect::GlobError;
pub use digest::hash_contents;
pub use state::GlobState;

verus! {

/// Outcome of comparing the current filesystem state against the
/// recorded cache state for one glob pattern.
#[derive(PartialEq, Eq, Structural, Debug)]
pub enum CheckResult {
    Changed,
    Unchanged,
}

} // verus!
