//! Depth-bounded scan of a directory tree for project roots, with a cleanup
//! action applied to each match.
//!
//! The traversal engine, its depth accounting, its error handling and the
//! classification of cleanup outcomes are verified here over a model of the
//! tree; the caller performs the actual directory listings and runs the
//! external cleanup tool, feeding observations back into the engine.

use vstd::prelude::*;

pub mod engine;
pub mod outcome;
pub mod runner;
pub mod scanner;
pub mod tree;

verus! {

/// A directory is a project root exactly when it is a directory and the
/// marker file exists directly inside it.
pub fn is_cargo_project(is_dir: bool, has_marker_file: bool) -> (r: bool)
    ensures
        r == (is_dir && has_marker_file),
{
    is_dir && has_marker_file
}

} // verus!
