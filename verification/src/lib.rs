//! The core of a disk-usage analyser: a sparse-aware scanner that builds a
//! size-annotated tree bottom-up from what a directory-entry source
//! reports, a navigation stack for drill-down and ascent, a squarified
//! treemap layout engine over integer pixel geometry, and the settings
//! (ignore list, cloud-mount heuristics) the scanner consults.

pub mod analysis;
pub mod layout;
pub mod node;
pub mod panel;
pub mod pathutil;
pub mod scan;
pub mod settings;
pub mod strutil;

use vstd::prelude::*;

verus! {

/// The on-disk size that a file contributes to its parent directory.
///
/// A file whose physical allocation is smaller than its logical length is
/// sparse and contributes nothing; a file whose physical allocation is
/// unknown falls back to its logical length.
pub open spec fn spec_file_size(logical: u64, physical: Option<u64>) -> u64 {
    match physical {
        Some(p) => if p < logical { 0u64 } else { p },
        None => logical,
    }
}

/// Executable counterpart of `spec_file_size`.
pub fn effective_file_size(logical: u64, physical: Option<u64>) -> (r: u64)
    ensures
        r == spec_file_size(logical, physical),
{
    match physical {
        Some(p) => if p < logical { 0 } else { p },
        None => logical,
    }
}

} // verus!
