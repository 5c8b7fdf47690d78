//! Tracks designated system files inside a version-controlled repository.
//!
//! Categories group tracked paths by glob patterns and map each absolute
//! system path to a category-relative repository path; the reconciliation
//! engine classifies differences between the system tree and the repository
//! tree, computes textual diffs, plans refreshes and restores, and preserves
//! POSIX metadata out of band. Designated files are encrypted at rest for a
//! set of recipients.

use vstd::prelude::*;

pub mod error;
pub mod paths;
pub mod category;
pub mod tree;
pub mod reconcile;
pub mod diff;
pub mod metadata;
pub mod config;
pub mod codec;

verus! {

/// The file name extension used by backup copies taken before a restore.
pub fn backup_suffix() -> (r: &'static str)
    ensures
        r@ == ".confect-backup"@,
{
    ".confect-backup"
}

} // verus!
