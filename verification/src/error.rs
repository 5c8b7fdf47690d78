//! The typed failures that the library's operations return.

use vstd::prelude::*;

verus! {

/// Every failure a library operation can report.
///
/// Each variant carries the name or path it is about, as a plain string.
#[derive(Debug, Clone)]
pub enum ConfectError {
    /// No category of the given name exists in the registry.
    CategoryNotFound(String),
    /// A category of the given name already exists in the registry.
    CategoryAlreadyExists(String),
    /// The repository holds no copy for the given path.
    FileNotFound(String),
    /// No category's patterns claim the given system path.
    PathNotTracked(String),
    /// The given path is a system-critical root that must not be tracked.
    ForbiddenPath(String),
    /// Encryption could not be performed.
    Encryption(String),
    /// Decryption could not be performed.
    Decryption(String),
}

} // verus!
