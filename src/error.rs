use vstd::prelude::*;

verus! {

/// Why a scan, or a part of it, failed.
#[derive(Debug, Clone, PartialEq, Eq)]
pub enum ScanError {
    /// The keywords do not compile into a pattern; no scan runs.
    Config,
    /// A file could not be opened or read; the walk goes on without it.
    Io(String),
    /// The root of a walk or one of its directory entries could not be read.
    Walk(String),
    /// The entries could not be written as JSON.
    Serialization(String),
}

} // verus!
