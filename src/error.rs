use vstd::prelude::*;

verus! {

/// Why a run failed.
#[derive(Clone, Copy, Debug, PartialEq, Eq, Structural)]
pub enum EngineError {
    /// No target directory can be derived: the package root has no parent.
    Configuration,
    /// The package's source directory does not exist.
    PackageNotFound,
    /// A destination is occupied and the policy does not resolve it.
    Conflict,
    /// Creating a link failed on the filesystem.
    LinkCreation,
}

} // verus!
