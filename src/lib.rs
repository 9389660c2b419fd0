//! Deploys a package (a directory of configuration files) into a target
//! directory as one symlink per file, mirroring the package's layout.
//!
//! The library holds the decisions: where each link goes, what to do when its
//! place is taken, which links a run has made and must undo, and which links
//! belong to a package when it is taken out again. The caller walks the
//! directories and carries out each step on the filesystem.
pub mod conflict;
pub mod deploy;
pub mod error;
pub mod layout;
pub mod model;
pub mod path;
pub mod remove;
