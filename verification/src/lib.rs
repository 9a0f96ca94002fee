//! Finds `node_modules` directories beneath a root, classifies each one as
//! stale or recent from the owning project's most recent file activity, and
//! reports how many bytes the stale ones hold.
//!
//! The scan works on an in-memory snapshot of the filesystem (`FsEntry`); the
//! binary around the library reads the real tree into a snapshot, runs the
//! scan, and performs any deletion.

pub mod laws;
pub mod scan;
pub mod tree;
