//! A verified core for a self-hosted Git forge.
//!
//! The library covers the repository engine: commit-history walking,
//! directory listing at a commit, correlation of directory entries with the
//! commits that last touched them, the programmatic write path for blobs and
//! commits, the Smart HTTP transport bookkeeping, and the reconciliation of
//! the repository state into a relational cache.  Calls into libgit2 and into
//! the gzip decoder stand behind a small set of trusted wrappers; everything
//! around them is verified.

pub mod error;
pub mod strutil;
pub mod repo;
pub mod commits;
pub mod tree;
pub mod correlate;
pub mod write;
pub mod transport;
pub mod branches;
pub mod blob;
pub mod diff;
pub mod sync;
pub mod params;
