//! Key-authenticated file hosting core.
//!
//! Clients upload files under a server-generated namespace and may later
//! overwrite, rename, or delete files they own. Ownership is proven
//! per-request by an opaque capability key matched against a metadata store.
//! This crate holds the verified core: path handling, the authorization
//! gates, and the file-lifecycle manager that keeps the metadata store and
//! the object store consistent.

use vstd::prelude::*;

pub mod auth;
pub mod laws;
pub mod lifecycle;
pub mod metadata;
pub mod objects;
pub mod paths;

verus! {

/// The faults a file-lifecycle operation can report.
#[derive(Clone, Copy, Debug, PartialEq, Eq, Structural)]
pub enum FileError {
    /// The capability key is missing, unknown, or does not own the target.
    Unauthorized,
    /// The target path has no metadata row.
    NotFound,
    /// The request names no usable final path component.
    InvalidPath,
    /// The object store refused the operation.
    StorageFault,
    /// The metadata store refused the operation.
    MetadataFault,
}

} // verus!
