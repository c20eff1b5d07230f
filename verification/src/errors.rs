//! Typed errors for the store's recoverable failure conditions.

use vstd::prelude::*;

verus! {

/// A read target was absent from the store.
#[derive(Debug)]
pub enum OpenReadError {
    /// The path that was not found.
    FileDoesNotExist(String),
}

/// An exclusive-create open found the path already present.
#[derive(Debug)]
pub enum OpenWriteError {
    /// The path that was already present.
    FileAlreadyExists(String),
}

/// A delete target was absent, or the operation was made to fail by the
/// injectable fault strategy.
#[derive(Debug)]
pub enum DeleteError {
    /// The path that was not found.
    FileDoesNotExist(String),
    /// An injected input/output failure.
    IoFailure,
}

/// An atomic write was made to fail by the injectable fault strategy.
#[derive(Debug)]
pub enum AtomicWriteError {
    /// An injected input/output failure.
    IoFailure,
}

/// Bundle serialization was attempted while another handle to the same
/// store was still alive.
#[derive(Debug)]
pub enum SerializeBundleError {
    /// Sole ownership of the store could not be established.
    OwnershipConflict,
}

} // verus!
