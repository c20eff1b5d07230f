//! A volatile, memory-resident virtual file store.
//!
//! The store maps logical paths to immutable byte buffers and exposes a
//! filesystem-like surface: open for read, open for write through a staging
//! writer, delete, existence checks, atomic whole-buffer reads and writes,
//! and change notification on one distinguished metadata path.  The whole
//! content set can be serialized into a single self-describing bundle whose
//! trailer locates an index of every file's byte range.

pub mod buffer;
pub mod bundle;
pub mod directory;
pub mod errors;
pub mod laws;
pub mod store;
pub mod watch;
pub mod writer;
