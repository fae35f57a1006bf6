//! A storage-access abstraction layer: a capability interface for opening
//! and creating named byte streams, together with an in-memory backend that
//! emulates file creation, exclusive-creation semantics, append-only writes,
//! and byte-accurate sequential reads over a registry of named buffers.

pub mod bytecopy;
pub mod filesystem;
pub mod mock_filesystem;
