//! The storage capability interface: the two operations every backend must
//! support, each producing a stream handle bound to that operation, and the
//! error taxonomy they surface.

use vstd::prelude::*;

verus! {

/// The conditions a storage operation can surface.
///
/// `NotFound` and `AlreadyExists` are ordinary recoverable conditions for the
/// caller to handle. `Fatal` reports an invariant violation (such as a read
/// cursor beyond the end of its buffer): the operation is aborted rather than
/// continued, since the condition indicates a logic error, not an
/// environmental one.
#[derive(Clone, Copy, Debug, PartialEq, Eq, Structural)]
pub enum StorageError {
    NotFound,
    AlreadyExists,
    Fatal,
}

/// The capability interface: every backend offers "open for read" and
/// "create for write", each returning a stream handle bound to that
/// operation.
///
/// What the two operations promise is backend-specific, so each implementor
/// states its own semantics through `open_ens` and `save_ens`. The in-memory
/// backend refuses `save` on an occupied path with `AlreadyExists`, while a
/// backend over the host filesystem inherits the host's create-or-truncate
/// behaviour; that divergence is deliberate.
pub trait FileSystem: Sized {
    /// The stream handle produced by `open`.
    type FSRead;

    /// The stream handle produced by `save`.
    type FSWrite;

    /// What this backend promises of `open`. A backend that Verus cannot
    /// look into, such as one delegating to the host filesystem, keeps the
    /// default and promises nothing.
    open spec fn open_ens(&self, path: Seq<char>, r: Result<Self::FSRead, StorageError>) -> bool {
        true
    }

    /// What this backend promises of `save`, relating the backend state
    /// before and after the call. The default promises nothing.
    open spec fn save_ens(
        pre: Self,
        post: Self,
        path: Seq<char>,
        r: Result<Self::FSWrite, StorageError>,
    ) -> bool {
        true
    }

    /// Opens existing storage at `path` for reading; fails with `NotFound`
    /// when no storage exists there. Has no side effect on the backend.
    fn open(&self, path: &str) -> (r: Result<Self::FSRead, StorageError>)
        ensures
            self.open_ens(path@, r),
    ;

    /// Creates storage at `path` for writing; may allocate new backend
    /// state.
    fn save(&mut self, path: &str) -> (r: Result<Self::FSWrite, StorageError>)
        ensures
            Self::save_ens(*old(self), *final(self), path@, r),
    ;
}

} // verus!
