//! Error kinds of the datastore and of the object store.

use vstd::prelude::*;

verus! {

/// Error reported by the relational state, mirroring the "row not found"
/// failure that authorization checks and lookups translate to a 404.
#[derive(PartialEq, Eq, Structural, Clone, Copy, Debug)]
pub enum DbError {
    RowNotFound,
    /// Any other datastore failure; in this model it only arises when an
    /// auto-assigned id space is exhausted.
    Internal,
}

/// Why a proposal could not be published.
#[derive(PartialEq, Eq, Structural, Clone, Copy, Debug)]
pub enum PublishError {
    /// The sender still has this many pending messages in the folder; they
    /// must be consumed and acknowledged before a new batch may be enqueued.
    Pending(u64),
    /// The message-id space is exhausted.
    Internal,
}

/// Why a folder could not be shared.
#[derive(PartialEq, Eq, Structural, Clone, Copy, Debug)]
pub enum ShareError {
    /// The acting user is not a member of the folder (or it does not exist).
    RowNotFound,
    /// The acting user still has pending messages in the folder.
    Pending,
    /// An auto-assigned id space is exhausted.
    Internal,
}

/// Error reported by the object store on a conditional put or a read.
#[derive(PartialEq, Eq, Structural, Clone, Copy, Debug)]
pub enum StoreError {
    /// An update was attempted against a parent token that does not match
    /// the current generation of the object.
    Precondition,
    /// A create was attempted but the object already exists.
    AlreadyExists,
    /// The requested object does not exist.
    NotFound,
    /// The generation space of the store is exhausted.
    Internal,
}

} // verus!
