//! The outcomes, other than success, of building and using a port.

use shared_memory::ShmemError;
use vstd::prelude::*;
use vstd::std_specs::convert::FromSpecImpl;

verus! {

/// Why an operation on a port, a message or a backing store did not succeed.
///
/// Every kind is an ordinary result value. `QueueFull` and `QueueEmpty` are
/// expected in normal use: the caller retries later or gives up.
#[derive(Clone, Copy, Debug, PartialEq, Eq, Structural)]
pub enum QueueError {
    /// `enqueue` on a port that already holds `capacity` messages.
    QueueFull,
    /// `dequeue` on a port that holds no message.
    QueueEmpty,
    /// A payload whose length is not the message size it was meant for.
    InvalidMessageSize,
    /// No byte region of `capacity * message_size` bytes could be had when
    /// the port was built.
    BackingStoreUnavailable,
}

/// `shared_memory::ShmemError`, the error of creating or opening a shared
/// mapping. Nothing is claimed of it: a value is carried and never looked
/// into.
#[verifier::external_type_specification]
#[verifier::external_body]
pub struct ExShmemError(shared_memory::ShmemError);

impl From<ShmemError> for QueueError {
    /// Whatever kept a shared mapping from being created or opened, the port
    /// that was to use it has no backing store.
    fn from(failure: ShmemError) -> (e: QueueError) {
        QueueError::BackingStoreUnavailable
    }
}

impl FromSpecImpl<ShmemError> for QueueError {
    open spec fn obeys_from_spec() -> bool {
        true
    }

    open spec fn from_spec(failure: ShmemError) -> QueueError {
        QueueError::BackingStoreUnavailable
    }
}

} // verus!
