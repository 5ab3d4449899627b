//! Fixed-width byte payloads.

use crate::error::QueueError;
use vstd::prelude::*;
use vstd::slice::slice_to_vec;

verus! {

/// An opaque payload of a fixed number of bytes.
///
/// A message owns its bytes: they are copied in when it is built and copied
/// out when it is read, so no message shares storage with a port or with
/// another message.
#[derive(Clone, Debug, PartialEq, Eq)]
pub struct Message {
    bytes: Vec<u8>,
}

impl View for Message {
    type V = Seq<u8>;

    closed spec fn view(&self) -> Seq<u8> {
        self.bytes@
    }
}

impl Message {
    /// Copies `bytes` into a message of width `message_size`, or refuses
    /// them when their length is anything else.
    pub fn new(bytes: &[u8], message_size: usize) -> (result: Result<Message, QueueError>)
        ensures
            match result {
                Ok(message) => bytes@.len() == message_size && message@ == bytes@,
                Err(e) => bytes@.len() != message_size && e == QueueError::InvalidMessageSize,
            },
    {
        if bytes.len() != message_size {
            return Err(QueueError::InvalidMessageSize);
        }
        Ok(Message { bytes: slice_to_vec(bytes) })
    }

    /// The message that owns `bytes`, whatever their number.
    pub(crate) fn from_vec(bytes: Vec<u8>) -> (message: Message)
        ensures
            message@ == bytes@,
    {
        Message { bytes }
    }

    /// The message of width `message_size` whose every byte is `tag`.
    pub fn filled(tag: u8, message_size: usize) -> (message: Message)
        ensures
            message@ == Seq::new(message_size as nat, |i: int| tag),
    {
        let bytes = vec![tag; message_size];
        assert(bytes@ =~= Seq::new(message_size as nat, |i: int| tag));
        Message { bytes }
    }

    /// The width of the message in bytes.
    pub fn len(&self) -> (n: usize)
        ensures
            n == self@.len(),
    {
        self.bytes.len()
    }

    /// The payload.
    pub fn as_bytes(&self) -> (bytes: &[u8])
        ensures
            bytes@ == self@,
    {
        self.bytes.as_slice()
    }
}

} // verus!
