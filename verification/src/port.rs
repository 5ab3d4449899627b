//! The queueing port: a backing store and the cursors that guard it.

use crate::error::QueueError;
use crate::message::Message;
use crate::model::{
    cleared_slot, lemma_dequeue_pops, lemma_enqueue_pushes, lemma_ring_add, PortModel, PortPhase,
};
use crate::store::{slots_of, splice, BackingStore, MAX_LOCAL_BYTES};
use vstd::prelude::*;

verus! {

/// A bounded first-in, first-out channel of fixed-width messages.
///
/// The port is worked through `&mut`: one call at a time has it, from the
/// capacity check to the occupancy update.
pub struct QueueingPort<'a> {
    store: BackingStore<'a>,
    write_cursor: usize,
    read_cursor: usize,
    occupancy: usize,
}

impl<'a> View for QueueingPort<'a> {
    type V = PortModel;

    closed spec fn view(&self) -> PortModel {
        PortModel {
            capacity: self.store.capacity() as nat,
            message_size: self.store.message_size() as nat,
            write_cursor: self.write_cursor as nat,
            read_cursor: self.read_cursor as nat,
            occupancy: self.occupancy as nat,
            slots: self.store@,
        }
    }
}

impl<'a> QueueingPort<'a> {
    /// The invariant of every port: that of its model, over a store that is
    /// as long as its slots together.
    pub closed spec fn wf(&self) -> bool {
        &&& self.store.wf()
        &&& self@.wf()
    }

    /// The bytes of the region behind the port, slot after slot.
    pub closed spec fn region(&self) -> Seq<u8> {
        self.store.bytes()
    }

    /// A well-formed port has a well-formed model, whose numbers fit the
    /// machine and whose slots are the region cut every `message_size`
    /// bytes.
    pub proof fn lemma_wf(&self)
        requires
            self.wf(),
        ensures
            self@.wf(),
            self@.capacity * self@.message_size <= usize::MAX,
            self.region().len() == self@.capacity * self@.message_size,
            self@.slots == slots_of(self.region(), self@.capacity, self@.message_size),
    {
    }

    /// Builds an empty port over a zeroed region of its own, of `capacity`
    /// slots of `message_size` bytes.
    ///
    /// The region is what can fail: none is to be had for a port without
    /// slots, for slots without bytes, or for more bytes than a store
    /// allocates.
    pub fn new(capacity: usize, message_size: usize) -> (result: Result<
        QueueingPort<'a>,
        QueueError,
    >)
        ensures
            match result {
                Ok(port) => {
                    &&& capacity > 0
                    &&& message_size > 0
                    &&& capacity * message_size <= MAX_LOCAL_BYTES
                    &&& port.wf()
                    &&& port@ == PortModel::initial(
                        capacity as nat,
                        message_size as nat,
                        Seq::new(capacity as nat, |i: int| cleared_slot(message_size as nat)),
                    )
                },
                Err(e) => {
                    &&& e == QueueError::BackingStoreUnavailable
                    &&& (capacity == 0 || message_size == 0 || capacity * message_size
                        > MAX_LOCAL_BYTES)
                },
            },
    {
        match BackingStore::local(capacity, message_size) {
            Ok(store) => Ok(QueueingPort::with_store(store)),
            Err(e) => Err(e),
        }
    }

    /// Builds an empty port over `store`, whose bytes stay as they are.
    pub fn with_store(store: BackingStore<'a>) -> (port: QueueingPort<'a>)
        requires
            store.wf(),
        ensures
            port.wf(),
            port@ == PortModel::initial(
                store.capacity() as nat,
                store.message_size() as nat,
                store@,
            ),
            port.region() == store.bytes(),
    {
        proof {
            store.lemma_slots();
            lemma_ring_add(0, 0, store.capacity() as nat);
        }
        QueueingPort { store, write_cursor: 0, read_cursor: 0, occupancy: 0 }
    }

    /// Removes the oldest message and hands it out, leaving its slot zeroed;
    /// an empty port is left as it is and answers `QueueEmpty`.
    pub fn dequeue(&mut self) -> (result: Result<Message, QueueError>)
        requires
            old(self).wf(),
        ensures
            final(self).wf(),
            final(self)@ == old(self)@.after_dequeue(),
            match result {
                Ok(message) => old(self)@.dequeue_outcome() == Ok::<Seq<u8>, QueueError>(message@),
                Err(e) => old(self)@.dequeue_outcome() == Err::<Seq<u8>, QueueError>(e),
            },
            old(self)@.occupancy == 0 ==> {
                &&& result matches Err(QueueError::QueueEmpty)
                &&& final(self)@ == old(self)@
            },
            result matches Ok(message) ==> {
                &&& message@.len() == old(self)@.message_size
                &&& message@ == old(self)@.queue()[0]
                &&& final(self)@.queue() == old(self)@.queue().drop_first()
                &&& final(self)@.slots[old(self)@.read_cursor as int] == cleared_slot(
                    old(self)@.message_size,
                )
                &&& final(self)@.occupancy == old(self)@.occupancy - 1
                &&& final(self).region() == splice(
                    old(self).region(),
                    (old(self)@.read_cursor * old(self)@.message_size) as int,
                    cleared_slot(old(self)@.message_size),
                )
            },
            result is Err ==> final(self).region() == old(self).region(),
    {
        if self.occupancy == 0 {
            return Err(QueueError::QueueEmpty);
        }
        proof {
            lemma_dequeue_pops(self@);
            lemma_ring_add(self.read_cursor as nat, 1, self.store.capacity() as nat);
        }
        let message = self.store.read_slot(self.read_cursor);
        self.store.clear_slot(self.read_cursor);
        self.read_cursor = (self.read_cursor + 1) % self.store.capacity();
        self.occupancy = self.occupancy - 1;
        Ok(message)
    }

    /// Appends `message` when there is room and it has the port's width;
    /// else leaves the port as it is and answers `QueueFull` for a full
    /// port, `InvalidMessageSize` for a message of another width.
    pub fn enqueue(&mut self, message: Message) -> (result: Result<(), QueueError>)
        requires
            old(self).wf(),
        ensures
            final(self).wf(),
            result == old(self)@.enqueue_outcome(message@),
            final(self)@ == old(self)@.after_enqueue(message@),
            old(self)@.occupancy == old(self)@.capacity ==> result == Err::<(), QueueError>(
                QueueError::QueueFull,
            ),
            result is Ok <==> {
                &&& old(self)@.occupancy < old(self)@.capacity
                &&& message@.len() == old(self)@.message_size
            },
            result is Err ==> final(self)@ == old(self)@,
            result is Ok ==> {
                &&& final(self)@.queue() == old(self)@.queue().push(message@)
                &&& final(self)@.slots[old(self)@.write_cursor as int] == message@
                &&& final(self)@.occupancy == old(self)@.occupancy + 1
                &&& final(self).region() == splice(
                    old(self).region(),
                    (old(self)@.write_cursor * old(self)@.message_size) as int,
                    message@,
                )
            },
            result is Err ==> final(self).region() == old(self).region(),
    {
        if self.occupancy >= self.store.capacity() {
            return Err(QueueError::QueueFull);
        }
        if message.len() != self.store.message_size() {
            return Err(QueueError::InvalidMessageSize);
        }
        proof {
            lemma_enqueue_pushes(self@, message@);
            lemma_ring_add(self.write_cursor as nat, 1, self.store.capacity() as nat);
        }
        self.store.write_slot(self.write_cursor, &message);
        self.write_cursor = (self.write_cursor + 1) % self.store.capacity();
        self.occupancy = self.occupancy + 1;
        Ok(())
    }

    /// The number of messages held now.
    pub fn occupancy(&self) -> (occupancy: usize)
        ensures
            occupancy == self@.occupancy,
    {
        self.occupancy
    }

    /// The number of messages that the port can hold.
    pub fn capacity(&self) -> (capacity: usize)
        ensures
            capacity == self@.capacity,
    {
        self.store.capacity()
    }

    /// The width in bytes of the messages that the port carries.
    pub fn message_size(&self) -> (message_size: usize)
        ensures
            message_size == self@.message_size,
    {
        self.store.message_size()
    }

    /// Whether the port holds no message, so that `dequeue` would fail.
    pub fn is_empty(&self) -> (empty: bool)
        ensures
            empty == self@.is_empty(),
    {
        self.occupancy == 0
    }

    /// Whether every slot is taken, so that `enqueue` would fail.
    pub fn is_full(&self) -> (full: bool)
        ensures
            full == self@.is_full(),
    {
        self.occupancy == self.store.capacity()
    }

    /// Where the port stands between empty and full.
    pub fn phase(&self) -> (phase: PortPhase)
        ensures
            phase == self@.phase(),
    {
        if self.occupancy == 0 {
            PortPhase::Empty
        } else if self.occupancy < self.store.capacity() {
            PortPhase::Partial
        } else {
            PortPhase::Full
        }
    }
}

} // verus!
