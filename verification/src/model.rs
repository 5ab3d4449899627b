//! The mathematical model of a queueing port.
//!
//! A [`PortModel`] is what a port is to its contracts: the fixed
//! configuration, the two cursors, the occupancy count and the bytes of
//! every slot. The transitions `after_enqueue` and `after_dequeue` say what
//! the two operations do to it, and `queue` reads the messages held, oldest
//! first, off the ring.

use crate::error::QueueError;
use vstd::arithmetic::div_mod::{
    lemma_add_mod_noop_right, lemma_mod_self_0, lemma_mod_sub_multiples_vanish, lemma_small_mod,
};
use vstd::prelude::*;

verus! {

/// Where a port stands between empty and full.
#[derive(Clone, Copy, Debug, PartialEq, Eq, Structural)]
pub enum PortPhase {
    /// No message is held.
    Empty,
    /// At least one message is held and at least one slot is free.
    Partial,
    /// Every slot holds a message.
    Full,
}

/// The observable state of a port.
pub struct PortModel {
    /// The number of slots.
    pub capacity: nat,
    /// The width of every slot, and of every message, in bytes.
    pub message_size: nat,
    /// The slot that the next successful `enqueue` fills.
    pub write_cursor: nat,
    /// The slot that the next successful `dequeue` reads and clears.
    pub read_cursor: nat,
    /// The number of messages held.
    pub occupancy: nat,
    /// The bytes of each slot, by slot index.
    pub slots: Seq<Seq<u8>>,
}

/// The slot index `steps` places after `cursor` on a ring of `capacity`
/// slots.
pub open spec fn ring_add(cursor: nat, steps: nat, capacity: nat) -> nat {
    (cursor + steps) % capacity
}

/// A slot of `message_size` zero bytes: what `dequeue` leaves behind.
pub open spec fn cleared_slot(message_size: nat) -> Seq<u8> {
    Seq::new(message_size, |i: int| 0u8)
}

impl PortModel {
    /// The invariant of every port: the cursors and the occupancy are in
    /// range, the write cursor stands `occupancy` slots after the read
    /// cursor on the ring, and there are `capacity` slots of `message_size`
    /// bytes each.
    pub open spec fn wf(self) -> bool {
        &&& self.capacity > 0
        &&& self.message_size > 0
        &&& self.write_cursor < self.capacity
        &&& self.read_cursor < self.capacity
        &&& self.occupancy <= self.capacity
        &&& self.write_cursor == ring_add(self.read_cursor, self.occupancy, self.capacity)
        &&& self.slots.len() == self.capacity
        &&& forall|i: int|
            0 <= i < self.capacity ==> (#[trigger] self.slots[i]).len() == self.message_size
    }

    /// A port that was just built over `slots`: both cursors at slot 0 and
    /// nothing held.
    pub open spec fn initial(capacity: nat, message_size: nat, slots: Seq<Seq<u8>>) -> PortModel {
        PortModel { capacity, message_size, write_cursor: 0, read_cursor: 0, occupancy: 0, slots }
    }

    /// No message is held.
    pub open spec fn is_empty(self) -> bool {
        self.occupancy == 0
    }

    /// Every slot holds a message.
    pub open spec fn is_full(self) -> bool {
        self.occupancy == self.capacity
    }

    /// `Empty` with no message, `Full` with `capacity` of them, `Partial`
    /// in between.
    pub open spec fn phase(self) -> PortPhase {
        if self.occupancy == 0 {
            PortPhase::Empty
        } else if self.occupancy < self.capacity {
            PortPhase::Partial
        } else {
            PortPhase::Full
        }
    }

    /// The messages held, oldest first: the `occupancy` slots from the read
    /// cursor on, around the ring.
    pub open spec fn queue(self) -> Seq<Seq<u8>> {
        Seq::new(
            self.occupancy,
            |k: int| self.slots[ring_add(self.read_cursor, k as nat, self.capacity) as int],
        )
    }

    /// What `enqueue` of `payload` returns: a full port refuses every
    /// payload, a port with room refuses one of the wrong width.
    pub open spec fn enqueue_outcome(self, payload: Seq<u8>) -> Result<(), QueueError> {
        if self.occupancy == self.capacity {
            Err(QueueError::QueueFull)
        } else if payload.len() != self.message_size {
            Err(QueueError::InvalidMessageSize)
        } else {
            Ok(())
        }
    }

    /// The port after `enqueue` of `payload`: unchanged when the payload is
    /// refused; else the payload stands in the slot under the write cursor,
    /// the write cursor has moved one slot on and the occupancy is one more.
    pub open spec fn after_enqueue(self, payload: Seq<u8>) -> PortModel {
        if self.enqueue_outcome(payload) is Ok {
            PortModel {
                write_cursor: ring_add(self.write_cursor, 1, self.capacity),
                occupancy: self.occupancy + 1,
                slots: self.slots.update(self.write_cursor as int, payload),
                ..self
            }
        } else {
            self
        }
    }

    /// What `dequeue` returns: the bytes of the slot under the read cursor,
    /// unless the port is empty.
    pub open spec fn dequeue_outcome(self) -> Result<Seq<u8>, QueueError> {
        if self.occupancy == 0 {
            Err(QueueError::QueueEmpty)
        } else {
            Ok(self.slots[self.read_cursor as int])
        }
    }

    /// The port after `dequeue`: unchanged when it is empty; else the slot
    /// under the read cursor is all zero, the read cursor has moved one slot
    /// on and the occupancy is one less.
    pub open spec fn after_dequeue(self) -> PortModel {
        if self.occupancy == 0 {
            self
        } else {
            PortModel {
                read_cursor: ring_add(self.read_cursor, 1, self.capacity),
                occupancy: (self.occupancy - 1) as nat,
                slots: self.slots.update(self.read_cursor as int, cleared_slot(self.message_size)),
                ..self
            }
        }
    }
}

/// On a ring of `capacity` slots, a cursor moved by at most `capacity`
/// steps lands on `cursor + steps`, less one turn if that runs past the end.
pub proof fn lemma_ring_add(cursor: nat, steps: nat, capacity: nat)
    requires
        cursor < capacity,
        steps <= capacity,
    ensures
        ring_add(cursor, steps, capacity) == if cursor + steps < capacity {
            cursor + steps
        } else {
            (cursor + steps - capacity) as nat
        },
        ring_add(cursor, steps, capacity) < capacity,
{
    let landed = (cursor + steps) as int;
    let turn = capacity as int;
    if landed < turn {
        lemma_small_mod(landed as nat, capacity);
    } else {
        lemma_mod_sub_multiples_vanish(landed, turn);
        lemma_small_mod((landed - turn) as nat, capacity);
    }
}

/// Two cursors that stand fewer than `capacity` steps apart point at
/// different slots.
pub proof fn lemma_ring_distinct(cursor: nat, near: nat, far: nat, capacity: nat)
    requires
        cursor < capacity,
        near < far,
        far - near < capacity,
        far <= capacity,
    ensures
        ring_add(cursor, near, capacity) != ring_add(cursor, far, capacity),
{
    lemma_ring_add(cursor, near, capacity);
    lemma_ring_add(cursor, far, capacity);
}

/// Moving a cursor `first` slots on and then `second` more is moving it
/// `first + second` slots on.
pub proof fn lemma_ring_add_twice(cursor: nat, first: nat, second: nat, capacity: nat)
    requires
        capacity > 0,
    ensures
        ring_add(ring_add(cursor, first, capacity), second, capacity) == ring_add(
            cursor,
            first + second,
            capacity,
        ),
{
    lemma_add_mod_noop_right(second as int, (cursor + first) as int, capacity as int);
    assert(second + (cursor + first) % capacity == (cursor + first) % capacity + second);
    assert(second + (cursor + first) == cursor + (first + second));
}

/// The distance from the read cursor to the write cursor, around the ring,
/// is the occupancy, but for a full port, where the two cursors meet.
pub proof fn lemma_cursor_distance(port: PortModel)
    requires
        port.wf(),
    ensures
        (port.write_cursor - port.read_cursor) % (port.capacity as int) == port.occupancy
            % port.capacity,
        port.occupancy < port.capacity ==> (port.write_cursor - port.read_cursor) % (
        port.capacity as int) == port.occupancy,
        port.occupancy == port.capacity ==> port.write_cursor == port.read_cursor,
{
    let turn = port.capacity as int;
    let distance = port.write_cursor - port.read_cursor;
    lemma_ring_add(port.read_cursor, port.occupancy, port.capacity);
    if port.occupancy < port.capacity {
        lemma_small_mod(port.occupancy, port.capacity);
        if distance < 0 {
            lemma_mod_sub_multiples_vanish(distance + turn, turn);
        }
    } else {
        lemma_mod_self_0(turn);
        lemma_small_mod(0, port.capacity);
    }
}

/// A successful `enqueue` keeps the port well formed and appends the
/// payload to the messages held; a refused one changes nothing.
pub proof fn lemma_enqueue_pushes(port: PortModel, payload: Seq<u8>)
    requires
        port.wf(),
    ensures
        port.after_enqueue(payload).wf(),
        port.enqueue_outcome(payload) is Ok ==> port.after_enqueue(payload).queue()
            == port.queue().push(payload),
        port.enqueue_outcome(payload) is Err ==> port.after_enqueue(payload) == port,
{
    if port.enqueue_outcome(payload) is Ok {
        let next = port.after_enqueue(payload);
        lemma_ring_add(port.read_cursor, port.occupancy, port.capacity);
        lemma_ring_add(port.write_cursor, 1, port.capacity);
        lemma_ring_add(port.read_cursor, port.occupancy + 1, port.capacity);
        assert forall|k: int| 0 <= k < next.occupancy implies #[trigger] next.queue()[k]
            == port.queue().push(payload)[k] by {
            if k < port.occupancy {
                lemma_ring_distinct(port.read_cursor, k as nat, port.occupancy, port.capacity);
            }
        }
        assert(next.queue() =~= port.queue().push(payload));
    }
}

/// A `dequeue` on a port that holds a message keeps the port well formed,
/// returns the oldest message and leaves the others in their order; on an
/// empty port it changes nothing.
pub proof fn lemma_dequeue_pops(port: PortModel)
    requires
        port.wf(),
    ensures
        port.after_dequeue().wf(),
        port.occupancy > 0 ==> {
            &&& port.dequeue_outcome() == Ok::<Seq<u8>, QueueError>(port.queue()[0])
            &&& port.after_dequeue().queue() == port.queue().drop_first()
        },
        port.occupancy == 0 ==> {
            &&& port.dequeue_outcome() == Err::<Seq<u8>, QueueError>(QueueError::QueueEmpty)
            &&& port.after_dequeue() == port
        },
{
    if port.occupancy > 0 {
        let next = port.after_dequeue();
        lemma_ring_add(port.read_cursor, 0, port.capacity);
        lemma_ring_add(port.read_cursor, 1, port.capacity);
        lemma_ring_add(port.read_cursor, port.occupancy, port.capacity);
        lemma_ring_add(next.read_cursor, next.occupancy, port.capacity);
        assert forall|k: int| 0 <= k < next.occupancy implies #[trigger] next.queue()[k]
            == port.queue().drop_first()[k] by {
            lemma_ring_add_twice(port.read_cursor, 1, k as nat, port.capacity);
            lemma_ring_distinct(port.read_cursor, 0, (k + 1) as nat, port.capacity);
        }
        assert(next.queue() =~= port.queue().drop_first());
    }
}

/// The phases in order: a port starts `Empty`; each successful `enqueue`
/// leads from `Empty` or `Partial` to `Partial`, or to `Full` when it takes
/// the last free slot; each successful `dequeue` leads from `Full` or
/// `Partial` to `Partial`, or to `Empty` when it takes the last message. A
/// `Full` port accepts nothing and an `Empty` one delivers nothing.
pub proof fn lemma_phases(port: PortModel, payload: Seq<u8>)
    requires
        port.wf(),
    ensures
        PortModel::initial(port.capacity, port.message_size, port.slots).phase()
            == PortPhase::Empty,
        port.phase() == PortPhase::Full ==> port.enqueue_outcome(payload) is Err,
        port.phase() == PortPhase::Empty ==> port.dequeue_outcome() is Err,
        port.enqueue_outcome(payload) is Ok ==> port.after_enqueue(payload).phase() == (
        if port.occupancy + 1 == port.capacity {
            PortPhase::Full
        } else {
            PortPhase::Partial
        }),
        port.dequeue_outcome() is Ok ==> port.after_dequeue().phase() == (
        if port.occupancy == 1 {
            PortPhase::Empty
        } else {
            PortPhase::Partial
        }),
{
}

} // verus!
