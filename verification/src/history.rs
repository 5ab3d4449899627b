//! Histories of calls on a port, and what holds of every one of them.
//!
//! A history is a sequence of [`PortOp`]s applied to a port one after the
//! other, each succeeding or failing as the port then stands. `accepted`
//! collects the payloads of the enqueues that succeeded and `delivered`
//! those that the successful dequeues returned. However two contexts
//! interleave their calls on a port that they hold one at a time, what
//! happens is one such history.

use crate::error::QueueError;
use crate::model::{
    lemma_dequeue_pops, lemma_enqueue_pushes, lemma_ring_add, lemma_ring_add_twice, ring_add,
    PortModel,
};
use vstd::prelude::*;

verus! {

/// One call on a port.
pub enum PortOp {
    /// `enqueue` of a message with these bytes.
    Enqueue(Seq<u8>),
    /// `dequeue`.
    Dequeue,
}

impl PortModel {
    /// The port after the call `op`.
    pub open spec fn apply(self, op: PortOp) -> PortModel {
        match op {
            PortOp::Enqueue(payload) => self.after_enqueue(payload),
            PortOp::Dequeue => self.after_dequeue(),
        }
    }

    /// The port after the calls `ops`, first to last.
    pub open spec fn run(self, ops: Seq<PortOp>) -> PortModel
        decreases ops.len(),
    {
        if ops.len() == 0 {
            self
        } else {
            self.run(ops.drop_last()).apply(ops.last())
        }
    }

    /// The payloads of the enqueues among `ops` that succeed, in call order.
    pub open spec fn accepted(self, ops: Seq<PortOp>) -> Seq<Seq<u8>>
        decreases ops.len(),
    {
        if ops.len() == 0 {
            Seq::empty()
        } else {
            let earlier = self.accepted(ops.drop_last());
            match ops.last() {
                PortOp::Enqueue(payload) => if self.run(ops.drop_last()).enqueue_outcome(payload)
                    is Ok {
                    earlier.push(payload)
                } else {
                    earlier
                },
                PortOp::Dequeue => earlier,
            }
        }
    }

    /// The payloads that the dequeues among `ops` return, in call order.
    pub open spec fn delivered(self, ops: Seq<PortOp>) -> Seq<Seq<u8>>
        decreases ops.len(),
    {
        if ops.len() == 0 {
            Seq::empty()
        } else {
            let earlier = self.delivered(ops.drop_last());
            match ops.last() {
                PortOp::Enqueue(_) => earlier,
                PortOp::Dequeue => match self.run(ops.drop_last()).dequeue_outcome() {
                    Ok(payload) => earlier.push(payload),
                    Err(_) => earlier,
                },
            }
        }
    }
}

/// Every history keeps a port well formed and its configuration fixed.
pub proof fn lemma_run_preserves_wf(port: PortModel, ops: Seq<PortOp>)
    requires
        port.wf(),
    ensures
        port.run(ops).wf(),
        port.run(ops).capacity == port.capacity,
        port.run(ops).message_size == port.message_size,
    decreases ops.len(),
{
    if ops.len() > 0 {
        lemma_run_preserves_wf(port, ops.drop_last());
        let before = port.run(ops.drop_last());
        match ops.last() {
            PortOp::Enqueue(payload) => lemma_enqueue_pushes(before, payload),
            PortOp::Dequeue => lemma_dequeue_pops(before),
        }
    }
}

/// After any history the occupancy is what it was, plus the enqueues that
/// succeeded, minus the dequeues that succeeded, and never more than the
/// capacity. On a port that began empty it is the difference of the two
/// counts.
pub proof fn lemma_occupancy_is_balance(port: PortModel, ops: Seq<PortOp>)
    requires
        port.wf(),
    ensures
        port.run(ops).occupancy == port.occupancy + port.accepted(ops).len() - port.delivered(
            ops,
        ).len(),
        0 <= port.run(ops).occupancy <= port.capacity,
        port.occupancy == 0 ==> port.run(ops).occupancy == port.accepted(ops).len()
            - port.delivered(ops).len(),
    decreases ops.len(),
{
    lemma_run_preserves_wf(port, ops);
    if ops.len() > 0 {
        lemma_occupancy_is_balance(port, ops.drop_last());
    }
}

/// After any history each cursor stands as many slots on as calls of its
/// kind have succeeded.
pub proof fn lemma_cursors_follow_counts(port: PortModel, ops: Seq<PortOp>)
    requires
        port.wf(),
    ensures
        port.run(ops).write_cursor == ring_add(
            port.write_cursor,
            port.accepted(ops).len(),
            port.capacity,
        ),
        port.run(ops).read_cursor == ring_add(
            port.read_cursor,
            port.delivered(ops).len(),
            port.capacity,
        ),
    decreases ops.len(),
{
    if ops.len() == 0 {
        lemma_ring_add(port.write_cursor, 0, port.capacity);
        lemma_ring_add(port.read_cursor, 0, port.capacity);
    } else {
        let earlier = ops.drop_last();
        lemma_cursors_follow_counts(port, earlier);
        lemma_run_preserves_wf(port, earlier);
        lemma_ring_add_twice(port.write_cursor, port.accepted(earlier).len(), 1, port.capacity);
        lemma_ring_add_twice(port.read_cursor, port.delivered(earlier).len(), 1, port.capacity);
    }
}

/// First in, first out: the messages held at the start, followed by those
/// accepted since, are those delivered since, followed by those still held.
/// Nothing is lost, doubled, altered or overtaken.
pub proof fn lemma_fifo(port: PortModel, ops: Seq<PortOp>)
    requires
        port.wf(),
    ensures
        port.queue() + port.accepted(ops) == port.delivered(ops) + port.run(ops).queue(),
    decreases ops.len(),
{
    if ops.len() == 0 {
        assert(port.queue() + port.accepted(ops) =~= port.delivered(ops) + port.run(ops).queue());
    } else {
        let earlier = ops.drop_last();
        lemma_fifo(port, earlier);
        lemma_run_preserves_wf(port, earlier);
        let before = port.run(earlier);
        let held = before.queue();
        match ops.last() {
            PortOp::Enqueue(payload) => {
                lemma_enqueue_pushes(before, payload);
                if before.enqueue_outcome(payload) is Ok {
                    assert(port.queue() + port.accepted(earlier).push(payload) =~= (port.queue()
                        + port.accepted(earlier)).push(payload));
                    assert(port.delivered(earlier) + held.push(payload) =~= (port.delivered(
                        earlier,
                    ) + held).push(payload));
                }
            },
            PortOp::Dequeue => {
                lemma_dequeue_pops(before);
                if before.occupancy > 0 {
                    assert(port.delivered(earlier).push(held[0]) + held.drop_first()
                        =~= port.delivered(earlier) + held);
                }
            },
        }
    }
}

/// On a port that began empty, the n-th message delivered is, byte for
/// byte, the n-th message accepted.
pub proof fn lemma_nth_out_is_nth_in(port: PortModel, ops: Seq<PortOp>, n: int)
    requires
        port.wf(),
        port.occupancy == 0,
        0 <= n < port.delivered(ops).len(),
    ensures
        n < port.accepted(ops).len(),
        port.delivered(ops)[n] == port.accepted(ops)[n],
{
    lemma_fifo(port, ops);
    let whole = port.queue() + port.accepted(ops);
    assert(whole =~= port.accepted(ops));
    assert(whole[n] == port.delivered(ops)[n]);
}

/// One writer, one reader: once as many messages have been delivered as
/// were accepted on a port that began empty, the reader has seen exactly
/// what the writer put in, in the writer's order, and the port is empty.
/// Failed calls in between, retried or not, change nothing of this.
pub proof fn lemma_all_out_is_all_in(port: PortModel, ops: Seq<PortOp>)
    requires
        port.wf(),
        port.occupancy == 0,
        port.delivered(ops).len() == port.accepted(ops).len(),
    ensures
        port.delivered(ops) == port.accepted(ops),
        port.run(ops).occupancy == 0,
{
    lemma_occupancy_is_balance(port, ops);
    assert forall|n: int| 0 <= n < port.delivered(ops).len() implies port.delivered(ops)[n]
        == port.accepted(ops)[n] by {
        lemma_nth_out_is_nth_in(port, ops, n);
    }
    assert(port.delivered(ops) =~= port.accepted(ops));
}

/// A message put into an empty port is what the next `dequeue` returns, and
/// the port is empty again after it.
pub proof fn lemma_round_trip(port: PortModel, payload: Seq<u8>)
    requires
        port.wf(),
        port.occupancy == 0,
        payload.len() == port.message_size,
    ensures
        port.enqueue_outcome(payload) is Ok,
        port.after_enqueue(payload).dequeue_outcome() == Ok::<Seq<u8>, QueueError>(payload),
        port.after_enqueue(payload).after_dequeue().occupancy == 0,
{
    lemma_enqueue_pushes(port, payload);
    lemma_dequeue_pops(port.after_enqueue(payload));
    assert(port.queue().push(payload)[0] == payload);
}

/// A slot that is written again holds the new message alone: whatever the
/// slot under the write cursor held before, once a message is accepted into
/// it and the messages ahead of it have been delivered, the read cursor
/// stands on that slot, the slot holds exactly that message, and `dequeue`
/// returns it.
pub proof fn lemma_slot_reuse(port: PortModel, payload: Seq<u8>, ops: Seq<PortOp>)
    requires
        port.wf(),
        port.enqueue_outcome(payload) is Ok,
        port.after_enqueue(payload).delivered(ops).len() == port.occupancy,
    ensures
        port.after_enqueue(payload).run(ops).read_cursor == port.write_cursor,
        port.after_enqueue(payload).run(ops).slots[port.write_cursor as int] == payload,
        port.after_enqueue(payload).run(ops).dequeue_outcome() == Ok::<Seq<u8>, QueueError>(
            payload,
        ),
{
    let written = port.after_enqueue(payload);
    let later = written.run(ops);
    lemma_enqueue_pushes(port, payload);
    lemma_run_preserves_wf(written, ops);
    lemma_fifo(written, ops);
    lemma_occupancy_is_balance(written, ops);
    lemma_cursors_follow_counts(written, ops);
    lemma_dequeue_pops(later);
    let whole = written.queue() + written.accepted(ops);
    assert(whole[port.occupancy as int] == payload);
    assert(whole[port.occupancy as int] == later.queue()[0]);
}

} // verus!
