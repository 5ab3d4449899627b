//! The byte region behind a port, and slot access into it.
//!
//! A [`BackingStore`] is a region of exactly `capacity * message_size`
//! bytes, read as `capacity` slots of `message_size` bytes each: slot `i`
//! starts at byte `i * message_size`. The region is either allocated and
//! owned by the store, or lent to it for the store's lifetime by whoever
//! mapped it. The store neither grows nor frees a region that was lent.

use crate::error::QueueError;
use crate::message::Message;
use crate::model::cleared_slot;
use vstd::prelude::*;
use vstd::slice::{slice_subrange, slice_to_vec};

verus! {

/// The largest region, in bytes, that a store allocates for itself: no
/// single allocation is longer than `isize::MAX` bytes.
pub const MAX_LOCAL_BYTES: usize = usize::MAX / 2;

/// `bytes` with the bytes from `start` on replaced by `patch`.
pub open spec fn splice(bytes: Seq<u8>, start: int, patch: Seq<u8>) -> Seq<u8> {
    bytes.subrange(0, start) + patch + bytes.subrange(start + patch.len(), bytes.len() as int)
}

/// A region of `capacity * message_size` bytes read as slots: slot `i` is
/// the `message_size` bytes from `i * message_size` on.
pub open spec fn slots_of(bytes: Seq<u8>, capacity: nat, message_size: nat) -> Seq<Seq<u8>> {
    Seq::new(
        capacity,
        |i: int| bytes.subrange(i * message_size, i * message_size + message_size),
    )
}

/// Slot `i` ends where slot `i + 1` starts, at or before the start of any
/// later slot `j`.
pub proof fn lemma_slot_order(i: int, j: int, message_size: int)
    by (nonlinear_arith)
    requires
        0 <= i < j,
        0 <= message_size,
    ensures
        0 <= i * message_size,
        i * message_size + message_size <= j * message_size,
{
}

/// Writing `patch` over slot `slot` of a region changes that slot to
/// `patch` and no other slot.
pub proof fn lemma_splice_slot(
    bytes: Seq<u8>,
    capacity: nat,
    message_size: nat,
    slot: int,
    patch: Seq<u8>,
)
    requires
        bytes.len() == capacity * message_size,
        0 <= slot < capacity,
        patch.len() == message_size,
    ensures
        splice(bytes, slot * message_size, patch).len() == bytes.len(),
        slots_of(splice(bytes, slot * message_size, patch), capacity, message_size) == slots_of(
            bytes,
            capacity,
            message_size,
        ).update(slot, patch),
{
    let ms = message_size as int;
    let start = slot * ms;
    lemma_slot_order(slot, capacity as int, ms);
    let patched = splice(bytes, start, patch);
    let before = slots_of(bytes, capacity, message_size);
    let after = slots_of(patched, capacity, message_size);
    assert forall|i: int| 0 <= i < capacity implies #[trigger] after[i] == before.update(
        slot,
        patch,
    )[i] by {
        lemma_slot_order(i, capacity as int, ms);
        if i < slot {
            lemma_slot_order(i, slot, ms);
            assert(after[i] =~= before[i]);
        } else if i > slot {
            lemma_slot_order(slot, i, ms);
            assert(after[i] =~= before[i]);
        } else {
            assert(after[i] =~= patch);
        }
    }
    assert(after =~= before.update(slot, patch));
}

/// Copies `src` over the bytes of `region` from `start` on.
fn copy_into(region: &mut [u8], start: usize, src: &[u8])
    requires
        start + src@.len() <= old(region)@.len(),
    ensures
        final(region)@ == splice(old(region)@, start as int, src@),
{
    let total = region.len();
    let len = src.len();
    let mut i: usize = 0;
    while i < len
        invariant
            i <= len,
            len == src@.len(),
            total == region@.len(),
            region@.len() == old(region)@.len(),
            start + len <= total,
            region@ == splice(old(region)@, start as int, src@.subrange(0, i as int)),
        decreases len - i,
    {
        region[start + i] = src[i];
        i = i + 1;
        assert(region@ =~= splice(old(region)@, start as int, src@.subrange(0, i as int)));
    }
    assert(src@.subrange(0, len as int) =~= src@);
}

/// Sets the `len` bytes of `region` from `start` on to zero.
fn zero_range(region: &mut [u8], start: usize, len: usize)
    requires
        start + len <= old(region)@.len(),
    ensures
        final(region)@ == splice(old(region)@, start as int, cleared_slot(len as nat)),
{
    let total = region.len();
    let mut i: usize = 0;
    while i < len
        invariant
            i <= len,
            total == region@.len(),
            region@.len() == old(region)@.len(),
            start + len <= total,
            region@ == splice(old(region)@, start as int, cleared_slot(i as nat)),
        decreases len - i,
    {
        region[start + i] = 0u8;
        i = i + 1;
        assert(region@ =~= splice(old(region)@, start as int, cleared_slot(i as nat)));
    }
}

/// Who holds the bytes.
enum Region<'a> {
    /// Allocated by the store and freed with it.
    Local(Vec<u8>),
    /// Lent to the store; mapped, and later unmapped, by the lender.
    Shared(&'a mut [u8]),
}

impl<'a> Region<'a> {
    /// The bytes held, first to last.
    spec fn bytes(&self) -> Seq<u8> {
        match self {
            Region::Local(owned) => owned@,
            Region::Shared(lent) => lent@,
        }
    }

    /// A copy of the `len` bytes from `start` on.
    fn read(&self, start: usize, len: usize) -> (out: Vec<u8>)
        requires
            start + len <= self.bytes().len() <= usize::MAX,
        ensures
            out@ == self.bytes().subrange(start as int, start + len),
    {
        match self {
            Region::Local(owned) => slice_to_vec(
                slice_subrange(owned.as_slice(), start, start + len),
            ),
            Region::Shared(lent) => slice_to_vec(slice_subrange(lent, start, start + len)),
        }
    }

    /// Copies `src` over the bytes from `start` on.
    fn write(&mut self, start: usize, src: &[u8])
        requires
            start + src@.len() <= old(self).bytes().len(),
        ensures
            final(self).bytes() == splice(old(self).bytes(), start as int, src@),
    {
        match self {
            Region::Local(owned) => copy_into(owned.as_mut_slice(), start, src),
            Region::Shared(lent) => copy_into(lent, start, src),
        }
    }

    /// Sets the `len` bytes from `start` on to zero.
    fn zero(&mut self, start: usize, len: usize)
        requires
            start + len <= old(self).bytes().len(),
        ensures
            final(self).bytes() == splice(old(self).bytes(), start as int, cleared_slot(len as nat)),
    {
        match self {
            Region::Local(owned) => zero_range(owned.as_mut_slice(), start, len),
            Region::Shared(lent) => zero_range(lent, start, len),
        }
    }
}

/// A byte region of `capacity` slots of `message_size` bytes each.
pub struct BackingStore<'a> {
    region: Region<'a>,
    capacity: usize,
    message_size: usize,
}

impl<'a> View for BackingStore<'a> {
    type V = Seq<Seq<u8>>;

    /// The bytes of each slot, by slot index.
    open spec fn view(&self) -> Seq<Seq<u8>> {
        slots_of(self.bytes(), self.capacity() as nat, self.message_size() as nat)
    }
}

impl<'a> BackingStore<'a> {
    /// The bytes of the region, slot after slot.
    pub closed spec fn bytes(&self) -> Seq<u8> {
        self.region.bytes()
    }

    /// The number of slots.
    pub closed spec fn spec_capacity(&self) -> usize {
        self.capacity
    }

    /// The width of every slot in bytes.
    pub closed spec fn spec_message_size(&self) -> usize {
        self.message_size
    }

    /// The invariant of every store: there is at least one slot of at least
    /// one byte, and the region is exactly as long as the slots together,
    /// which is a length that the machine can address.
    pub open spec fn wf(&self) -> bool {
        &&& self.capacity() > 0
        &&& self.message_size() > 0
        &&& self.capacity() * self.message_size() <= usize::MAX
        &&& self.bytes().len() == self.capacity() * self.message_size()
    }

    /// Every store has `capacity` slots of `message_size` bytes.
    pub proof fn lemma_slots(&self)
        requires
            self.wf(),
        ensures
            self@.len() == self.capacity(),
            forall|i: int|
                0 <= i < self.capacity() ==> (#[trigger] self@[i]).len() == self.message_size(),
    {
        assert forall|i: int| 0 <= i < self.capacity() implies (#[trigger] self@[i]).len()
            == self.message_size() by {
            lemma_slot_order(i, self.capacity() as int, self.message_size() as int);
        }
    }

    /// Allocates a zeroed region for `capacity` slots of `message_size`
    /// bytes. No region is to be had for a store without slots, for slots
    /// without bytes, or for more than [`MAX_LOCAL_BYTES`] bytes.
    pub fn local(capacity: usize, message_size: usize) -> (result: Result<
        BackingStore<'a>,
        QueueError,
    >)
        ensures
            match result {
                Ok(store) => {
                    &&& capacity > 0
                    &&& message_size > 0
                    &&& capacity * message_size <= MAX_LOCAL_BYTES
                    &&& store.wf()
                    &&& store.capacity() == capacity
                    &&& store.message_size() == message_size
                    &&& store@ == Seq::new(
                        capacity as nat,
                        |i: int| cleared_slot(message_size as nat),
                    )
                },
                Err(e) => {
                    &&& e == QueueError::BackingStoreUnavailable
                    &&& (capacity == 0 || message_size == 0 || capacity * message_size
                        > MAX_LOCAL_BYTES)
                },
            },
    {
        if capacity == 0 || message_size == 0 {
            return Err(QueueError::BackingStoreUnavailable);
        }
        match capacity.checked_mul(message_size) {
            Some(total) => {
                if total > MAX_LOCAL_BYTES {
                    return Err(QueueError::BackingStoreUnavailable);
                }
                let bytes = vec![0u8; total];
                let store = BackingStore { region: Region::Local(bytes), capacity, message_size };
                proof {
                    assert forall|i: int| 0 <= i < capacity implies (#[trigger] store@[i])
                        == cleared_slot(message_size as nat) by {
                        lemma_slot_order(i, capacity as int, message_size as int);
                        assert(store@[i] =~= cleared_slot(message_size as nat));
                    }
                    assert(store@ =~= Seq::new(
                        capacity as nat,
                        |i: int| cleared_slot(message_size as nat),
                    ));
                }
                Ok(store)
            },
            None => Err(QueueError::BackingStoreUnavailable),
        }
    }

    /// Takes `region`, as it is, for `capacity` slots of `message_size`
    /// bytes. The region must be exactly that long; a store without slots,
    /// or with slots without bytes, is refused.
    pub fn shared(region: &'a mut [u8], capacity: usize, message_size: usize) -> (result: Result<
        BackingStore<'a>,
        QueueError,
    >)
        ensures
            match result {
                Ok(store) => {
                    &&& capacity > 0
                    &&& message_size > 0
                    &&& old(region)@.len() == capacity * message_size
                    &&& store.wf()
                    &&& store.capacity() == capacity
                    &&& store.message_size() == message_size
                    &&& store.bytes() == old(region)@
                },
                Err(e) => {
                    &&& e == QueueError::BackingStoreUnavailable
                    &&& (capacity == 0 || message_size == 0 || old(region)@.len() != capacity
                        * message_size)
                },
            },
    {
        if capacity == 0 || message_size == 0 {
            return Err(QueueError::BackingStoreUnavailable);
        }
        let len = region.len();
        match capacity.checked_mul(message_size) {
            Some(total) => {
                if len != total {
                    return Err(QueueError::BackingStoreUnavailable);
                }
                Ok(BackingStore { region: Region::Shared(region), capacity, message_size })
            },
            None => Err(QueueError::BackingStoreUnavailable),
        }
    }

    /// The number of slots.
    #[verifier::when_used_as_spec(spec_capacity)]
    pub fn capacity(&self) -> (capacity: usize)
        ensures
            capacity == self.capacity(),
    {
        self.capacity
    }

    /// The width of every slot in bytes.
    #[verifier::when_used_as_spec(spec_message_size)]
    pub fn message_size(&self) -> (message_size: usize)
        ensures
            message_size == self.message_size(),
    {
        self.message_size
    }

    /// The byte at which slot `slot` starts.
    fn slot_start(&self, slot: usize) -> (start: usize)
        requires
            self.wf(),
            slot < self.capacity(),
        ensures
            start == slot * self.message_size(),
            start + self.message_size() <= self.bytes().len(),
    {
        proof {
            lemma_slot_order(slot as int, self.capacity as int, self.message_size as int);
        }
        slot * self.message_size
    }

    /// A copy of the bytes of slot `slot`.
    pub fn read_slot(&self, slot: usize) -> (message: Message)
        requires
            self.wf(),
            slot < self.capacity(),
        ensures
            message@ == self.bytes().subrange(
                slot * self.message_size(),
                slot * self.message_size() + self.message_size(),
            ),
            message@ == self@[slot as int],
            message@.len() == self.message_size(),
    {
        let start = self.slot_start(slot);
        proof {
            self.lemma_slots();
        }
        Message::from_vec(self.region.read(start, self.message_size))
    }

    /// Copies `message` over slot `slot`.
    pub fn write_slot(&mut self, slot: usize, message: &Message)
        requires
            old(self).wf(),
            slot < old(self).capacity(),
            message@.len() == old(self).message_size(),
        ensures
            final(self).wf(),
            final(self).capacity() == old(self).capacity(),
            final(self).message_size() == old(self).message_size(),
            final(self).bytes() == splice(
                old(self).bytes(),
                slot * old(self).message_size(),
                message@,
            ),
            final(self)@ == old(self)@.update(slot as int, message@),
    {
        let start = self.slot_start(slot);
        proof {
            lemma_splice_slot(
                self.bytes(),
                self.capacity as nat,
                self.message_size as nat,
                slot as int,
                message@,
            );
        }
        self.region.write(start, message.as_bytes());
    }

    /// Sets every byte of slot `slot` to zero.
    pub fn clear_slot(&mut self, slot: usize)
        requires
            old(self).wf(),
            slot < old(self).capacity(),
        ensures
            final(self).wf(),
            final(self).capacity() == old(self).capacity(),
            final(self).message_size() == old(self).message_size(),
            final(self).bytes() == splice(
                old(self).bytes(),
                slot * old(self).message_size(),
                cleared_slot(old(self).message_size() as nat),
            ),
            final(self)@ == old(self)@.update(
                slot as int,
                cleared_slot(old(self).message_size() as nat),
            ),
    {
        let start = self.slot_start(slot);
        proof {
            lemma_splice_slot(
                self.bytes(),
                self.capacity as nat,
                self.message_size as nat,
                slot as int,
                cleared_slot(self.message_size as nat),
            );
        }
        self.region.zero(start, self.message_size);
    }
}

} // verus!
