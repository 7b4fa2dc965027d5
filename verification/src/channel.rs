//! The channel itself: slot storage, the two handles and their operations.
//!
//! The receiver handle owns the slot storage and the read cursor; the
//! sender handle owns the write cursor. In the concurrent runtime these
//! pieces are shared between threads, so every operation here takes the
//! other handle explicitly: the borrows make the sharing visible to the
//! verifier, and the contracts state what each operation does to the queue
//! of values, oldest first.

use vstd::prelude::*;

use crate::cursor::in_window;
use crate::cursor::lemma_slot_of_injective;
use crate::cursor::lemma_slot_of_window;
use crate::cursor::next_index;
use crate::cursor::next_of;
use crate::cursor::queue_len;
use crate::cursor::slot_of;

verus! {

/// Error reported when a channel is requested with too small a capacity.
///
/// A ring of fewer than two slots cannot tell a full channel from an empty
/// one (and a ring of zero slots has no cursor arithmetic at all), so such
/// a request is rejected at construction time.
#[derive(Clone, Copy, Debug, PartialEq, Eq, Structural)]
pub struct CapacityError {
    /// The capacity that was requested.
    pub requested: usize,
}

/// The producer handle: sole owner of the write cursor.
pub struct Sender {
    write_index: usize,
}

/// The consumer handle: owns the slot storage and the read cursor.
pub struct Reciver<T> {
    slots: Vec<Option<T>>,
    read_index: usize,
}

impl<T> Reciver<T> {
    /// The capacity of the channel: the number of slots. One slot is always
    /// kept empty, so at most `capacity - 1` values are queued at a time.
    pub closed spec fn capacity(&self) -> int {
        self.slots@.len() as int
    }

    /// Well-formedness: both cursors index a slot, there are at least two
    /// slots, and a slot holds a value exactly when it lies in the cyclic
    /// window from the read cursor up to the write cursor.
    pub closed spec fn wf(&self, tx: &Sender) -> bool {
        &&& 2 <= self.capacity()
        &&& tx.write_index < self.capacity()
        &&& self.read_index < self.capacity()
        &&& forall|i: int|
            0 <= i < self.capacity() ==> (self.slots@[i] is Some <==> in_window(
                self.read_index as int,
                tx.write_index as int,
                self.capacity(),
                i,
            ))
    }

    /// The queued values, oldest first.
    pub closed spec fn contents(&self, tx: &Sender) -> Seq<T> {
        Seq::new(
            queue_len(self.read_index as int, tx.write_index as int, self.capacity()) as nat,
            |k: int| self.slots@[slot_of(self.read_index as int, k, self.capacity())]->0,
        )
    }
}

/// Whether a channel queueing `contents` in a ring of `capacity` slots is
/// full. One slot — the one at the write cursor — is always kept empty to
/// tell a full channel from an empty one, so the queue is full already
/// when `capacity - 1` values are waiting.
pub open spec fn channel_full<T>(contents: Seq<T>, capacity: int) -> bool {
    contents.len() == capacity - 1
}

/// Whether `capacity` slots can back a channel: at least two are needed,
/// one to hold a value and one kept empty to tell full from empty (and a
/// ring of zero slots would leave the cursor arithmetic without a modulus).
pub fn capacity_is_valid(capacity: usize) -> (ok: bool)
    ensures
        ok <==> capacity >= 2,
{
    capacity >= 2
}

/// Build a channel of `capacity` slots and return its two handles, the
/// queue empty and both cursors at slot zero. A capacity below two is
/// rejected with a [`CapacityError`]; with capacity accepted, up to
/// `capacity - 1` values can be queued at a time.
pub fn bounded<T>(capacity: usize) -> (result: Result<(Sender, Reciver<T>), CapacityError>)
    ensures
        result is Ok <==> capacity >= 2,
        match result {
            Ok((tx, rx)) => {
                &&& rx.wf(&tx)
                &&& rx.capacity() == capacity as int
                &&& rx.contents(&tx) == Seq::<T>::empty()
            },
            Err(e) => e == (CapacityError { requested: capacity }),
        },
{
    if !capacity_is_valid(capacity) {
        return Err(CapacityError { requested: capacity });
    }
    let mut slots: Vec<Option<T>> = Vec::new();
    let mut i: usize = 0;
    while i < capacity
        invariant
            i <= capacity,
            slots@.len() == i as int,
            forall|j: int| 0 <= j < i as int ==> slots@[j] is None,
        decreases capacity - i,
    {
        slots.push(None);
        i = i + 1;
    }
    let tx = Sender { write_index: 0 };
    let rx = Reciver { slots, read_index: 0 };
    proof {
        assert(rx.contents(&tx) =~= Seq::<T>::empty());
    }
    Ok((tx, rx))
}

impl Sender {
    /// Non-blocking send. When only the kept-empty slot at the write
    /// cursor is still free the channel counts as full: the value is
    /// handed back unchanged and nothing moves. Otherwise the value is
    /// stored at the write cursor,
    /// the cursor advances one slot, and the value joins the back of the
    /// queue.
    pub fn try_send<T>(&mut self, rx: &mut Reciver<T>, value: T) -> (result: Result<(), T>)
        requires
            old(rx).wf(old(self)),
        ensures
            final(rx).wf(final(self)),
            final(rx).capacity() == old(rx).capacity(),
            result is Err <==> channel_full(old(rx).contents(old(self)), old(rx).capacity()),
            match result {
                Ok(()) => final(rx).contents(final(self)) == old(rx).contents(old(self)).push(
                    value,
                ),
                Err(v) => {
                    &&& v == value
                    &&& *final(self) == *old(self)
                    &&& *final(rx) == *old(rx)
                },
            },
    {
        let ghost r = rx.read_index as int;
        let ghost w = self.write_index as int;
        let ghost cap = rx.capacity();
        let ghost before = rx.contents(self);
        let capacity = rx.slots.len();
        let next_write = next_index(self.write_index, capacity);
        if next_write == rx.read_index {
            proof {
                assert(queue_len(r, w, cap) == cap - 1);
            }
            return Err(value);
        }
        let write = self.write_index;
        rx.slots[write] = Some(value);
        self.write_index = next_write;
        proof {
            assert forall|i: int| 0 <= i < cap implies (rx.slots@[i] is Some <==> in_window(
                r,
                next_of(w, cap),
                cap,
                i,
            )) by {
                assert(in_window(r, next_of(w, cap), cap, i) <==> in_window(r, w, cap, i) || i
                    == w);
            }
            assert(queue_len(r, next_of(w, cap), cap) == queue_len(r, w, cap) + 1);
            assert forall|k: int| 0 <= k < queue_len(r, w, cap) implies rx.contents(self)[k]
                == before[k] by {
                lemma_slot_of_injective(r, cap, k, queue_len(r, w, cap));
            }
            assert(slot_of(r, queue_len(r, w, cap), cap) == w);
            assert(rx.contents(self) =~= before.push(value));
        }
        Ok(())
    }
}

impl<T> Reciver<T> {
    /// Non-blocking receive. On an empty channel (both cursors equal)
    /// nothing moves and no value is returned. Otherwise the slot at the
    /// read cursor is claimed: its value — the oldest in the queue — is
    /// taken out, the slot is left empty and the read cursor advances one
    /// slot.
    pub fn try_recv(&mut self, tx: &Sender) -> (result: Option<T>)
        requires
            old(self).wf(tx),
        ensures
            final(self).wf(tx),
            final(self).capacity() == old(self).capacity(),
            result is None <==> old(self).contents(tx).len() == 0,
            match result {
                Some(v) => {
                    &&& v == old(self).contents(tx).first()
                    &&& final(self).contents(tx) == old(self).contents(tx).drop_first()
                },
                None => *final(self) == *old(self),
            },
    {
        let ghost r = self.read_index as int;
        let ghost w = tx.write_index as int;
        let ghost cap = self.capacity();
        let ghost before = self.contents(tx);
        if self.read_index == tx.write_index {
            return None;
        }
        let capacity = self.slots.len();
        let slot = self.read_index;
        proof {
            lemma_slot_of_window(r, w, cap, 0);
            assert(slot_of(r, 0, cap) == r);
        }
        let value = self.slots[slot].take();
        self.read_index = next_index(slot, capacity);
        proof {
            assert forall|i: int| 0 <= i < cap implies (self.slots@[i] is Some <==> in_window(
                next_of(r, cap),
                w,
                cap,
                i,
            )) by {
                assert(in_window(next_of(r, cap), w, cap, i) <==> in_window(r, w, cap, i) && i
                    != r);
            }
            assert(queue_len(next_of(r, cap), w, cap) == queue_len(r, w, cap) - 1);
            assert forall|k: int| 0 <= k < queue_len(r, w, cap) - 1 implies self.contents(tx)[k]
                == before[k + 1] by {
                assert(slot_of(next_of(r, cap), k, cap) == slot_of(r, k + 1, cap));
                lemma_slot_of_injective(r, cap, k + 1, 0);
            }
            assert(self.contents(tx) =~= before.drop_first());
        }
        value
    }
}

} // verus!
