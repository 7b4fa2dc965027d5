//! Cursor arithmetic for the ring buffer.
//!
//! Both cursors are indices into the slot storage, advanced one slot at a
//! time and wrapping at the storage length. The functions here describe the
//! cyclic window of occupied slots that the two cursors delimit.

use vstd::prelude::*;

verus! {

/// The cursor position after `i`, wrapping at `capacity`.
pub open spec fn next_of(i: int, capacity: int) -> int {
    if i + 1 == capacity {
        0
    } else {
        i + 1
    }
}

/// How many values are queued when the read cursor is at `read` and the
/// write cursor at `write`, in a ring of `capacity` slots.
pub open spec fn queue_len(read: int, write: int, capacity: int) -> int {
    if write >= read {
        write - read
    } else {
        write + capacity - read
    }
}

/// Whether slot `i` lies in the cyclic window `[read, write)`: the slots
/// that currently hold a queued value.
pub open spec fn in_window(read: int, write: int, capacity: int, i: int) -> bool {
    if read <= write {
        read <= i < write
    } else {
        i >= read || i < write
    }
}

/// The slot that holds the `k`-th queued value, counting from the read
/// cursor.
pub open spec fn slot_of(read: int, k: int, capacity: int) -> int {
    if read + k < capacity {
        read + k
    } else {
        read + k - capacity
    }
}

/// Advance a cursor by one slot, wrapping at `capacity`.
pub fn next_index(i: usize, capacity: usize) -> (next: usize)
    requires
        i < capacity,
    ensures
        next == next_of(i as int, capacity as int),
        next < capacity,
{
    if i + 1 == capacity {
        0
    } else {
        i + 1
    }
}

/// Walking `k` slots from the read cursor stays inside the window exactly
/// as long as `k` is below the number of queued values.
pub proof fn lemma_slot_of_window(read: int, write: int, capacity: int, k: int)
    requires
        0 <= read < capacity,
        0 <= write < capacity,
        0 <= k < capacity,
    ensures
        in_window(read, write, capacity, slot_of(read, k, capacity)) <==> k < queue_len(
            read,
            write,
            capacity,
        ),
{
}

/// Distinct offsets from the read cursor land in distinct slots.
pub proof fn lemma_slot_of_injective(read: int, capacity: int, k1: int, k2: int)
    requires
        0 <= read < capacity,
        0 <= k1 < capacity,
        0 <= k2 < capacity,
    ensures
        slot_of(read, k1, capacity) == slot_of(read, k2, capacity) <==> k1 == k2,
{
}

} // verus!
