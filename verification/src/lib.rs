//! A bounded single-producer, multi-consumer FIFO channel core.
//!
//! The channel is a ring buffer: a fixed number of slots, a write cursor
//! owned by the producer and a read cursor advanced by consumers. A slot
//! holds a value exactly while it lies in the cyclic window from the read
//! cursor up to (but excluding) the write cursor; the slot at the write
//! cursor is kept empty, so a channel with `capacity` slots carries at most
//! `capacity - 1` values at a time.
//!
//! This crate verifies the protocol itself: the cursor arithmetic, the
//! occupancy invariant and the first-in-first-out behaviour of the queue.
//! Every operation is specified against the sequence of queued values,
//! oldest first.

pub mod channel;
pub mod cursor;
pub mod fifo;

pub use channel::bounded;
pub use channel::capacity_is_valid;
pub use channel::channel_full;
pub use channel::CapacityError;
pub use channel::Reciver;
pub use channel::Sender;
pub use cursor::next_index;
