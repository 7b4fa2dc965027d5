//! First-in-first-out behaviour of the queue, stated over its view.
//!
//! The contracts in [`crate::channel`] describe one operation at a time: an
//! accepted send pushes its value onto the back of the queued sequence, a
//! successful receive takes the front off. The proofs here chain those
//! single steps: what a whole run of sends followed by a run of receives
//! hands out.

use vstd::prelude::*;

use crate::channel::channel_full;

verus! {

/// The queued values after the producer has sent each value of `vs` in
/// order onto a channel that already queued `contents`, every send
/// accepted.
pub open spec fn after_sends<T>(contents: Seq<T>, vs: Seq<T>) -> Seq<T>
    decreases vs.len(),
{
    if vs.len() == 0 {
        contents
    } else {
        after_sends(contents.push(vs.first()), vs.drop_first())
    }
}

/// The values handed out by `n` successive receives from a channel that
/// queues `contents`, in the order they are claimed.
pub open spec fn received<T>(contents: Seq<T>, n: nat) -> Seq<T>
    recommends
        n <= contents.len(),
    decreases n,
{
    if n == 0 {
        Seq::empty()
    } else {
        seq![contents.first()] + received(contents.drop_first(), (n - 1) as nat)
    }
}

/// Sending a run of values queues them behind what was already there.
pub proof fn lemma_after_sends_appends<T>(contents: Seq<T>, vs: Seq<T>)
    ensures
        after_sends(contents, vs) == contents + vs,
    decreases vs.len(),
{
    if vs.len() == 0 {
        assert(after_sends(contents, vs) =~= contents + vs);
    } else {
        lemma_after_sends_appends(contents.push(vs.first()), vs.drop_first());
        assert(contents.push(vs.first()) + vs.drop_first() =~= contents + vs);
    }
}

/// Receiving `n` times hands out the first `n` queued values, in order.
pub proof fn lemma_received_is_prefix<T>(contents: Seq<T>, n: nat)
    requires
        n <= contents.len(),
    ensures
        received(contents, n) == contents.take(n as int),
    decreases n,
{
    if n == 0 {
        assert(received(contents, n) =~= contents.take(0));
    } else {
        lemma_received_is_prefix(contents.drop_first(), (n - 1) as nat);
        assert(seq![contents.first()] + contents.drop_first().take(n - 1) =~= contents.take(
            n as int,
        ));
    }
}

/// First-in-first-out order: fewer values than the channel has slots,
/// sent in order onto an empty channel, all fit — every send along the
/// run finds the channel not yet full — and as many receives hand back
/// exactly those values, in the order they were sent.
pub proof fn lemma_fifo_order<T>(vs: Seq<T>, capacity: int)
    requires
        capacity >= 2,
        vs.len() < capacity,
    ensures
        forall|k: int|
            0 <= k < vs.len() ==> !channel_full(after_sends(Seq::<T>::empty(), vs.take(k)), capacity),
        received(after_sends(Seq::<T>::empty(), vs), vs.len()) == vs,
{
    lemma_after_sends_appends(Seq::<T>::empty(), vs);
    assert(Seq::<T>::empty() + vs =~= vs);
    assert forall|k: int| 0 <= k < vs.len() implies !channel_full(
        after_sends(Seq::<T>::empty(), vs.take(k)),
        capacity,
    ) by {
        lemma_after_sends_appends(Seq::<T>::empty(), vs.take(k));
    }
    lemma_received_is_prefix(vs, vs.len());
    assert(vs.take(vs.len() as int) =~= vs);
}

/// Each sent value is handed out exactly once: draining the channel yields
/// the sent values as a multiset, nothing dropped and nothing duplicated.
/// (Which consumer claims which value is decided by the shared read cursor;
/// the claim itself always takes the front of the queue off.)
pub proof fn lemma_each_value_delivered_once<T>(vs: Seq<T>)
    ensures
        received(after_sends(Seq::<T>::empty(), vs), vs.len()).to_multiset()
            == vs.to_multiset(),
{
    lemma_after_sends_appends(Seq::<T>::empty(), vs);
    assert(Seq::<T>::empty() + vs =~= vs);
    lemma_received_is_prefix(vs, vs.len());
    assert(vs.take(vs.len() as int) =~= vs);
}

/// Effective capacity: on a channel of `capacity` slots, starting empty,
/// each of the first `capacity - 1` sends finds the channel not yet full
/// and is accepted, the send after them finds it full and is rejected,
/// and after a single receive exactly one more send is accepted before the
/// channel is full again.
pub proof fn lemma_effective_capacity<T>(vs: Seq<T>, more: T, capacity: int)
    requires
        capacity >= 2,
        vs.len() == capacity - 1,
    ensures
        forall|k: int|
            0 <= k < vs.len() ==> !channel_full(after_sends(Seq::<T>::empty(), vs.take(k)), capacity),
        channel_full(after_sends(Seq::<T>::empty(), vs), capacity),
        !channel_full(after_sends(Seq::<T>::empty(), vs).drop_first(), capacity),
        channel_full(after_sends(Seq::<T>::empty(), vs).drop_first().push(more), capacity),
{
    lemma_after_sends_appends(Seq::<T>::empty(), vs);
    assert(Seq::<T>::empty() + vs =~= vs);
    assert forall|k: int| 0 <= k < vs.len() implies after_sends(Seq::<T>::empty(), vs.take(k)).len()
        < capacity - 1 by {
        lemma_after_sends_appends(Seq::<T>::empty(), vs.take(k));
    }
}

/// Round trip: an idle channel is never full, so a send onto it is
/// accepted, and the receive after it returns the very value that was
/// sent and leaves the channel idle again.
pub proof fn lemma_round_trip<T>(x: T, capacity: int)
    requires
        capacity >= 2,
    ensures
        !channel_full(Seq::<T>::empty(), capacity),
        Seq::<T>::empty().push(x).first() == x,
        Seq::<T>::empty().push(x).drop_first() == Seq::<T>::empty(),
{
    assert(Seq::<T>::empty().push(x).drop_first() =~= Seq::<T>::empty());
}

} // verus!
