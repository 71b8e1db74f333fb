//! The two halves of the ring buffer that carries a channel's samples, and
//! the calls into ringbuf that the channel makes on them.
//!
//! Each half records the capacity the ring buffer was made with, and what it
//! knows of the ring buffer's fill level from its own side: the producer
//! knows a lower bound on the free room (only it fills the ring buffer, so
//! the room it saw can only grow until it pushes), and the consumer knows a
//! lower bound on the queued samples (only it empties the ring buffer). The
//! producer also keeps the log of the samples written into the ring buffer.
//! The fields are private to this module, so only the functions below set
//! them.
use vstd::prelude::*;

use ringbuf::traits::{Consumer, Observer, Producer, Split};

verus! {

/// A new ring buffer before it is split, held opaquely.
#[verifier::external_body]
#[verifier::reject_recursive_types(T)]
pub struct WholeRing<T> {
    rb: ringbuf::HeapRb<T>,
}

/// The producing half of the ring buffer of a channel, held opaquely: the
/// ring buffer's type is bounded by ringbuf's own traits, so it is reached
/// only through the functions below.
#[verifier::external_body]
#[verifier::reject_recursive_types(T)]
pub struct ProdHalf<T> {
    prod: ringbuf::HeapProd<T>,
}

/// The consuming half of the ring buffer of a channel, held opaquely.
#[verifier::external_body]
#[verifier::reject_recursive_types(T)]
pub struct ConsHalf<T> {
    cons: ringbuf::HeapCons<T>,
}

/// A new ring buffer that no one else holds yet, with its capacity in
/// samples and the log of the samples written into it.
#[verifier::reject_recursive_types(T)]
pub struct FreshRing<T> {
    whole: WholeRing<T>,
    capacity: usize,
    written: Ghost<Seq<T>>,
}

/// The producing half of a ring buffer, with the capacity in samples that
/// the ring buffer was made with, the room this half knows is free, and the
/// log of the samples written into the ring buffer.
#[verifier::reject_recursive_types(T)]
pub struct RingProd<T> {
    half: ProdHalf<T>,
    capacity: usize,
    room: Ghost<nat>,
    written: Ghost<Seq<T>>,
}

/// The consuming half of a ring buffer, with the capacity in samples that
/// the ring buffer was made with and the samples this half knows are queued.
#[verifier::reject_recursive_types(T)]
pub struct RingCons<T> {
    half: ConsHalf<T>,
    capacity: usize,
    queued: Ghost<nat>,
}

impl<T> FreshRing<T> {
    /// The capacity of the ring buffer in samples.
    pub closed spec fn capacity(&self) -> usize {
        self.capacity
    }

    /// The samples written into the ring buffer, oldest first; none has been
    /// read yet.
    pub closed spec fn written(&self) -> Seq<T> {
        self.written@
    }
}

impl<T> RingProd<T> {
    /// The capacity of the ring buffer in samples.
    pub closed spec fn capacity(&self) -> usize {
        self.capacity
    }

    /// The samples written into the ring buffer since it was made, oldest
    /// first.
    pub closed spec fn written(&self) -> Seq<T> {
        self.written@
    }

    /// Samples of room this half knows to be free: the room it last saw, less
    /// what it pushed since.
    pub closed spec fn room(&self) -> nat {
        self.room@
    }
}

impl<T> RingCons<T> {
    /// The capacity of the ring buffer in samples.
    pub closed spec fn capacity(&self) -> usize {
        self.capacity
    }

    /// Samples this half knows to be queued: those it last saw, less what it
    /// removed since.
    pub closed spec fn queued(&self) -> nat {
        self.queued@
    }
}

/// What a half knows of a count after it took `n` of the `known` samples (or
/// slots) it was sure of: the rest, or none when it took more than it was
/// sure of.
pub open spec fn known_after(known: nat, n: nat) -> nat {
    if n <= known {
        (known - n) as nat
    } else {
        0
    }
}

/// `ringbuf::HeapRb::new`: a new, empty ring buffer of `capacity` samples
/// (its storage is allocated with exactly that length). It panics on a zero
/// capacity, which the `requires` rules out.
#[verifier::external_body]
pub(crate) fn ring_new<T>(capacity: usize) -> (ring: FreshRing<T>)
    requires
        capacity > 0,
    ensures
        ring.capacity() == capacity,
        ring.written() == Seq::<T>::empty(),
{
    FreshRing { whole: WholeRing { rb: ringbuf::HeapRb::<T>::new(capacity) }, capacity, written: Ghost(Seq::empty()) }
}

/// `Producer::push_slice` on a ring buffer no one else holds: appends as many
/// samples from the start of `samples` as there is room for, and returns how
/// many. Nothing has been read, so the room is the capacity less what was
/// written.
#[verifier::external_body]
pub(crate) fn ring_prefill<T: Copy>(ring: &mut FreshRing<T>, samples: &[T]) -> (n: usize)
    requires
        old(ring).written().len() <= old(ring).capacity(),
    ensures
        n == if samples@.len() <= old(ring).capacity() - old(ring).written().len() {
            samples@.len() as int
        } else {
            old(ring).capacity() - old(ring).written().len()
        },
        final(ring).capacity() == old(ring).capacity(),
        final(ring).written() == old(ring).written() + samples@.take(n as int),
{
    ring.whole.rb.push_slice(samples)
}

/// `Split::split`: the two halves of a ring buffer no one else holds. The
/// producer knows the room left by what was written, and the consumer knows
/// those samples are queued.
#[verifier::external_body]
pub(crate) fn ring_split<T>(ring: FreshRing<T>) -> (halves: (RingProd<T>, RingCons<T>))
    requires
        ring.written().len() <= ring.capacity(),
    ensures
        halves.0.capacity() == ring.capacity(),
        halves.1.capacity() == ring.capacity(),
        halves.0.room() == ring.capacity() - ring.written().len(),
        halves.0.written() == ring.written(),
        halves.1.queued() == ring.written().len(),
{
    let FreshRing { whole, capacity, written } = ring;
    let (prod, cons) = whole.rb.split();
    (
        RingProd { half: ProdHalf { prod }, capacity, room: Ghost((capacity - written@.len()) as nat), written },
        RingCons { half: ConsHalf { cons }, capacity, queued: Ghost(written@.len()) },
    )
}

/// `Producer::push_slice`: appends as many samples from the start of `samples`
/// as there is room for, and returns how many; those samples are written, in
/// order, behind what was written before. The source computes the count as
/// the smaller of their number and the free room at the call, which is at
/// least the room this half knew of.
#[verifier::external_body]
pub(crate) fn ring_push_slice<T: Copy>(prod: &mut RingProd<T>, samples: &[T]) -> (n: usize)
    ensures
        n <= samples@.len(),
        n >= samples@.len() || n >= old(prod).room(),
        final(prod).capacity() == old(prod).capacity(),
        final(prod).room() == known_after(old(prod).room(), n as nat),
        final(prod).written() == old(prod).written() + samples@.take(n as int),
{
    prod.half.prod.push_slice(samples)
}

/// `Observer::vacant_len` on the producer: the free room in samples at this
/// moment. The consumer frees room concurrently, so the contract claims only
/// that it is at least the room this half knew of and at most the capacity:
/// the source computes it modulo twice the capacity from a write index that
/// only this half moves and a read index that trails it by at most the
/// capacity.
#[verifier::external_body]
pub(crate) fn ring_vacant_len<T>(prod: &RingProd<T>) -> (v: usize)
    ensures
        prod.room() <= v <= prod.capacity(),
{
    prod.half.prod.vacant_len()
}

/// `Observer::vacant_len` on the producer, as `ring_vacant_len`, for a caller
/// that holds the half mutably: the half then knows of the room it saw.
#[verifier::external_body]
pub(crate) fn ring_vacant_len_noted<T>(prod: &mut RingProd<T>) -> (v: usize)
    ensures
        old(prod).room() <= v <= old(prod).capacity(),
        final(prod).capacity() == old(prod).capacity(),
        final(prod).room() == v,
        final(prod).written() == old(prod).written(),
{
    prod.half.prod.vacant_len()
}

/// `Observer::occupied_len` on the producer: the samples queued at this
/// moment. The consumer removes samples concurrently, so the contract claims
/// only that they leave at least the room this half knew of free.
#[verifier::external_body]
pub(crate) fn ring_prod_occupied_len<T>(prod: &RingProd<T>) -> (v: usize)
    ensures
        v + prod.room() <= prod.capacity(),
{
    prod.half.prod.occupied_len()
}

/// `Observer::occupied_len` on the producer, as `ring_prod_occupied_len`, for
/// a caller that holds the half mutably: the half then knows that the room
/// left by what it saw queued is free.
#[verifier::external_body]
pub(crate) fn ring_prod_occupied_len_noted<T>(prod: &mut RingProd<T>) -> (v: usize)
    ensures
        v + old(prod).room() <= old(prod).capacity(),
        final(prod).capacity() == old(prod).capacity(),
        final(prod).room() == old(prod).capacity() - v,
        final(prod).written() == old(prod).written(),
{
    prod.half.prod.occupied_len()
}

/// `Observer::occupied_len` on the consumer: the samples queued at this
/// moment. The producer adds samples concurrently, so the contract claims
/// only that they are at least those this half knew of and at most the
/// capacity: the write index leads the read index, which only this half
/// moves, by at most the capacity.
#[verifier::external_body]
pub(crate) fn ring_cons_occupied_len<T>(cons: &RingCons<T>) -> (v: usize)
    ensures
        cons.queued() <= v <= cons.capacity(),
{
    cons.half.cons.occupied_len()
}

/// `Consumer::skip`: removes up to `count` queued samples and returns how many
/// were removed, which the source computes as the smaller of `count` and the
/// samples queued at the call, which are at least those this half knew of.
#[verifier::external_body]
pub(crate) fn ring_skip<T>(cons: &mut RingCons<T>, count: usize) -> (n: usize)
    ensures
        n <= count,
        n >= count || n >= old(cons).queued(),
        final(cons).capacity() == old(cons).capacity(),
        final(cons).queued() == known_after(old(cons).queued(), n as nat),
{
    cons.half.cons.skip(count)
}

/// `Consumer::pop_slice`: moves queued samples to the start of `out`, as many
/// as are queued at the call (at least those this half knew of) and fit, and
/// returns how many; the rest of `out` is untouched.
#[verifier::external_body]
pub(crate) fn ring_pop_slice<T: Copy>(cons: &mut RingCons<T>, out: &mut [T]) -> (n: usize)
    ensures
        n <= old(out)@.len(),
        n >= old(out)@.len() || n >= old(cons).queued(),
        final(out)@.len() == old(out)@.len(),
        forall|k: int| n <= k < old(out)@.len() ==> #[trigger] final(out)@[k] == old(out)@[k],
        final(cons).capacity() == old(cons).capacity(),
        final(cons).queued() == known_after(old(cons).queued(), n as nat),
{
    cons.half.cons.pop_slice(out)
}

/// `Consumer::as_slices`: the queued samples, oldest first, in two slices of
/// the ring buffer's storage. Together they hold the samples queued at the
/// call: at least those this half knew of, which it then knows of, and at
/// most the capacity. Their content is not claimed.
#[verifier::external_body]
pub(crate) fn ring_as_slices<T>(cons: &mut RingCons<T>) -> (slices: (&[T], &[T]))
    ensures
        old(cons).queued() <= slices.0@.len() + slices.1@.len() <= old(cons).capacity(),
        final(cons).capacity() == old(cons).capacity(),
        final(cons).queued() == slices.0@.len() + slices.1@.len(),
{
    cons.half.cons.as_slices()
}

} // verus!
