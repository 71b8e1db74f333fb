//! The requests that a channel's producer posts for its consumer to discard
//! frames, through a counter that the two ends share.
//!
//! The producer's end records each value it stores; the field is private to
//! this module, so only the functions below set it.
use std::sync::atomic::AtomicUsize;
use std::sync::Arc;
use vstd::prelude::*;

verus! {

/// The producer's end of the shared request counter, with the log of the
/// frame counts stored into it.
pub struct ResetRequests {
    counter: Arc<AtomicUsize>,
    posted: Ghost<Seq<usize>>,
}

impl ResetRequests {
    /// The frame counts stored into the counter, oldest first.
    pub closed spec fn posted(&self) -> Seq<usize> {
        self.posted@
    }
}

/// The producer's end of `counter`, before anything is posted.
pub(crate) fn reset_requests(counter: Arc<AtomicUsize>) -> (requests: ResetRequests)
    ensures
        requests.posted() == Seq::<usize>::empty(),
{
    ResetRequests { counter, posted: Ghost(Seq::empty()) }
}

/// `AtomicUsize::store` on the shared counter: stores `frames`, which the log
/// records behind the values stored before.
#[verifier::external_body]
pub(crate) fn post_reset_request(requests: &mut ResetRequests, frames: usize)
    ensures
        final(requests).posted() == old(requests).posted().push(frames),
{
    requests.counter.store(frames, std::sync::atomic::Ordering::Relaxed);
}

} // verus!
