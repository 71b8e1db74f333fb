//! The two ends of a realtime-safe single-producer single-consumer channel for
//! sending interleaved samples across streams, and the bookkeeping of its
//! latency and capacity.
//!
//! The ring buffer is shared with the other end, which may run on another
//! thread: what one end observes of its fill level can change at any moment,
//! so the contracts here state what holds of every observation.
use std::ops::Range;
use std::sync::atomic::AtomicUsize;
use std::sync::Arc;
use vstd::prelude::*;

use crate::buffers::new_samples;
use crate::interleave::min_int;
use crate::non_realtime::silence;
use crate::request::{post_reset_request, reset_requests, ResetRequests};
use crate::ring::{
    known_after, ring_as_slices, ring_cons_occupied_len, ring_pop_slice, ring_prod_occupied_len,
    ring_prod_occupied_len_noted, ring_prefill, ring_push_slice, ring_skip, ring_split, ring_vacant_len, ring_new, ring_vacant_len_noted, RingCons,
    RingProd,
};

verus! {

use vstd::slice::slice_subrange;

/// The status of reading data from [`ResamplingCons::read`].
#[derive(Debug, Clone, Copy, PartialEq, Eq, Structural)]
pub enum ReadStatus {
    /// The buffer was fully filled with samples from the input stream.
    Filled,
    /// An input underflow occured. This may result in audible audio glitches.
    Underflow { num_frames_dropped: usize },
}

/// `Arc::clone`: another handle to the same shared value.
#[verifier::external_body]
fn arc_clone<T>(a: &Arc<T>) -> (b: Arc<T>)
    ensures
        b == *a,
{
    Arc::clone(a)
}

/// `fast_interleave::interleave_variable`: interleaves frames `start .. end`
/// of the channels of `input` into the start of `output`, with `num_channels`
/// samples per frame; output samples of channels that `input` lacks are left
/// untouched, and nothing changes when the range or `input` is empty. The
/// function panics, on a non-empty range, when the range exceeds one of the
/// first `num_channels` input channels (for two output channels and at least
/// two input channels, any input channel), or when `output` is too short;
/// the `requires` rules that out.
#[verifier::external_body]
fn interleave_variable<T: Copy>(input: &[Vec<T>], start: usize, end: usize, output: &mut [T], num_channels: usize)
    requires
        num_channels > 0,
        start <= end,
        (end - start) * num_channels <= old(output)@.len(),
        start < end ==> channels_cover(input@, num_channels as int, end as int),
    ensures
        final(output)@ == crate::interleave::interleaved_at(
            input@,
            old(output)@,
            num_channels as int,
            start as int,
            0,
            (end - start) as int,
        ),
{
    fast_interleave::interleave_variable(input, start..end, output, std::num::NonZeroUsize::new(num_channels).unwrap())
}

/// The input channels that interleaving into `n` channels reads reach frame
/// `end`: the first `n` of them, and every one of them when `n` is 2 (where
/// `fast_interleave` checks them all).
pub open spec fn channels_cover<T>(input: Seq<Vec<T>>, n: int, end: int) -> bool {
    forall|c: int| 0 <= c < input.len() && (c < n || n == 2) ==> end <= (#[trigger] input[c])@.len()
}

/// `fast_interleave::deinterleave_variable`: writes the frames of the
/// interleaved `input` (with `num_channels` samples per frame) to frames
/// `start .. end` of the first `num_channels` channels of `output`; other
/// channels are left untouched, and nothing changes when the range or `output`
/// is empty. The function panics when the range exceeds an output channel (for
/// two channels it checks every output channel) or `input` is too short,
/// which the `requires` rules out.
#[verifier::external_body]
fn deinterleave_variable<T: Copy>(input: &[T], num_channels: usize, output: &mut [Vec<T>], start: usize, end: usize)
    requires
        num_channels > 0,
        start <= end,
        (end - start) * num_channels <= input@.len(),
        forall|c: int| 0 <= c < old(output)@.len() ==> end <= (#[trigger] old(output)@[c])@.len(),
    ensures
        final(output)@.len() == old(output)@.len(),
        forall|c: int|
            0 <= c < old(output)@.len() ==> (#[trigger] final(output)@[c])@ == crate::interleave::deinterleaved_channel(
                input@,
                old(output)@[c]@,
                num_channels as int,
                c,
                start as int,
                (end - start) as int,
            ),
{
    fast_interleave::deinterleave_variable(input, std::num::NonZeroUsize::new(num_channels).unwrap(), output, start..end)
}

/// The latency that the channel itself adds, in output frames: the whole
/// latency, less the resampler's delay when the channel resamples and that
/// delay is to be subtracted (and none when the delay covers the latency).
pub fn channel_latency_frames(
    latency_frames: usize,
    is_resampling: bool,
    subtract_resampler_delay: bool,
    resampler_output_delay: usize,
) -> (n: usize)
    ensures
        n == if is_resampling && subtract_resampler_delay {
            if latency_frames > resampler_output_delay {
                (latency_frames - resampler_output_delay) as int
            } else {
                0
            }
        } else {
            latency_frames as int
        },
{
    if is_resampling && subtract_resampler_delay {
        if latency_frames > resampler_output_delay {
            latency_frames - resampler_output_delay
        } else {
            0
        }
    } else {
        latency_frames
    }
}

/// The capacity of the channel in frames: the capacity asked for, but at
/// least twice the channel's latency.
pub fn buffer_capacity_frames(capacity_frames: usize, channel_latency_frames: usize) -> (n: usize)
    requires
        channel_latency_frames * 2 <= usize::MAX,
    ensures
        n == if capacity_frames >= channel_latency_frames * 2 {
            capacity_frames as int
        } else {
            channel_latency_frames * 2
        },
{
    let twice = channel_latency_frames * 2;
    if capacity_frames >= twice {
        capacity_frames
    } else {
        twice
    }
}

/// The input frames a resampling producer can take, given `input_vacant_frames`,
/// the free room of the channel converted to input frames: one frame less, to
/// give some leeway for rounding, rounded down to whole blocks of
/// `block_frames` frames (none when not even one block fits), less the
/// `buffered_frames` the resampler already holds towards its next block.
pub fn resampler_input_frames(input_vacant_frames: usize, block_frames: usize, buffered_frames: usize) -> (n: usize)
    requires
        0 <= buffered_frames < block_frames,
    ensures
        ({
            let leeway: int = if input_vacant_frames > 0 {
                input_vacant_frames - 1
            } else {
                0
            };
            n == if leeway < block_frames {
                0
            } else {
                (leeway / block_frames as int) * block_frames - buffered_frames
            }
        }),
{
    let mut frames = input_vacant_frames;
    if frames > 0 {
        frames = frames - 1;
    }
    if frames < block_frames {
        return 0;
    }
    let blocks = frames / block_frames;
    proof {
        vstd::arithmetic::div_mod::lemma_fundamental_div_mod(frames as int, block_frames as int);
        assert(blocks * block_frames <= frames && blocks >= 1) by (nonlinear_arith)
            requires
                frames as int == block_frames * blocks + (frames as int) % (block_frames as int),
                0 <= (frames as int) % (block_frames as int) < block_frames,
                frames >= block_frames,
                block_frames > 0,
        ;
        assert(blocks * block_frames >= block_frames) by (nonlinear_arith)
            requires
                blocks >= 1,
                block_frames > 0,
        ;
    }
    blocks * block_frames - buffered_frames
}

/// The producer end of a realtime-safe spsc channel for sending samples across
/// streams.
#[verifier::reject_recursive_types(T)]
pub struct ResamplingProd<T> {
    prod: RingProd<T>,
    num_channels: usize,
    channel_latency_frames: usize,
    in_sample_rate: u32,
    out_sample_rate: u32,
    requests: ResetRequests,
    scratch: Vec<T>,
    zeros: Vec<T>,
    zero: T,
}

/// The consumer end of a realtime-safe spsc channel for sending samples across
/// streams.
#[verifier::reject_recursive_types(T)]
pub struct ResamplingCons<T> {
    cons: RingCons<T>,
    num_channels: usize,
    latency_frames: usize,
    resampler_output_delay: usize,
    in_sample_rate: u32,
    out_sample_rate: u32,
    is_resampling: bool,
    reset_frames_to_discard: Arc<AtomicUsize>,
    zero: T,
    /// The number of samples this end has removed from the ring buffer since
    /// the channel was made, as the ring buffer reported them.
    removed: Ghost<nat>,
    /// The discard requests this end has taken from the counter it shares
    /// with the producer, oldest first.
    taken: Ghost<Seq<usize>>,
}

/// The samples that `after` holds beyond its prefix `before`.
pub open spec fn appended<T>(before: Seq<T>, after: Seq<T>) -> Seq<T> {
    after.skip(before.len() as int)
}

/// `after` is `before` followed by more samples.
pub open spec fn extends<T>(before: Seq<T>, after: Seq<T>) -> bool {
    &&& before.len() <= after.len()
    &&& after == before + appended(before, after)
}

/// Sample `i` of `samples` is, for every channel that `input` has, the sample
/// of channel `i % n` at frame `start + i / n`: `samples` interleaves the
/// frames of `input` from frame `start` on, `n` samples per frame.
pub open spec fn interleaves<T>(samples: Seq<T>, input: Seq<Vec<T>>, n: int, start: int) -> bool {
    forall|i: int|
        0 <= i < samples.len() && i % n < input.len() ==> #[trigger] samples[i] == input[i % n]@[start + i / n]
}

/// The frames a push takes when `frames` are offered and `vacant` samples of
/// room, in frames of `n` samples, were seen free.
pub open spec fn push_count(frames: int, vacant: int, n: int) -> int {
    min_int(frames, vacant / n)
}

/// The samples of silence to queue against an underflow, when `occupied`
/// samples were seen queued and the latency is `latency` samples: the latency
/// when the channel was empty, none otherwise.
pub open spec fn underflow_fill(occupied: int, latency: int) -> int {
    if occupied == 0 {
        latency
    } else {
        0
    }
}

/// The frames that `vacant` samples of room take of the `frames` offered, in
/// frames of `num_channels` samples.
pub fn frames_to_push(frames: usize, vacant: usize, num_channels: usize) -> (count: usize)
    requires
        num_channels > 0,
    ensures
        count == push_count(frames as int, vacant as int, num_channels as int),
{
    let room = vacant / num_channels;
    if frames < room {
        frames
    } else {
        room
    }
}

/// The samples of silence to queue against an underflow, when `occupied`
/// samples were seen queued and the latency is `latency` samples.
pub fn silence_to_queue(occupied: usize, latency: usize) -> (k: usize)
    ensures
        k == underflow_fill(occupied as int, latency as int),
{
    if occupied == 0 {
        latency
    } else {
        0
    }
}

/// Create the two ends of a channel with `num_channels` channels, a ring
/// buffer of `buffer_capacity_frames` frames, prefilled with
/// `channel_latency_frames` frames of silence (`zero`) to create the latency.
///
/// `latency_frames` is the whole latency in output frames, and
/// `resampler_output_delay` the delay of the resampler that the producer uses,
/// if `is_resampling`.
pub fn resampling_channel_inner<T: Copy>(
    num_channels: usize,
    in_sample_rate: u32,
    out_sample_rate: u32,
    latency_frames: usize,
    channel_latency_frames: usize,
    buffer_capacity_frames: usize,
    is_resampling: bool,
    resampler_output_delay: usize,
    zero: T,
) -> (ends: (ResamplingProd<T>, ResamplingCons<T>))
    requires
        num_channels > 0,
        in_sample_rate != 0,
        out_sample_rate != 0,
        buffer_capacity_frames > 0,
        channel_latency_frames <= buffer_capacity_frames,
        buffer_capacity_frames * num_channels <= usize::MAX,
    ensures
        ends.0.wf(),
        ends.1.wf(),
        ends.0.channels() == num_channels,
        ends.1.channels() == num_channels,
        ends.0.in_rate() == in_sample_rate,
        ends.0.out_rate() == out_sample_rate,
        ends.1.in_rate() == in_sample_rate,
        ends.1.out_rate() == out_sample_rate,
        ends.0.latency_fill() == channel_latency_frames,
        ends.0.zero_sample() == zero,
        ends.1.zero_sample() == zero,
        ends.1.latency() == latency_frames,
        ends.1.resampling() == is_resampling,
        ends.1.delay() == if is_resampling {
            resampler_output_delay
        } else {
            0
        },
        ends.0.capacity_samples() == buffer_capacity_frames * num_channels,
        ends.1.capacity_samples() == buffer_capacity_frames * num_channels,
        ends.0.sent_samples() == silence(channel_latency_frames * num_channels, zero),
        ends.0.known_room() == (buffer_capacity_frames - channel_latency_frames) * num_channels,
        ends.0.discard_requests().len() == 0,
        ends.1.removed_samples() == 0,
        ends.1.known_queued() == channel_latency_frames * num_channels,
        ends.1.taken_requests() == Seq::<usize>::empty(),
{
    assert(buffer_capacity_frames * num_channels > 0 && channel_latency_frames * num_channels
        <= buffer_capacity_frames * num_channels) by (nonlinear_arith)
        requires
            buffer_capacity_frames > 0,
            num_channels > 0,
            channel_latency_frames <= buffer_capacity_frames,
    ;
    assert((buffer_capacity_frames - channel_latency_frames) * num_channels == buffer_capacity_frames
        * num_channels - channel_latency_frames * num_channels) by (nonlinear_arith);
    let mut ring = ring_new::<T>(buffer_capacity_frames * num_channels);
    let zeros = new_samples(channel_latency_frames * num_channels, zero);
    let _ = ring_prefill(&mut ring, zeros.as_slice());
    assert(ring.written() =~= zeros@);
    let (prod, cons) = ring_split(ring);
    let counter = Arc::new(AtomicUsize::new(0));
    let requests = reset_requests(arc_clone(&counter));
    proof {
        vstd::arithmetic::div_mod::lemma_mod_multiples_basic(channel_latency_frames as int, num_channels as int);
    }
    let scratch = new_samples(buffer_capacity_frames * num_channels, zero);
    let delay = if is_resampling {
        resampler_output_delay
    } else {
        0
    };
    (
        ResamplingProd {
            prod,
            num_channels,
            channel_latency_frames,
            in_sample_rate,
            out_sample_rate,
            requests,
            scratch,
            zeros,
            zero,
        },
        ResamplingCons {
            cons,
            num_channels,
            latency_frames,
            resampler_output_delay: delay,
            in_sample_rate,
            out_sample_rate,
            is_resampling,
            reset_frames_to_discard: counter,
            zero,
            removed: Ghost(0),
            taken: Ghost(Seq::empty()),
        },
    )
}

impl<T: Copy> ResamplingProd<T> {
    /// The invariant of the producer end.
    pub closed spec fn wf(&self) -> bool {
        &&& self.num_channels > 0
        &&& self.zeros@.len() == self.channel_latency_frames * self.num_channels
        &&& self.zeros@ == silence(self.zeros@.len() as int, self.zero)
        &&& self.zeros@.len() <= self.prod.capacity()
        &&& self.scratch@.len() == self.prod.capacity()
        &&& self.prod.room() <= self.prod.capacity()
        &&& (self.prod.written().len() as int) % (self.num_channels as int) == 0
    }

    /// The number of channels.
    pub closed spec fn channels(&self) -> nat {
        self.num_channels as nat
    }

    /// The end has channels, what it knows of the ring buffer's fill level
    /// lies within the capacity, and it has only ever written whole frames
    /// into the ring buffer.
    pub proof fn lemma_wf_sizes(&self)
        requires
            self.wf(),
        ensures
            self.channels() > 0,
            self.known_room() <= self.capacity_samples(),
            (self.sent_samples().len() as int) % (self.channels() as int) == 0,
    {
    }

    /// The sample rate of the input stream.
    pub closed spec fn in_rate(&self) -> u32 {
        self.in_sample_rate
    }

    /// The sample rate of the output stream.
    pub closed spec fn out_rate(&self) -> u32 {
        self.out_sample_rate
    }

    /// The frames of silence that create the channel's latency.
    pub closed spec fn latency_fill(&self) -> nat {
        self.channel_latency_frames as nat
    }

    /// The value of silence.
    pub closed spec fn zero_sample(&self) -> T {
        self.zero
    }

    /// The samples written into the channel's ring buffer since it was made,
    /// oldest first.
    pub closed spec fn sent_samples(&self) -> Seq<T> {
        self.prod.written()
    }

    /// The frame counts this end has asked the consumer to discard, oldest
    /// first.
    pub closed spec fn discard_requests(&self) -> Seq<usize> {
        self.requests.posted()
    }

    /// The capacity of the channel in samples.
    pub closed spec fn capacity_samples(&self) -> nat {
        self.prod.capacity() as nat
    }

    /// Samples of room this end knows to be free: the room it last saw, less
    /// what it sent since. The consumer only frees room, so at least this
    /// much is free.
    pub closed spec fn known_room(&self) -> nat {
        self.prod.room()
    }

    /// Everything but the ring buffer is unchanged.
    pub open spec fn same_config(&self, other: &Self) -> bool {
        &&& self.channels() == other.channels()
        &&& self.in_rate() == other.in_rate()
        &&& self.out_rate() == other.out_rate()
        &&& self.latency_fill() == other.latency_fill()
        &&& self.zero_sample() == other.zero_sample()
        &&& self.capacity_samples() == other.capacity_samples()
    }

    /// What a push of frames did: with `vacant` the room it saw free, it took
    /// `push_count(frames, vacant)` frames, all of which entered the channel,
    /// interleaving `input` from frame `start` on.
    pub open spec fn pushed_frames(
        &self,
        old: &Self,
        input: Seq<Vec<T>>,
        start: int,
        frames: int,
        pushed: int,
        vacant: int,
    ) -> bool {
        let added = appended(old.sent_samples(), self.sent_samples());
        let n = old.channels() as int;
        &&& extends(old.sent_samples(), self.sent_samples())
        &&& old.known_room() <= vacant <= old.capacity_samples()
        &&& pushed == push_count(frames, vacant, n)
        &&& added.len() == pushed * n
        &&& self.known_room() == vacant - pushed * n
        &&& interleaves(added, input, n, start)
        &&& self.discard_requests() == old.discard_requests()
    }

    /// Push frames `in_start_frame .. in_start_frame + frames` of the
    /// de-interleaved `input`, as many as the channel has room for, as whole
    /// interleaved frames.
    ///
    /// Returns the number of frames that were pushed: with `vacant` the room
    /// seen free, `min(frames, vacant / num_channels)`, at least as many as
    /// the room this end knew of holds. They all enter the channel.
    pub fn push_internal(&mut self, input: &[Vec<T>], in_start_frame: usize, frames: usize) -> (pushed: usize)
        requires
            old(self).wf(),
            in_start_frame + frames <= usize::MAX,
            frames > 0 ==> channels_cover(input@, old(self).channels() as int, in_start_frame + frames),
        ensures
            final(self).wf(),
            final(self).same_config(old(self)),
            pushed <= frames,
            pushed >= push_count(frames as int, old(self).known_room() as int, old(self).channels() as int),
            exists|vacant: int|
                #![trigger push_count(frames as int, vacant, old(self).channels() as int)]
                final(self).pushed_frames(
                    old(self),
                    input@,
                    in_start_frame as int,
                    frames as int,
                    pushed as int,
                    vacant,
                ),
    {
        let n = self.num_channels;
        let vacant = ring_vacant_len_noted(&mut self.prod);
        let count = frames_to_push(frames, vacant, n);
        proof {
            vstd::arithmetic::div_mod::lemma_div_is_ordered(
                old(self).prod.room() as int,
                vacant as int,
                n as int,
            );
        }
        if count == 0 {
            proof {
                lemma_extends_itself(self.prod.written());
                assert(push_count(frames as int, vacant as int, n as int) == 0);
                assert(final(self).pushed_frames(
                    old(self),
                    input@,
                    in_start_frame as int,
                    frames as int,
                    0,
                    vacant as int,
                ));
            }
            return 0;
        }
        proof {
            lemma_frames_fit(vacant as int, n as int, count as int);
        }
        let len = count * n;
        interleave_variable(input, in_start_frame, in_start_frame + count, self.scratch.as_mut_slice(), n);
        let ghost before = self.prod.written();
        let pushed_samples = ring_push_slice(&mut self.prod, slice_subrange(self.scratch.as_slice(), 0, len));
        let ghost added = self.scratch@.subrange(0, len as int);
        proof {
            assert(pushed_samples == len);
            assert(self.scratch@.subrange(0, len as int).take(len as int) =~= added);
            assert(appended(before, self.prod.written()) =~= added);
            lemma_whole_frames_after(before.len() as int, count as int, n as int);
            assert forall|i: int|
                0 <= i < added.len() && i % (n as int) < input@.len() implies #[trigger] added[i] == input@[i
                % (n as int)]@[in_start_frame + i / (n as int)] by {
                lemma_frame_of_sample(i, n as int, count as int);
            }
            assert(push_count(frames as int, vacant as int, n as int) == count);
            assert(final(self).pushed_frames(
                old(self),
                input@,
                in_start_frame as int,
                frames as int,
                count as int,
                vacant as int,
            ));
        }
        count
    }

    /// Push the given data in de-interleaved format.
    ///
    /// * `input` - The input data in de-interleaved format.
    /// * `input_range` - The range in each channel in `input` to read from.
    ///
    /// Returns the number of input frames that were pushed to the channel:
    /// as many as the room seen free holds, up to the size of the range. If
    /// this value is less than the size of the range, then it means an
    /// overflow has occurred.
    pub fn push(&mut self, input: &[Vec<T>], input_range: Range<usize>) -> (pushed: usize)
        requires
            old(self).wf(),
            input@.len() >= old(self).channels(),
            input_range.start <= input_range.end,
            input_range.start < input_range.end ==> channels_cover(
                input@,
                old(self).channels() as int,
                input_range.end as int,
            ),
        ensures
            final(self).wf(),
            final(self).same_config(old(self)),
            pushed <= input_range.end - input_range.start,
            pushed >= push_count(
                input_range.end - input_range.start,
                old(self).known_room() as int,
                old(self).channels() as int,
            ),
            exists|vacant: int|
                #![trigger push_count(input_range.end - input_range.start, vacant, old(self).channels() as int)]
                final(self).pushed_frames(
                    old(self),
                    input@,
                    input_range.start as int,
                    input_range.end - input_range.start,
                    pushed as int,
                    vacant,
                ),
    {
        let frames = input_range.end - input_range.start;
        self.push_internal(input, input_range.start, frames)
    }

    /// Push the given data in interleaved format.
    ///
    /// Only whole frames are pushed: as many of the frames of `input` as the
    /// room seen free holds, from its start. Returns their number; if it is
    /// less than the number of frames in `input`, then it means an overflow
    /// has occurred.
    pub fn push_interleaved(&mut self, input: &[T]) -> (pushed: usize)
        requires
            old(self).wf(),
        ensures
            final(self).wf(),
            final(self).same_config(old(self)),
            pushed >= push_count(
                input@.len() as int / old(self).channels() as int,
                old(self).known_room() as int,
                old(self).channels() as int,
            ),
            exists|vacant: int|
                #![trigger push_count(input@.len() as int / old(self).channels() as int, vacant, old(self).channels() as int)]
                {
                    let added = appended(old(self).sent_samples(), final(self).sent_samples());
                    let n = old(self).channels() as int;
                    &&& extends(old(self).sent_samples(), final(self).sent_samples())
                    &&& old(self).known_room() <= vacant <= old(self).capacity_samples()
                    &&& pushed == push_count(input@.len() as int / n, vacant, n)
                    &&& added == input@.take(pushed * n)
                    &&& final(self).known_room() == vacant - pushed * n
                    &&& final(self).discard_requests() == old(self).discard_requests()
                },
    {
        let n = self.num_channels;
        let vacant = ring_vacant_len_noted(&mut self.prod);
        let count = frames_to_push(input.len() / n, vacant, n);
        proof {
            vstd::arithmetic::div_mod::lemma_div_is_ordered(
                old(self).prod.room() as int,
                vacant as int,
                n as int,
            );
            lemma_frames_fit(vacant as int, n as int, count as int);
            lemma_frames_fit(input@.len() as int, n as int, count as int);
        }
        let len = count * n;
        let ghost before = self.prod.written();
        let pushed_samples = ring_push_slice(&mut self.prod, slice_subrange(input, 0, len));
        let ghost added = input@.take(len as int);
        proof {
            assert(pushed_samples == len);
            assert(input@.subrange(0, len as int).take(len as int) =~= added);
            assert(appended(before, self.prod.written()) =~= added);
            lemma_whole_frames_after(before.len() as int, count as int, n as int);
            assert(push_count(input@.len() as int / n as int, vacant as int, n as int) == count);
        }
        count
    }

    /// Queue `k` samples of silence, whole frames that this end knows there
    /// is room for.
    fn push_silence(&mut self, k: usize)
        requires
            old(self).wf(),
            k <= old(self).latency_fill() * old(self).channels(),
            k <= old(self).known_room(),
            (k as int) % (old(self).channels() as int) == 0,
        ensures
            final(self).wf(),
            final(self).same_config(old(self)),
            final(self).discard_requests() == old(self).discard_requests(),
            extends(old(self).sent_samples(), final(self).sent_samples()),
            appended(old(self).sent_samples(), final(self).sent_samples()) == silence(k as int, old(self).zero_sample()),
            final(self).known_room() == old(self).known_room() - k,
    {
        let ghost before = self.prod.written();
        let pushed_samples = ring_push_slice(&mut self.prod, slice_subrange(self.zeros.as_slice(), 0, k));
        proof {
            assert(pushed_samples == k);
            assert(self.zeros@.subrange(0, k as int).take(k as int) =~= silence(k as int, self.zero));
            assert(appended(before, self.prod.written()) =~= silence(k as int, self.zero));
            vstd::arithmetic::div_mod::lemma_fundamental_div_mod(k as int, self.num_channels as int);
            lemma_whole_frames_after(before.len() as int, k as int / self.num_channels as int, self.num_channels as int);
        }
    }

    /// If the channel is empty due to an underflow, fill the channel with the
    /// channel's latency of silence to avoid excessive underflows in the future
    /// and reduce the percieved audible glitchiness.
    ///
    /// With `occupied` the samples seen queued, the whole latency of silence
    /// is queued when `occupied` is 0, and nothing otherwise.
    pub fn correct_underflows(&mut self)
        requires
            old(self).wf(),
        ensures
            final(self).wf(),
            final(self).same_config(old(self)),
            final(self).discard_requests() == old(self).discard_requests(),
            extends(old(self).sent_samples(), final(self).sent_samples()),
            exists|occupied: int|
                #![trigger underflow_fill(occupied, (old(self).latency_fill() * old(self).channels()) as int)]
                {
                    let added = appended(old(self).sent_samples(), final(self).sent_samples());
                    let k = underflow_fill(occupied, (old(self).latency_fill() * old(self).channels()) as int);
                    &&& 0 <= occupied && occupied + old(self).known_room() <= old(self).capacity_samples()
                    &&& added == silence(k, old(self).zero_sample())
                    &&& final(self).known_room() == old(self).capacity_samples() - occupied - k
                    &&& occupied == 0 ==> added.len() == old(self).latency_fill() * old(self).channels()
                    &&& occupied != 0 ==> added.len() == 0
                },
    {
        let occupied = ring_prod_occupied_len_noted(&mut self.prod);
        let k = silence_to_queue(occupied, self.zeros.len());
        proof {
            vstd::arithmetic::div_mod::lemma_mod_multiples_basic(self.channel_latency_frames as int, self.num_channels as int);
        }
        self.push_silence(k);
        proof {
            assert(underflow_fill(
                occupied as int,
                (old(self).latency_fill() * old(self).channels()) as int,
            ) == k);
        }
    }

    /// Returns the number of frames that the ring buffer has room for at this
    /// moment: at least the room this end knows of, at most the whole frames
    /// of its capacity.
    pub fn available_frames(&self) -> (n: usize)
        requires
            self.wf(),
        ensures
            self.known_room() / self.channels() <= n <= self.capacity_samples() / self.channels(),
    {
        let samples = ring_vacant_len(&self.prod);
        proof {
            vstd::arithmetic::div_mod::lemma_div_is_ordered(samples as int, self.prod.capacity() as int, self.num_channels as int);
            vstd::arithmetic::div_mod::lemma_div_is_ordered(self.prod.room() as int, samples as int, self.num_channels as int);
        }
        samples / self.num_channels
    }

    /// The amount of data that is currently present in the channel, in units of
    /// output frames: at most the whole frames of its capacity beyond the room
    /// this end knows of.
    pub fn occupied_output_frames(&self) -> (n: usize)
        requires
            self.wf(),
        ensures
            n * self.channels() + self.known_room() <= self.capacity_samples(),
    {
        let samples = ring_prod_occupied_len(&self.prod);
        proof {
            vstd::arithmetic::div_mod::lemma_fundamental_div_mod(samples as int, self.num_channels as int);
            assert((samples as int / self.num_channels as int) * self.num_channels <= samples) by (nonlinear_arith)
                requires
                    samples as int == self.num_channels * (samples as int / self.num_channels as int) + samples as int % self.num_channels as int,
                    0 <= samples as int % self.num_channels as int,
            ;
        }
        samples / self.num_channels
    }

    /// The number of channels configured for this stream.
    pub fn num_channels(&self) -> (n: usize)
        ensures
            n == self.channels(),
    {
        self.num_channels
    }

    /// The sample rate of the input stream.
    pub fn in_sample_rate(&self) -> (r: u32)
        ensures
            r == self.in_rate(),
    {
        self.in_sample_rate
    }

    /// The sample rate of the output stream.
    pub fn out_sample_rate(&self) -> (r: u32)
        ensures
            r == self.out_rate(),
    {
        self.out_sample_rate
    }

    /// Tell the consumer to clear all frames queued now, and queue the
    /// channel's latency of silence behind them.
    ///
    /// With `occupied` the samples seen queued, the request is for the whole
    /// frames among them, and as many whole frames of the latency of silence
    /// are queued as the room left beside them holds.
    pub fn reset(&mut self)
        requires
            old(self).wf(),
        ensures
            final(self).wf(),
            final(self).same_config(old(self)),
            extends(old(self).sent_samples(), final(self).sent_samples()),
            exists|occupied: int|
                #![trigger occupied_frames(occupied, old(self).channels() as int)]
                {
                    let added = appended(old(self).sent_samples(), final(self).sent_samples());
                    let latency = old(self).latency_fill() * old(self).channels();
                    let k = reset_fill(latency as int, old(self).capacity_samples() - occupied, old(self).channels() as int);
                    &&& 0 <= occupied && occupied + old(self).known_room() <= old(self).capacity_samples()
                    &&& final(self).discard_requests() == old(self).discard_requests().push(
                        occupied_frames(occupied, old(self).channels() as int) as usize,
                    )
                    &&& added == silence(k, old(self).zero_sample())
                    &&& final(self).known_room() == old(self).capacity_samples() - occupied - k
                    &&& final(self).discard_requests().last() * old(self).channels() <= occupied
                    &&& occupied < (final(self).discard_requests().last() + 1) * old(self).channels()
                    &&& k <= latency
                    &&& k + occupied <= old(self).capacity_samples()
                    &&& k % (old(self).channels() as int) == 0
                    &&& (k == latency || old(self).capacity_samples() - occupied - k < old(self).channels())
                },
    {
        let occupied = ring_prod_occupied_len_noted(&mut self.prod);
        let n = self.num_channels;
        let frames = occupied / n;
        post_reset_request(&mut self.requests, frames);
        let room = self.scratch.len() - occupied;
        let k = silence_after_reset(self.zeros.len(), room, n);
        proof {
            vstd::arithmetic::div_mod::lemma_fundamental_div_mod(room as int, n as int);
            assert((room as int / n as int) * n <= room) by (nonlinear_arith)
                requires
                    room as int == n * (room as int / n as int) + room as int % n as int,
                    0 <= room as int % n as int,
            ;
            vstd::arithmetic::div_mod::lemma_mod_multiples_basic(room as int / n as int, n as int);
            vstd::arithmetic::div_mod::lemma_mod_multiples_basic(self.channel_latency_frames as int, n as int);
            assert(occupied_frames(occupied as int, old(self).channels() as int) == frames);
            lemma_request_counts_whole_frames(occupied as int, n as int);
            lemma_reset_fill_whole_frames(self.zeros@.len() as int, room as int, n as int);
        }
        self.push_silence(k);
    }
}

/// The samples a discard asks of the ring buffer when `requested` frames of
/// `n` samples are to be discarded: all of them, up to the whole frames a
/// `usize` counts.
pub open spec fn discard_asked(requested: int, n: int) -> int {
    min_int(requested, usize::MAX as int / n) * n
}

/// `discarded` samples were removed for a request of `requested` frames of
/// `n` samples, when `known` samples were known to be queued: at most those
/// asked, and all of them unless the ring buffer held fewer than asked (so
/// at least the known ones).
pub open spec fn discarded_for(requested: int, discarded: int, known: nat, n: int) -> bool {
    let asked = discard_asked(requested, n);
    &&& 0 <= discarded <= asked
    &&& discarded == asked || discarded >= known
}

/// The whole frames of `n` samples among `samples`.
pub open spec fn occupied_frames(samples: int, n: int) -> int {
    samples / n
}

/// The silence a reset queues behind the frames to discard, when the latency
/// is `latency` samples and `room` samples were left free beside those
/// frames: the whole frames of the latency that the room holds.
pub open spec fn reset_fill(latency: int, room: int, n: int) -> int {
    min_int(latency, (room / n) * n)
}

/// The frame count a reset asks to discard is the number of whole frames it
/// saw queued: they fit in the samples seen, and one more would not.
pub proof fn lemma_request_counts_whole_frames(samples: int, n: int)
    requires
        n > 0,
        0 <= samples,
    ensures
        occupied_frames(samples, n) * n <= samples < (occupied_frames(samples, n) + 1) * n,
        0 <= occupied_frames(samples, n),
{
    vstd::arithmetic::div_mod::lemma_fundamental_div_mod(samples, n);
    let q = samples / n;
    assert(q * n <= samples < (q + 1) * n && 0 <= q) by (nonlinear_arith)
        requires
            samples == n * q + samples % n,
            0 <= samples % n < n,
            0 <= samples,
    ;
}

/// The silence a reset queues is whole frames, no more than the latency and
/// no more than the room left: all of the latency, or all the whole frames
/// the room holds (less than a frame of room is left).
pub proof fn lemma_reset_fill_whole_frames(latency: int, room: int, n: int)
    requires
        n > 0,
        0 <= latency,
        0 <= room,
        latency % n == 0,
    ensures
        0 <= reset_fill(latency, room, n) <= latency,
        reset_fill(latency, room, n) <= room,
        reset_fill(latency, room, n) % n == 0,
        reset_fill(latency, room, n) == latency || room - reset_fill(latency, room, n) < n,
{
    vstd::arithmetic::div_mod::lemma_fundamental_div_mod(room, n);
    let q = room / n;
    assert(q * n <= room && room - q * n < n && 0 <= q) by (nonlinear_arith)
        requires
            room == n * q + room % n,
            0 <= room % n < n,
            0 <= room,
    ;
    vstd::arithmetic::div_mod::lemma_mod_multiples_basic(q, n);
}

/// The samples a discard removes for a request of `requested` frames that
/// a `usize` counts in samples: none for no request, at most the request,
/// and the whole request when at least that many samples were known queued.
pub proof fn lemma_discard_applies_request(requested: int, discarded: int, known: nat, n: int)
    requires
        n > 0,
        0 <= requested,
        requested * n <= usize::MAX,
        discarded_for(requested, discarded, known, n),
    ensures
        0 <= discarded <= requested * n,
        requested * n <= known ==> discarded == requested * n,
        discarded == requested * n || discarded >= known,
        requested == 0 ==> discarded == 0,
{
    vstd::arithmetic::div_mod::lemma_fundamental_div_mod(usize::MAX as int, n);
    let m = usize::MAX as int / n;
    assert(requested <= m) by (nonlinear_arith)
        requires
            requested * n <= usize::MAX,
            usize::MAX == n * m + (usize::MAX as int) % n,
            0 <= (usize::MAX as int) % n < n,
            n > 0,
    ;
    assert(discard_asked(requested, n) == requested * n);
    assert(0 * n == 0) by (nonlinear_arith);
}

/// The silence a reset queues, in samples, as `reset_fill` states.
pub fn silence_after_reset(latency: usize, room: usize, num_channels: usize) -> (k: usize)
    requires
        num_channels > 0,
    ensures
        k == reset_fill(latency as int, room as int, num_channels as int),
{
    proof {
        lemma_frames_fit(room as int, num_channels as int, room as int / num_channels as int);
    }
    let fit = (room / num_channels) * num_channels;
    if latency <= fit {
        latency
    } else {
        fit
    }
}

/// Appending `count` whole frames of `n` samples to whole frames leaves whole
/// frames.
proof fn lemma_whole_frames_after(len: int, count: int, n: int)
    requires
        n > 0,
        len >= 0,
        count >= 0,
        len % n == 0,
    ensures
        (len + count * n) % n == 0,
{
    vstd::arithmetic::div_mod::lemma_fundamental_div_mod(len, n);
    let q = len / n;
    assert(len + count * n == (q + count) * n) by (nonlinear_arith)
        requires
            len == n * q + len % n,
            len % n == 0,
    ;
    vstd::arithmetic::div_mod::lemma_mod_multiples_basic(q + count, n);
}

/// The content of channel `ch` after `read` zeroed frames `from .. to` of it.
pub open spec fn zeroed_range<T>(ch: Seq<T>, from: int, to: int, zero: T) -> Seq<T> {
    Seq::new(ch.len(), |j: int| if from <= j < to { zero } else { ch[j] })
}

/// The frames a read takes from the first of the two slices of queued
/// samples, of `l1` samples, when `want` frames are asked for.
pub open spec fn first_frames(l1: int, n: int, want: int) -> int {
    min_int(l1 / n, want)
}

/// The frames a read takes from the two slices of queued samples, of `l1`
/// and `l2` samples, when `want` frames of `n` samples are asked for: the
/// whole frames of the first slice, then those of the second, up to `want`.
pub open spec fn frames_read(l1: int, l2: int, n: int, want: int) -> int {
    let a = first_frames(l1, n, want);
    if want > a {
        a + min_int(l2 / n, want - a)
    } else {
        a
    }
}

/// Channel `c` (of `n`) after a read of frames `start .. end` from the
/// queued samples `s1` then `s2`: the frames read, then silence up to `end`;
/// the rest of the channel `ch` is kept.
pub open spec fn read_channel<T>(s1: Seq<T>, s2: Seq<T>, n: int, c: int, ch: Seq<T>, start: int, end: int, zero: T) -> Seq<T> {
    let a = first_frames(s1.len() as int, n, end - start);
    let f = frames_read(s1.len() as int, s2.len() as int, n, end - start);
    Seq::new(
        ch.len(),
        |j: int|
            if start <= j < start + a {
                s1[(j - start) * n + c]
            } else if start + a <= j < start + f {
                s2[(j - start - a) * n + c]
            } else if start + f <= j < end {
                zero
            } else {
                ch[j]
            },
    )
}

/// Read the queued samples `s1` then `s2`, interleaved with `num_channels`
/// samples per frame, into frames `start .. end` of the first `num_channels`
/// channels of `output`: whole frames from `s1`, then from `s2`, as many as
/// fit, and silence after them up to `end`. Other channels are untouched.
///
/// Returns the number of frames read.
pub fn read_queued_frames<T: Copy>(
    s1: &[T],
    s2: &[T],
    num_channels: usize,
    output: &mut [Vec<T>],
    start: usize,
    end: usize,
    zero: T,
) -> (filled: usize)
    requires
        num_channels > 0,
        start <= end,
        forall|c: int| 0 <= c < old(output)@.len() ==> end <= (#[trigger] old(output)@[c])@.len(),
    ensures
        filled == frames_read(s1@.len() as int, s2@.len() as int, num_channels as int, end - start),
        final(output)@.len() == old(output)@.len(),
        forall|c: int|
            0 <= c < old(output)@.len() ==> (#[trigger] final(output)@[c])@ == if c < num_channels {
                read_channel(s1@, s2@, num_channels as int, c, old(output)@[c]@, start as int, end as int, zero)
            } else {
                old(output)@[c]@
            },
{
    let ghost old_output = output@;
    let nc = num_channels;
    let want = end - start;
    let s1_frames = s1.len() / nc;
    let a = if s1_frames < want {
        s1_frames
    } else {
        want
    };
    proof {
        lemma_frames_fit(s1@.len() as int, nc as int, a as int);
    }
    deinterleave_variable(s1, nc, output, start, start + a);
    let ghost after_first = output@;
    let mut filled = a;
    let mut b: usize = 0;
    if want > a {
        let s2_frames = s2.len() / nc;
        b = if s2_frames < want - a {
            s2_frames
        } else {
            want - a
        };
        proof {
            lemma_frames_fit(s2@.len() as int, nc as int, b as int);
        }
        deinterleave_variable(s2, nc, output, start + a, start + a + b);
        filled = a + b;
    }
    let ghost after_copy = output@;
    let m = if output.len() < nc {
        output.len()
    } else {
        nc
    };
    fill_range(output, 0, m, start + filled, end, zero);
    proof {
        assert forall|c: int| 0 <= c < old_output.len() implies (#[trigger] output@[c])@ == if c < nc {
            read_channel(s1@, s2@, nc as int, c, old_output[c]@, start as int, end as int, zero)
        } else {
            old_output[c]@
        } by {
            if c < nc {
                assert(output@[c]@ =~= read_channel(
                    s1@,
                    s2@,
                    nc as int,
                    c,
                    old_output[c]@,
                    start as int,
                    end as int,
                    zero,
                ));
            }
        }
    }
    filled
}

/// A read takes no more frames than asked for, and their samples are queued.
proof fn lemma_frames_read_fit(l1: int, l2: int, n: int, want: int)
    requires
        n > 0,
        0 <= l1,
        0 <= l2,
        0 <= want,
    ensures
        0 <= frames_read(l1, l2, n, want) <= want,
        frames_read(l1, l2, n, want) * n <= l1 + l2,
{
    let a = first_frames(l1, n, want);
    lemma_frames_fit(l1, n, a);
    if want > a {
        let b = min_int(l2 / n, want - a);
        lemma_frames_fit(l2, n, b);
        assert((a + b) * n == a * n + b * n) by (nonlinear_arith);
    }
}

impl<T: Copy> ResamplingCons<T> {
    /// The invariant of the consumer end.
    pub closed spec fn wf(&self) -> bool {
        &&& self.num_channels > 0
        &&& !self.is_resampling ==> self.resampler_output_delay == 0
        &&& self.cons.queued() <= self.cons.capacity()
    }

    /// The number of channels.
    pub closed spec fn channels(&self) -> nat {
        self.num_channels as nat
    }

    /// The end has channels, and what it knows of the ring buffer's fill
    /// level lies within the capacity.
    pub proof fn lemma_wf_sizes(&self)
        requires
            self.wf(),
        ensures
            self.channels() > 0,
            self.known_queued() <= self.capacity_samples(),
    {
    }

    /// The sample rate of the input stream.
    pub closed spec fn in_rate(&self) -> u32 {
        self.in_sample_rate
    }

    /// The sample rate of the output stream.
    pub closed spec fn out_rate(&self) -> u32 {
        self.out_sample_rate
    }

    /// The latency of the channel in output frames.
    pub closed spec fn latency(&self) -> nat {
        self.latency_frames as nat
    }

    /// Whether the producer resamples.
    pub closed spec fn resampling(&self) -> bool {
        self.is_resampling
    }

    /// The delay of the producer's resampler in output frames.
    pub closed spec fn delay(&self) -> nat {
        self.resampler_output_delay as nat
    }

    /// The value of silence.
    pub closed spec fn zero_sample(&self) -> T {
        self.zero
    }

    /// The number of samples this end has taken out of the channel since it
    /// was made.
    pub closed spec fn removed_samples(&self) -> nat {
        self.removed@
    }

    /// The discard requests this end has taken from the counter it shares
    /// with the producer, oldest first: each read takes one.
    pub closed spec fn taken_requests(&self) -> Seq<usize> {
        self.taken@
    }

    /// The capacity of the channel in samples.
    pub closed spec fn capacity_samples(&self) -> nat {
        self.cons.capacity() as nat
    }

    /// Samples this end knows to be queued: those it last saw, less those it
    /// removed since. The producer only adds samples, so at least this many
    /// are queued.
    pub closed spec fn known_queued(&self) -> nat {
        self.cons.queued()
    }

    /// Everything but the ring buffer is unchanged.
    pub open spec fn same_config(&self, other: &Self) -> bool {
        &&& self.channels() == other.channels()
        &&& self.in_rate() == other.in_rate()
        &&& self.out_rate() == other.out_rate()
        &&& self.latency() == other.latency()
        &&& self.resampling() == other.resampling()
        &&& self.delay() == other.delay()
        &&& self.zero_sample() == other.zero_sample()
        &&& self.capacity_samples() == other.capacity_samples()
    }

    /// What a read into frames `start .. end` did, with `discarded` the
    /// samples it first removed for the producer's reset and `s1`, `s2` the
    /// queued samples it then saw: the first channels of `new_out` hold the
    /// frames read from them and silence after those, exactly the frames
    /// read are removed, and the status tells whether the range was filled.
    pub open spec fn read_from(
        &self,
        old: &Self,
        old_out: Seq<Vec<T>>,
        new_out: Seq<Vec<T>>,
        start: int,
        end: int,
        status: ReadStatus,
        s1: Seq<T>,
        s2: Seq<T>,
        requested: int,
        discarded: nat,
    ) -> bool {
        let n = old.channels() as int;
        let f = frames_read(s1.len() as int, s2.len() as int, n, end - start);
        &&& 0 <= requested <= usize::MAX
        &&& self.taken_requests() == old.taken_requests().push(requested as usize)
        &&& discarded_for(requested, discarded as int, old.known_queued(), n)
        &&& known_after(old.known_queued(), discarded) <= s1.len() + s2.len() <= old.capacity_samples()
        &&& self.removed_samples() == old.removed_samples() + discarded + f * n
        &&& self.known_queued() == s1.len() + s2.len() - f * n
        &&& forall|c: int|
            0 <= c < new_out.len() && c < n ==> #[trigger] new_out[c]@ == read_channel(
                s1,
                s2,
                n,
                c,
                old_out[c]@,
                start,
                end,
                old.zero_sample(),
            )
        &&& status == if f == end - start {
            ReadStatus::Filled
        } else {
            ReadStatus::Underflow { num_frames_dropped: (end - start - f) as usize }
        }
    }

    /// What a read into the interleaved `old_out` did, with `discarded` the
    /// samples it first removed for the producer's reset and `popped` the
    /// samples it then moved to the start of the output: at most the whole
    /// frames of the output, and all of them unless fewer were queued; the
    /// rest of the output is silence.
    pub open spec fn read_interleaved_from(
        &self,
        old: &Self,
        old_out: Seq<T>,
        new_out: Seq<T>,
        status: ReadStatus,
        requested: int,
        discarded: nat,
        popped: nat,
    ) -> bool {
        let n = old.channels() as int;
        let whole = (old_out.len() as int / n) * n;
        &&& 0 <= requested <= usize::MAX
        &&& self.taken_requests() == old.taken_requests().push(requested as usize)
        &&& discarded_for(requested, discarded as int, old.known_queued(), n)
        &&& new_out.len() == old_out.len()
        &&& self.removed_samples() == old.removed_samples() + discarded + popped
        &&& popped <= whole
        &&& popped == whole || popped >= known_after(old.known_queued(), discarded)
        &&& self.known_queued() == known_after(known_after(old.known_queued(), discarded), popped)
        &&& forall|k: int| popped <= k < old_out.len() ==> #[trigger] new_out[k] == old.zero_sample()
        &&& status == if popped == old_out.len() {
            ReadStatus::Filled
        } else {
            ReadStatus::Underflow { num_frames_dropped: (old_out.len() as int / n - popped as int / n) as usize }
        }
    }

    /// A read applies the reset request it takes, and only that: the request
    /// joins the requests this end has taken; before its frames, the read
    /// removes at most the request's whole frames, all of them when that many
    /// samples were known queued and none for no request; after them it
    /// removes exactly the frames it read.
    pub proof fn lemma_read_applies_taken_request(
        old: Self,
        new: Self,
        old_out: Seq<Vec<T>>,
        new_out: Seq<Vec<T>>,
        start: int,
        end: int,
        status: ReadStatus,
        s1: Seq<T>,
        s2: Seq<T>,
        requested: int,
        discarded: nat,
    )
        requires
            old.wf(),
            new.read_from(&old, old_out, new_out, start, end, status, s1, s2, requested, discarded),
            requested * old.channels() <= usize::MAX,
        ensures
            new.taken_requests().len() == old.taken_requests().len() + 1,
            new.taken_requests().last() == requested,
            discarded <= requested * old.channels(),
            requested * old.channels() <= old.known_queued() ==> discarded == requested * old.channels(),
            requested == 0 ==> discarded == 0,
            new.removed_samples() == old.removed_samples() + discarded + frames_read(
                s1.len() as int,
                s2.len() as int,
                old.channels() as int,
                end - start,
            ) * old.channels(),
    {
        lemma_discard_applies_request(requested, discarded as int, old.known_queued(), old.channels() as int);
    }

    /// An interleaved read applies the reset request it takes, and only that,
    /// as `lemma_read_applies_taken_request` states; after the discard it
    /// removes exactly the samples it moved to the output.
    pub proof fn lemma_read_interleaved_applies_taken_request(
        old: Self,
        new: Self,
        old_out: Seq<T>,
        new_out: Seq<T>,
        status: ReadStatus,
        requested: int,
        discarded: nat,
        popped: nat,
    )
        requires
            old.wf(),
            new.read_interleaved_from(&old, old_out, new_out, status, requested, discarded, popped),
            requested * old.channels() <= usize::MAX,
        ensures
            new.taken_requests().len() == old.taken_requests().len() + 1,
            new.taken_requests().last() == requested,
            discarded <= requested * old.channels(),
            requested * old.channels() <= old.known_queued() ==> discarded == requested * old.channels(),
            requested == 0 ==> discarded == 0,
            new.removed_samples() == old.removed_samples() + discarded + popped,
    {
        lemma_discard_applies_request(requested, discarded as int, old.known_queued(), old.channels() as int);
    }

    /// The number of channels configured for this stream.
    pub fn num_channels(&self) -> (n: usize)
        ensures
            n == self.channels(),
    {
        self.num_channels
    }

    /// The sample rate of the input stream.
    pub fn in_sample_rate(&self) -> (r: u32)
        ensures
            r == self.in_rate(),
    {
        self.in_sample_rate
    }

    /// The sample rate of the output stream.
    pub fn out_sample_rate(&self) -> (r: u32)
        ensures
            r == self.out_rate(),
    {
        self.out_sample_rate
    }

    /// The latency of the channel in units of output frames.
    pub fn latency_frames(&self) -> (n: usize)
        ensures
            n == self.latency(),
    {
        self.latency_frames
    }

    /// Returns `true` if this channel is currently resampling.
    pub fn is_resampling(&self) -> (b: bool)
        ensures
            b == self.resampling(),
    {
        self.is_resampling
    }

    /// The delay of the internal resampler in number of output frames;
    /// `0` when the channel does not resample.
    pub fn resampler_output_delay(&self) -> (n: usize)
        requires
            self.wf(),
        ensures
            n == self.delay(),
            !self.resampling() ==> n == 0,
    {
        self.resampler_output_delay
    }

    /// The number of frames that are currently available to be read from the
    /// channel: at least the whole frames this end knows to be queued, at most
    /// the whole frames of the capacity.
    pub fn available_frames(&self) -> (n: usize)
        requires
            self.wf(),
        ensures
            self.known_queued() / self.channels() <= n <= self.capacity_samples() / self.channels(),
    {
        let samples = ring_cons_occupied_len(&self.cons);
        proof {
            vstd::arithmetic::div_mod::lemma_div_is_ordered(samples as int, self.cons.capacity() as int, self.num_channels as int);
            vstd::arithmetic::div_mod::lemma_div_is_ordered(self.cons.queued() as int, samples as int, self.num_channels as int);
        }
        samples / self.num_channels
    }

    /// Discard up to `frames` output frames from the buffer, as many as are queued.
    ///
    /// `frames * num_channels` samples are asked of the ring buffer, which
    /// removes as many of them as are queued. Returns the number of output
    /// frames that were discarded: the whole frames among the samples removed.
    pub fn discard_frames(&mut self, frames: usize) -> (n: usize)
        requires
            old(self).wf(),
            frames * old(self).channels() <= usize::MAX,
        ensures
            final(self).wf(),
            final(self).same_config(old(self)),
            n <= frames,
            final(self).taken_requests() == old(self).taken_requests(),
            ({
                let removed = final(self).removed_samples() - old(self).removed_samples();
                let asked = frames * old(self).channels();
                &&& 0 <= removed <= asked
                &&& removed == asked || removed >= old(self).known_queued()
                &&& n == removed / old(self).channels() as int
                &&& final(self).known_queued() == known_after(old(self).known_queued(), removed as nat)
            }),
    {
        let nc = self.num_channels;
        let skipped = ring_skip(&mut self.cons, frames * nc);
        self.removed = Ghost(self.removed@ + skipped as nat);
        proof {
            lemma_div_le(skipped as int, (frames * nc) as int, nc as int, frames as int);
        }
        skipped / nc
    }

    /// Discard the `requested` frames that the producer asked to clear with
    /// its `reset`, as many as are queued: `requested * num_channels` samples
    /// are asked of the ring buffer (at most the whole frames a `usize`
    /// counts), and none when nothing is requested.
    ///
    /// Returns the number of samples removed.
    pub fn discard_requested(&mut self, requested: usize) -> (discarded: usize)
        requires
            old(self).wf(),
        ensures
            final(self).wf(),
            final(self).same_config(old(self)),
            discarded_for(
                requested as int,
                discarded as int,
                old(self).known_queued(),
                old(self).channels() as int,
            ),
            final(self).removed_samples() == old(self).removed_samples() + discarded,
            final(self).known_queued() == known_after(old(self).known_queued(), discarded as nat),
            final(self).taken_requests() == old(self).taken_requests(),
    {
        let nc = self.num_channels;
        let limit = usize::MAX / nc;
        let frames = if requested <= limit {
            requested
        } else {
            limit
        };
        proof {
            vstd::arithmetic::div_mod::lemma_fundamental_div_mod(usize::MAX as int, nc as int);
            assert(frames * nc <= usize::MAX) by (nonlinear_arith)
                requires
                    frames <= limit,
                    limit == (usize::MAX as int) / (nc as int),
                    usize::MAX as int == nc * limit + (usize::MAX as int) % (nc as int),
                    0 <= (usize::MAX as int) % (nc as int),
                    nc > 0,
            ;
            assert(frames == min_int(requested as int, usize::MAX as int / nc as int));
            assert(discard_asked(requested as int, nc as int) == frames * nc);
            assert(0 * nc == 0) by (nonlinear_arith);
        }
        if frames > 0 {
            let skipped = ring_skip(&mut self.cons, frames * nc);
            self.removed = Ghost(self.removed@ + skipped as nat);
            skipped
        } else {
            0
        }
    }

    /// Discard the frames that the producer asked to clear with its `reset`:
    /// take the request from the shared counter and discard it.
    ///
    /// Returns the number of samples removed, with the request taken, which
    /// joins the requests this end has taken.
    fn discard_reset_frames(&mut self) -> (r: (usize, Ghost<int>))
        requires
            old(self).wf(),
        ensures
            final(self).wf(),
            final(self).same_config(old(self)),
            0 <= r.1@ <= usize::MAX,
            final(self).taken_requests() == old(self).taken_requests().push(r.1@ as usize),
            discarded_for(r.1@, r.0 as int, old(self).known_queued(), old(self).channels() as int),
            final(self).removed_samples() == old(self).removed_samples() + r.0,
            final(self).known_queued() == known_after(old(self).known_queued(), r.0 as nat),
    {
        let requested = take_discard_request(&self.reset_frames_to_discard);
        self.taken = Ghost(self.taken@.push(requested));
        let discarded = self.discard_requested(requested);
        (discarded, Ghost(requested as int))
    }

    /// Read from the channel and store the results in the de-interleaved
    /// output buffer, in frames `output_range` of each channel.
    ///
    /// Output channels beyond the channel's channels are filled with silence
    /// in the range. The frames read fill the range from its start in each of
    /// the channel's channels; when fewer frames are queued than the range
    /// holds, the rest of the range is filled with silence and the number of
    /// missing frames is reported. Nothing outside the range changes.
    pub fn read(&mut self, output: &mut [Vec<T>], output_range: Range<usize>) -> (status: ReadStatus)
        requires
            old(self).wf(),
            output_range.start <= output_range.end,
            forall|c: int| 0 <= c < old(output)@.len() ==> output_range.end <= (#[trigger] old(output)@[c])@.len(),
        ensures
            final(self).wf(),
            final(self).same_config(old(self)),
            final(output)@.len() == old(output)@.len(),
            forall|c: int|
                old(self).channels() <= c < old(output)@.len() ==> (#[trigger] final(output)@[c])@ == zeroed_range(
                    old(output)@[c]@,
                    output_range.start as int,
                    output_range.end as int,
                    old(self).zero_sample(),
                ),
            exists|s1: Seq<T>, s2: Seq<T>, requested: int, discarded: nat|
                #[trigger] final(self).read_from(
                    old(self),
                    old(output)@,
                    final(output)@,
                    output_range.start as int,
                    output_range.end as int,
                    status,
                    s1,
                    s2,
                    requested,
                    discarded,
                ),
    {
        let nc = self.num_channels;
        let start = output_range.start;
        let end = output_range.end;
        let zero = self.zero;
        let ghost old_output = output@;
        if output.len() > nc {
            fill_range(output, nc, output.len(), start, end, zero);
        }
        let ghost after_fill = output@;
        let (discarded, requested) = self.discard_reset_frames();
        let ghost mid = *self;
        let (s1, s2) = ring_as_slices(&mut self.cons);
        let ghost g1 = s1@;
        let ghost g2 = s2@;
        let filled = read_queued_frames(s1, s2, nc, output, start, end, zero);
        proof {
            lemma_frames_read_fit(g1.len() as int, g2.len() as int, nc as int, (end - start) as int);
        }
        let skipped = ring_skip(&mut self.cons, filled * nc);
        self.removed = Ghost(self.removed@ + skipped as nat);
        let status = if filled < end - start {
            ReadStatus::Underflow { num_frames_dropped: end - start - filled }
        } else {
            ReadStatus::Filled
        };
        proof {
            assert(skipped == filled * nc);
            assert forall|c: int| 0 <= c < output@.len() && c < nc implies #[trigger] output@[c]@ == read_channel(
                g1,
                g2,
                nc as int,
                c,
                old_output[c]@,
                start as int,
                end as int,
                zero,
            ) by {
                assert(after_fill[c]@ == old_output[c]@);
            }
            assert(final(self).read_from(
                old(self),
                old_output,
                output@,
                start as int,
                end as int,
                status,
                g1,
                g2,
                requested@,
                discarded as nat,
            ));
        }
        status
    }

    /// Read from the channel and store the results into the output buffer
    /// in interleaved format.
    ///
    /// The whole frames of `output` are handed to the ring buffer to fill.
    /// When fewer samples are queued than `output` holds, the samples from
    /// the first one not read to the end of `output` are filled with silence,
    /// and the number of missing frames is reported.
    pub fn read_interleaved(&mut self, output: &mut [T]) -> (status: ReadStatus)
        requires
            old(self).wf(),
        ensures
            final(self).wf(),
            final(self).same_config(old(self)),
            exists|requested: int, discarded: nat, popped: nat|
                #[trigger] final(self).read_interleaved_from(
                    old(self),
                    old(output)@,
                    final(output)@,
                    status,
                    requested,
                    discarded,
                    popped,
                ),
    {
        let nc = self.num_channels;
        let len = output.len();
        let out_frames = len / nc;
        proof {
            lemma_frames_fit(len as int, nc as int, out_frames as int);
        }
        let (discarded, requested) = self.discard_reset_frames();
        let ghost mid = *self;
        let popped = {
            let (head, _tail) = output.split_at_mut(out_frames * nc);
            ring_pop_slice(&mut self.cons, head)
        };
        self.removed = Ghost(self.removed@ + popped as nat);
        if popped < len {
            let zero = self.zero;
            let mut k = popped;
            while k < len
                invariant
                    popped <= k <= len,
                    output@.len() == len,
                    forall|j: int| popped <= j < k ==> #[trigger] output@[j] == zero,
                decreases len - k,
            {
                output[k] = zero;
                k = k + 1;
            }
            proof {
                vstd::arithmetic::div_mod::lemma_div_is_ordered(popped as int, (out_frames * nc) as int, nc as int);
                vstd::arithmetic::div_mod::lemma_fundamental_div_mod_converse(
                    (out_frames * nc) as int,
                    nc as int,
                    out_frames as int,
                    0,
                );
            }
            let status = ReadStatus::Underflow { num_frames_dropped: out_frames - popped / nc };
            proof {
                assert(final(self).read_interleaved_from(
                    old(self),
                    old(output)@,
                    output@,
                    status,
                    requested@,
                    discarded as nat,
                    popped as nat,
                ));
            }
            status
        } else {
            proof {
                assert(final(self).read_interleaved_from(
                    old(self),
                    old(output)@,
                    output@,
                    ReadStatus::Filled,
                    requested@,
                    discarded as nat,
                    popped as nat,
                ));
            }
            ReadStatus::Filled
        }
    }
}

/// Fill frames `start .. end` of channels `first .. last` of `output` with `zero`.
fn fill_range<T: Copy>(output: &mut [Vec<T>], first: usize, last: usize, start: usize, end: usize, zero: T)
    requires
        last <= old(output)@.len(),
        forall|c: int| first <= c < last ==> end <= (#[trigger] old(output)@[c])@.len(),
    ensures
        final(output)@.len() == old(output)@.len(),
        forall|c: int|
            0 <= c < old(output)@.len() ==> (#[trigger] final(output)@[c])@ == if first <= c < last {
                zeroed_range(old(output)@[c]@, start as int, end as int, zero)
            } else {
                old(output)@[c]@
            },
{
    let ghost old_output = output@;
    let mut c = first;
    while c < last
        invariant
            first <= c <= last || (c == first && last < first),
            last <= old_output.len(),
            output@.len() == old_output.len(),
            forall|c: int| first <= c < last ==> end <= (#[trigger] old_output[c])@.len(),
            forall|d: int|
                0 <= d < output@.len() ==> (#[trigger] output@[d])@ == if first <= d < c {
                    zeroed_range(old_output[d]@, start as int, end as int, zero)
                } else {
                    old_output[d]@
                },
        decreases last - c,
    {
        let mut j = start;
        while j < end
            invariant
                first <= c < last,
                last <= old_output.len(),
                output@.len() == old_output.len(),
                start <= j,
                j <= end || j == start,
                end <= old_output[c as int]@.len(),
                forall|d: int|
                    0 <= d < output@.len() && d != c ==> (#[trigger] output@[d])@ == if first <= d < c {
                        zeroed_range(old_output[d]@, start as int, end as int, zero)
                    } else {
                        old_output[d]@
                    },
                output@[c as int]@.len() == old_output[c as int]@.len(),
                forall|k: int|
                    0 <= k < old_output[c as int]@.len() ==> #[trigger] output@[c as int]@[k] == if start <= k < j {
                        zero
                    } else {
                        old_output[c as int]@[k]
                    },
            decreases end - j,
        {
            output[c][j] = zero;
            j = j + 1;
        }
        proof {
            assert(output@[c as int]@ =~= zeroed_range(old_output[c as int]@, start as int, end as int, zero));
        }
        c = c + 1;
    }
}

/// Take the number of frames the producer asked to discard, leaving none asked for.
fn take_discard_request(counter: &Arc<AtomicUsize>) -> usize {
    counter.swap(0, std::sync::atomic::Ordering::Relaxed)
}

/// A sequence extends itself.
proof fn lemma_extends_itself<T>(s: Seq<T>)
    ensures
        extends(s, s),
        appended(s, s).len() == 0,
{
    assert(appended(s, s) =~= Seq::<T>::empty());
    assert(s =~= s + Seq::<T>::empty());
}

/// Sample `i` of the first `count` frames of `n` samples belongs to one of
/// those frames.
proof fn lemma_frame_of_sample(i: int, n: int, count: int)
    requires
        n > 0,
        0 <= i < count * n,
    ensures
        0 <= i / n < count,
{
    vstd::arithmetic::div_mod::lemma_fundamental_div_mod(i, n);
    assert(0 <= i / n < count) by (nonlinear_arith)
        requires
            i == n * (i / n) + i % n,
            0 <= i % n < n,
            0 <= i < count * n,
            n > 0,
    ;
}

/// `count` whole frames of `n` samples fit in a buffer of `len` samples that
/// holds at least `count` whole frames.
proof fn lemma_frames_fit(len: int, n: int, count: int)
    requires
        n > 0,
        0 <= len,
        0 <= count <= len / n,
    ensures
        count * n <= len,
{
    vstd::arithmetic::div_mod::lemma_fundamental_div_mod(len, n);
    assert(count * n <= len) by (nonlinear_arith)
        requires
            count <= len / n,
            len == n * (len / n) + len % n,
            0 <= len % n,
            n > 0,
    ;
}

/// At most `count` whole frames are in at most `count * n` samples.
proof fn lemma_div_le(samples: int, len: int, n: int, count: int)
    requires
        n > 0,
        0 <= samples <= len,
        len == count * n,
        0 <= count,
    ensures
        samples / n <= count,
{
    vstd::arithmetic::div_mod::lemma_div_is_ordered(samples, len, n);
    vstd::arithmetic::div_mod::lemma_fundamental_div_mod_converse(len, n, count, 0);
}

} // verus!
