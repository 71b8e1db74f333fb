//! The block bookkeeping and delay compensation of a resampler for
//! non-realtime use.
//!
//! The resampler itself (which works on floating-point samples) is driven by
//! the caller: [`NonRtResampler::advance`] fills the input block and says when
//! the block must be resampled, and [`NonRtResampler::take_output`] (or
//! [`NonRtResampler::take_output_interleaved`]) receives the number of frames
//! the resampler produced and strips the resampler's delay from the start of
//! the stream.
use vstd::prelude::*;

use crate::buffers::{
    all_channels_len, copied_channel, copy_frames, new_channels, new_samples, shift_channels_down,
    shifted_down, zero_channels_from, zeroed_from,
};
use vstd::arithmetic::div_mod::lemma_fundamental_div_mod;
use vstd::slice::slice_subrange;
use crate::interleave::{deinterleave, deinterleaved_channel, frames_moved, interleave, interleaved};

verus! {

/// Where a call of `process` stands between two resampling steps.
#[derive(Clone, Copy, PartialEq, Eq, Structural, Debug)]
pub enum NonRtStage {
    /// Pad the frames waiting in the block with silence and resample it, then
    /// flush the resampler with a block of silence.
    FlushEmpty,
    /// Copy more input into the block (the head of the copy loop).
    Fill,
    /// The last partial block was resampled; resample a block of silence next.
    FlushZeros,
    /// Nothing is left to do in this call.
    Done,
}

/// The progress of one call of `process` (or `process_interleaved`) through its input.
#[derive(Clone, Copy, PartialEq, Eq, Structural, Debug)]
pub struct NonRtCursor {
    /// Input frames already copied into the block.
    pub copied: usize,
    /// Input frames of this call.
    pub total: usize,
    /// Whether this is the last packet of the stream.
    pub is_last: bool,
    /// What comes next.
    pub stage: NonRtStage,
}

/// The frames left of the resampler's delay after it produced `out` more frames.
pub open spec fn delay_remaining(delay: nat, out: nat) -> nat {
    if delay < out {
        0
    } else {
        (delay - out) as nat
    }
}

/// The frames of a block of `out` produced frames that are passed on, while
/// `delay` frames of the resampler's delay are still to be dropped.
pub open spec fn frames_passed_on(delay: nat, out: nat) -> nat {
    if delay < out {
        (out - delay) as nat
    } else {
        0
    }
}

/// The sum of a sequence of frame counts.
pub open spec fn sum_frames(outs: Seq<nat>) -> nat
    decreases outs.len(),
{
    if outs.len() == 0 {
        0
    } else {
        sum_frames(outs.drop_last()) + outs.last()
    }
}

/// The delay left after a sequence of blocks was produced.
pub open spec fn delay_after(delay: nat, outs: Seq<nat>) -> nat
    decreases outs.len(),
{
    if outs.len() == 0 {
        delay
    } else {
        delay_remaining(delay_after(delay, outs.drop_last()), outs.last())
    }
}

/// The frames passed on over a sequence of produced blocks.
pub open spec fn total_passed_on(delay: nat, outs: Seq<nat>) -> nat
    decreases outs.len(),
{
    if outs.len() == 0 {
        0
    } else {
        total_passed_on(delay, outs.drop_last()) + frames_passed_on(delay_after(delay, outs.drop_last()), outs.last())
    }
}

/// Delay compensation: whatever the sizes of the blocks the resampler produces,
/// exactly the first `delay` frames of its output are dropped and every later
/// frame is passed on.
pub proof fn lemma_delay_compensation(delay: nat, outs: Seq<nat>)
    ensures
        total_passed_on(delay, outs) == if sum_frames(outs) <= delay {
            0
        } else {
            (sum_frames(outs) - delay) as nat
        },
        delay_after(delay, outs) == if sum_frames(outs) <= delay {
            (delay - sum_frames(outs)) as nat
        } else {
            0
        },
    decreases outs.len(),
{
    if outs.len() > 0 {
        lemma_delay_compensation(delay, outs.drop_last());
    }
}

/// The frames to copy into the block on the next step of the copy loop.
pub open spec fn copy_count(buffered: int, block: int, copied: int, total: int) -> int {
    if block - buffered <= total - copied {
        block - buffered
    } else {
        total - copied
    }
}

/// The bookkeeping of a resampler for non-realtime use: the input block being
/// filled, the interleaving buffer, and the part of the resampler's delay that
/// is still to be dropped from the output.
pub struct NonRtResampler<T> {
    in_buf: Vec<Vec<T>>,
    intlv_buf: Vec<T>,
    in_buf_len: usize,
    num_channels: usize,
    input_frames_max: usize,
    output_frames_max: usize,
    output_delay: usize,
    delay_frames_left: usize,
    zero: T,
    /// Per channel, every frame that entered the block since the start of the
    /// stream: input frames and the silence that pads the end of the stream.
    taken: Ghost<Seq<Seq<T>>>,
    /// Per channel, the blocks handed to the resampler since the start of the
    /// stream, one after the other.
    handed: Ghost<Seq<Seq<T>>>,
    /// The number of blocks handed to the resampler since the start of the stream.
    blocks: Ghost<nat>,
    /// The frames the resampler produced since the start of the stream.
    out_produced: Ghost<nat>,
    /// The frames passed on since the start of the stream.
    out_passed: Ghost<nat>,
}

/// `n` frames of silence.
pub open spec fn silence<T>(n: int, zero: T) -> Seq<T> {
    Seq::new(n as nat, |i: int| zero)
}

impl<T: Copy> NonRtResampler<T> {
    /// The invariant of the bookkeeping: that of its parts, and fewer frames
    /// waiting in the block than it holds.
    pub closed spec fn wf(&self) -> bool {
        &&& self.wf_parts()
        &&& self.in_buf_len < self.input_frames_max
    }

    /// The bookkeeping has channels, its blocks hold frames, and fewer frames
    /// wait in the block than it holds.
    pub proof fn lemma_wf_sizes(&self)
        requires
            self.wf(),
        ensures
            self.channels() > 0,
            self.block_frames() > 0,
            self.buffered() < self.block_frames(),
    {
    }

    /// The invariant of the parts of the bookkeeping, which also holds while a
    /// full block waits to be handed to the resampler.
    closed spec fn wf_parts(&self) -> bool {
        &&& self.num_channels > 0
        &&& self.input_frames_max > 0
        &&& self.input_frames_max * self.num_channels <= usize::MAX
        &&& self.output_frames_max * self.num_channels <= usize::MAX
        &&& self.in_buf@.len() == self.num_channels
        &&& all_channels_len(self.in_buf@, self.input_frames_max as int)
        &&& self.in_buf_len <= self.input_frames_max
        &&& self.delay_frames_left <= self.output_delay
        &&& (self.intlv_buf@.len() == 0 || self.intlv_buf@.len() == self.output_frames_max * self.num_channels)
        &&& self.taken@.len() == self.num_channels
        &&& self.handed@.len() == self.num_channels
        &&& forall|c: int|
            0 <= c < self.num_channels ==> #[trigger] self.taken@[c] == self.handed@[c] + self.in_buf@[c]@.subrange(
                0,
                self.in_buf_len as int,
            )
        &&& forall|c: int|
            0 <= c < self.num_channels ==> (#[trigger] self.handed@[c]).len() == self.blocks@ * self.input_frames_max
        &&& self.delay_frames_left == if self.out_produced@ <= self.output_delay {
            self.output_delay - self.out_produced@
        } else {
            0
        }
        &&& self.out_passed@ == if self.out_produced@ <= self.output_delay {
            0
        } else {
            self.out_produced@ - self.output_delay
        }
    }

    /// The frames the resampler produced since the start of the stream.
    pub closed spec fn produced_frames(&self) -> nat {
        self.out_produced@
    }

    /// The frames passed on since the start of the stream.
    pub closed spec fn passed_frames(&self) -> nat {
        self.out_passed@
    }

    /// Flushing with an empty last packet hands the resampler the same blocks
    /// as sending the waiting frames as the last packet would: the waiting
    /// frames padded with silence, then one block of silence.
    ///
    /// `waiting` holds the frames; `flushed` and `flushed2` follow the two
    /// blocks of the empty flush (`advance` from `FlushEmpty`, then from
    /// `FlushZeros`). `fresh` holds nothing; `sent` and `sent2` follow the two
    /// blocks of a last packet `input` holding those frames (`advance` from
    /// `Fill`, then from `FlushZeros`).
    pub proof fn lemma_empty_flush_matches_last_packet(
        waiting: Self,
        flushed: Self,
        flushed2: Self,
        fresh: Self,
        input: Seq<Vec<T>>,
        sent: Self,
        sent2: Self,
    )
        requires
            waiting.wf(),
            fresh.wf(),
            fresh.same_config(&waiting),
            fresh.buffered() == 0,
            input.len() == waiting.channels(),
            forall|c: int|
                0 <= c < input.len() ==> (#[trigger] input[c])@ == waiting.block()[c]@.subrange(
                    0,
                    waiting.buffered() as int,
                ),
            flushed.same_config(&waiting),
            sent.same_config(&fresh),
            flushed.took_and_handed(&waiting, |c: int| waiting.block()[c]@, waiting.buffered() as int),
            flushed2.took_and_handed(&flushed, |c: int| flushed.block()[c]@, 0),
            sent.took_and_handed(
                &fresh,
                |c: int| Self::filled(fresh.block(), input, c, 0, 0, waiting.buffered() as int),
                waiting.buffered() as int,
            ),
            sent2.took_and_handed(&sent, |c: int| sent.block()[c]@, 0),
        ensures
            forall|c: int|
                0 <= c < waiting.channels() ==> #[trigger] flushed2.handed_frames()[c].skip(
                    waiting.handed_frames()[c].len() as int,
                ) == sent2.handed_frames()[c].skip(fresh.handed_frames()[c].len() as int),
            forall|c: int|
                0 <= c < waiting.channels() ==> #[trigger] flushed2.handed_frames()[c].skip(
                    waiting.handed_frames()[c].len() as int,
                ) == zeroed_from(waiting.block()[c]@, waiting.buffered() as int, waiting.zero_sample()) + silence(
                    waiting.block_frames() as int,
                    waiting.zero_sample(),
                ),
    {
        let b = waiting.buffered() as int;
        let zero = waiting.zero_sample();
        assert forall|c: int| 0 <= c < waiting.channels() implies #[trigger] flushed2.handed_frames()[c].skip(
            waiting.handed_frames()[c].len() as int,
        ) == sent2.handed_frames()[c].skip(fresh.handed_frames()[c].len() as int) && flushed2.handed_frames()[c].skip(
            waiting.handed_frames()[c].len() as int,
        ) == zeroed_from(waiting.block()[c]@, b, zero) + silence(waiting.block_frames() as int, zero) by {
            let w = waiting.block()[c]@;
            let f = fresh.block()[c]@;
            assert(w.len() == waiting.block_frames());
            assert(f.len() == waiting.block_frames());
            let first = zeroed_from(w, b, zero);
            let pre = Self::filled(fresh.block(), input, c, 0, 0, b);
            assert(zeroed_from(pre, b, zero) =~= first);
            assert(zeroed_from(flushed.block()[c]@, 0, zero) =~= silence(waiting.block_frames() as int, zero));
            assert(zeroed_from(sent.block()[c]@, 0, zero) =~= silence(waiting.block_frames() as int, zero));
            assert(flushed.handed_frames()[c] == waiting.handed_frames()[c] + flushed.block()[c]@);
            assert(flushed.block()[c]@ == first);
            assert(flushed2.handed_frames()[c] == flushed.handed_frames()[c] + flushed2.block()[c]@);
            assert(sent.handed_frames()[c] == fresh.handed_frames()[c] + sent.block()[c]@);
            assert(sent.block()[c]@ == zeroed_from(pre, b, zero));
            assert(sent2.handed_frames()[c] == sent.handed_frames()[c] + sent2.block()[c]@);
            assert(flushed2.handed_frames()[c] =~= waiting.handed_frames()[c] + first + silence(
                waiting.block_frames() as int,
                zero,
            ));
            assert(sent2.handed_frames()[c] =~= fresh.handed_frames()[c] + first + silence(
                waiting.block_frames() as int,
                zero,
            ));
            assert(flushed2.handed_frames()[c].skip(waiting.handed_frames()[c].len() as int) =~= first + silence(
                waiting.block_frames() as int,
                zero,
            ));
            assert(sent2.handed_frames()[c].skip(fresh.handed_frames()[c].len() as int) =~= first + silence(
                waiting.block_frames() as int,
                zero,
            ));
        }
    }

    /// Delay compensation over the whole stream: exactly the first
    /// `output_delay` frames the resampler produced since the start of the
    /// stream were dropped, and every later frame was passed on.
    pub proof fn lemma_delay_dropped_once(&self)
        requires
            self.wf(),
        ensures
            self.passed_frames() == if self.produced_frames() <= self.delay() {
                0
            } else {
                (self.produced_frames() - self.delay()) as nat
            },
            self.delay_left() == if self.produced_frames() <= self.delay() {
                (self.delay() - self.produced_frames()) as nat
            } else {
                0
            },
    {
    }

    /// Per channel, every frame that entered the input block since the start of
    /// the stream (the last [`NonRtResampler::reset`]): the input frames, and the
    /// silence that pads the end of the stream.
    pub closed spec fn taken_frames(&self) -> Seq<Seq<T>> {
        self.taken@
    }

    /// Per channel, the blocks handed to the resampler since the start of the
    /// stream, one after the other.
    pub closed spec fn handed_frames(&self) -> Seq<Seq<T>> {
        self.handed@
    }

    /// The number of blocks handed to the resampler since the start of the stream.
    pub closed spec fn blocks_handed(&self) -> nat {
        self.blocks@
    }

    /// The number of channels.
    pub closed spec fn channels(&self) -> nat {
        self.num_channels as nat
    }

    /// The number of frames in one input block of the resampler.
    pub closed spec fn block_frames(&self) -> nat {
        self.input_frames_max as nat
    }

    /// The largest number of frames the resampler produces from one block.
    pub closed spec fn max_out_frames(&self) -> nat {
        self.output_frames_max as nat
    }

    /// The delay of the resampler in output frames.
    pub closed spec fn delay(&self) -> nat {
        self.output_delay as nat
    }

    /// The frames of the resampler's delay still to be dropped.
    pub closed spec fn delay_left(&self) -> nat {
        self.delay_frames_left as nat
    }

    /// The frames of the current input block that hold input.
    pub closed spec fn buffered(&self) -> nat {
        self.in_buf_len as nat
    }

    /// The input block, one sequence of samples per channel.
    pub closed spec fn block(&self) -> Seq<Vec<T>> {
        self.in_buf@
    }

    /// The interleaving buffer.
    pub closed spec fn interleaved_buf(&self) -> Seq<T> {
        self.intlv_buf@
    }

    /// The value of silence.
    pub closed spec fn zero_sample(&self) -> T {
        self.zero
    }

    /// Everything but the block, the interleaving buffer and the two counters is unchanged.
    pub open spec fn same_config(&self, other: &Self) -> bool {
        &&& self.channels() == other.channels()
        &&& self.block_frames() == other.block_frames()
        &&& self.max_out_frames() == other.max_out_frames()
        &&& self.delay() == other.delay()
        &&& self.zero_sample() == other.zero_sample()
    }

    /// A cursor fits the state of the bookkeeping between two steps.
    pub open spec fn cursor_fits(&self, cursor: NonRtCursor) -> bool {
        &&& cursor.copied <= cursor.total
        &&& (cursor.stage is Done || cursor.stage is FlushEmpty) ==> cursor.copied == cursor.total
        &&& self.buffered() < self.block_frames()
    }

    /// Create the bookkeeping for a resampler with `num_channels` channels that
    /// takes blocks of `input_frames_max` frames, produces at most
    /// `output_frames_max` frames per block and delays its output by
    /// `output_delay` frames. `zero` is the value of silence.
    pub fn from_custom(
        num_channels: usize,
        input_frames_max: usize,
        output_frames_max: usize,
        output_delay: usize,
        zero: T,
    ) -> (r: Self)
        requires
            num_channels > 0,
            input_frames_max > 0,
            input_frames_max * num_channels <= usize::MAX,
            output_frames_max * num_channels <= usize::MAX,
        ensures
            r.wf(),
            r.channels() == num_channels,
            r.block_frames() == input_frames_max,
            r.max_out_frames() == output_frames_max,
            r.delay() == output_delay,
            r.delay_left() == output_delay,
            r.buffered() == 0,
            r.zero_sample() == zero,
            r.interleaved_buf().len() == 0,
            r.blocks_handed() == 0,
            r.produced_frames() == 0,
            r.passed_frames() == 0,
            forall|c: int| 0 <= c < num_channels ==> (#[trigger] r.taken_frames()[c]).len() == 0,
            forall|c: int|
                0 <= c < num_channels ==> (#[trigger] r.block()[c])@ == Seq::new(input_frames_max as nat, |j: int| zero),
    {
        let in_buf = new_channels(num_channels, input_frames_max, zero);
        let r = NonRtResampler {
            in_buf,
            intlv_buf: Vec::new(),
            in_buf_len: 0,
            num_channels,
            input_frames_max,
            output_frames_max,
            output_delay,
            delay_frames_left: output_delay,
            zero,
            taken: Ghost(Seq::new(num_channels as nat, |c: int| Seq::empty())),
            handed: Ghost(Seq::new(num_channels as nat, |c: int| Seq::empty())),
            blocks: Ghost(0),
            out_produced: Ghost(0),
            out_passed: Ghost(0),
        };
        proof {
            assert(0 * input_frames_max == 0) by (nonlinear_arith);
            assert forall|c: int| 0 <= c < num_channels implies #[trigger] r.taken@[c] == r.handed@[c]
                + r.in_buf@[c]@.subrange(0, 0) by {
                assert(r.in_buf@[c]@.subrange(0, 0) =~= Seq::<T>::empty());
                assert(r.handed@[c] + Seq::<T>::empty() =~= r.handed@[c]);
            }
        }
        r
    }

    /// Get the number of channels this resampler is configured for.
    pub fn num_channels(&self) -> (n: usize)
        ensures
            n == self.channels(),
    {
        self.num_channels
    }

    /// The number of frames in one input block of the resampler.
    pub fn input_block_frames(&self) -> (n: usize)
        ensures
            n == self.block_frames(),
    {
        self.input_frames_max
    }

    /// The number of input frames waiting in the current block.
    pub fn tmp_input_frames(&self) -> (n: usize)
        ensures
            n == self.buffered(),
    {
        self.in_buf_len
    }

    /// The input block, to be handed to the resampler.
    pub fn in_buf(&self) -> (b: &Vec<Vec<T>>)
        ensures
            b@ == self.block(),
    {
        &self.in_buf
    }

    /// The interleaving buffer, which holds the output handed on by
    /// [`NonRtResampler::take_output_interleaved`].
    pub fn intlv_buf(&self) -> (b: &Vec<T>)
        ensures
            b@ == self.interleaved_buf(),
    {
        &self.intlv_buf
    }

    /// Reset the bookkeeping: the block is emptied and the whole delay of the
    /// resampler will be dropped again.
    pub fn reset(&mut self)
        requires
            old(self).wf(),
        ensures
            final(self).wf(),
            final(self).same_config(old(self)),
            final(self).buffered() == 0,
            final(self).delay_left() == final(self).delay(),
            final(self).block() == old(self).block(),
            final(self).interleaved_buf() == old(self).interleaved_buf(),
            final(self).blocks_handed() == 0,
            final(self).produced_frames() == 0,
            final(self).passed_frames() == 0,
            forall|c: int| 0 <= c < final(self).channels() ==> (#[trigger] final(self).taken_frames()[c]).len() == 0,
    {
        self.in_buf_len = 0;
        self.delay_frames_left = self.output_delay;
        self.taken = Ghost(Seq::new(self.num_channels as nat, |c: int| Seq::empty()));
        self.handed = Ghost(Seq::new(self.num_channels as nat, |c: int| Seq::empty()));
        self.blocks = Ghost(0);
        self.out_produced = Ghost(0);
        self.out_passed = Ghost(0);
        proof {
            assert(0 * self.input_frames_max == 0) by (nonlinear_arith);
            assert forall|c: int| 0 <= c < self.num_channels implies #[trigger] self.taken@[c] == self.handed@[c]
                + self.in_buf@[c]@.subrange(0, 0) by {
                assert(self.in_buf@[c]@.subrange(0, 0) =~= Seq::<T>::empty());
                assert(self.handed@[c] + Seq::<T>::empty() =~= self.handed@[c]);
            }
        }
    }

    /// Get the delay of the internal resampler, reported as a number of output frames.
    ///
    /// This resampler truncates the starting padded zero frames.
    pub fn output_delay(&self) -> (n: usize)
        ensures
            n == self.delay(),
    {
        self.output_delay
    }

    /// The maximum number of frames that can appear in a single call to the closure in
    /// `process` and `process_interleaved`.
    pub fn max_processed_frames(&self) -> (n: usize)
        ensures
            n == self.max_out_frames(),
    {
        self.output_frames_max
    }

    /// The length of an output buffer in frames for a given input buffer:
    /// `in_frames * out_sample_rate / in_sample_rate`, rounded up.
    pub fn out_frames(&self, in_sample_rate: u32, out_sample_rate: u32, in_frames: usize) -> (n: usize)
        ensures
            n == out_frames_for(in_sample_rate as int, out_sample_rate as int, in_frames as int),
    {
        out_frames_exact(in_sample_rate, out_sample_rate, in_frames)
    }

    /// The number of frames needed to allocate an output buffer for a given input buffer.
    pub fn out_alloc_frames(&self, in_sample_rate: u32, out_sample_rate: u32, in_frames: usize) -> (n: usize)
        requires
            out_frames_for(in_sample_rate as int, out_sample_rate as int, in_frames as int) + 2 * self.max_out_frames()
                <= usize::MAX,
        ensures
            n == out_frames_for(in_sample_rate as int, out_sample_rate as int, in_frames as int) + 2
                * self.max_out_frames(),
    {
        let f = out_frames_exact(in_sample_rate, out_sample_rate, in_frames);
        f + self.output_frames_max * 2
    }
}

impl<T: Copy> NonRtResampler<T> {
    /// Input that fits a cursor: each channel that is read holds the cursor's frames.
    pub open spec fn input_fits(&self, input: Seq<Vec<T>>, cursor: NonRtCursor) -> bool {
        forall|c: int| 0 <= c < input.len() && c < self.channels() ==> cursor.total <= (#[trigger] input[c])@.len()
    }

    /// The block after the next step of the copy loop copied `k` frames of
    /// `input`, from frame `copied`, behind the `buffered` frames it held.
    pub open spec fn filled(
        block: Seq<Vec<T>>,
        input: Seq<Vec<T>>,
        c: int,
        copied: int,
        buffered: int,
        k: int,
    ) -> Seq<T> {
        copied_channel(input, block[c]@, c, copied, buffered, k)
    }

    /// The block after the next step of the copy loop copied `k` frames of the
    /// interleaved `input`, from frame `copied`, behind the `buffered` frames it held.
    pub open spec fn filled_interleaved(
        block: Seq<Vec<T>>,
        input: Seq<T>,
        n: int,
        c: int,
        copied: int,
        buffered: int,
        k: int,
    ) -> Seq<T> {
        deinterleaved_channel(input.subrange(copied * n, input.len() as int), block[c]@, n, c, buffered, k)
    }

    /// Everything but the block, its fill level and the two logs is unchanged.
    pub open spec fn same_but_block(&self, other: &Self) -> bool {
        &&& self.same_config(other)
        &&& self.delay_left() == other.delay_left()
        &&& self.produced_frames() == other.produced_frames()
        &&& self.passed_frames() == other.passed_frames()
        &&& self.interleaved_buf() == other.interleaved_buf()
        &&& self.block().len() == other.block().len()
    }

    /// `self` is `old` after the frames `pre` of each channel entered the block
    /// behind the ones it held, up to `full` frames, and nothing was handed on.
    pub open spec fn took(&self, old: &Self, pre: spec_fn(int) -> Seq<T>, full: int) -> bool {
        &&& self.buffered() == full
        &&& self.blocks_handed() == old.blocks_handed()
        &&& forall|c: int| 0 <= c < old.channels() ==> (#[trigger] self.block()[c])@ == pre(c)
        &&& forall|c: int|
            0 <= c < old.channels() ==> #[trigger] self.taken_frames()[c] == old.taken_frames()[c] + pre(c).subrange(
                old.buffered() as int,
                full,
            )
        &&& forall|c: int| 0 <= c < old.channels() ==> #[trigger] self.handed_frames()[c] == old.handed_frames()[c]
    }

    /// `self` is `old` after the frames `pre` of each channel entered the block
    /// behind the ones it held, up to `full` frames, the rest of the block was
    /// padded with silence, and the block was handed to the resampler.
    pub open spec fn took_and_handed(&self, old: &Self, pre: spec_fn(int) -> Seq<T>, full: int) -> bool {
        &&& self.buffered() == 0
        &&& self.blocks_handed() == old.blocks_handed() + 1
        &&& forall|c: int|
            0 <= c < old.channels() ==> (#[trigger] self.block()[c])@ == zeroed_from(pre(c), full, old.zero_sample())
        &&& forall|c: int|
            0 <= c < old.channels() ==> #[trigger] self.taken_frames()[c] == old.taken_frames()[c] + pre(c).subrange(
                old.buffered() as int,
                full,
            ) + silence(old.block_frames() - full, old.zero_sample())
        &&& forall|c: int|
            0 <= c < old.channels() ==> #[trigger] self.handed_frames()[c] == old.handed_frames()[c] + self.block()[c]@
    }

    /// Every frame that entered the input block goes to the resampler once, in
    /// order, in whole blocks: per channel, the frames taken since the start of
    /// the stream are the blocks handed to the resampler so far, followed by the
    /// frames waiting in the current block.
    pub proof fn lemma_frames_reach_resampler_in_order(&self)
        requires
            self.wf(),
        ensures
            forall|c: int|
                0 <= c < self.channels() ==> #[trigger] self.taken_frames()[c] == self.handed_frames()[c]
                    + self.block()[c]@.subrange(0, self.buffered() as int),
            forall|c: int|
                0 <= c < self.channels() ==> (#[trigger] self.handed_frames()[c]).len() == self.blocks_handed()
                    * self.block_frames(),
    {
    }

    /// Pad the block with silence behind the frames it holds and hand it to the
    /// resampler: it joins the handed blocks, and a new block starts.
    fn pad_and_hand(&mut self)
        requires
            old(self).wf_parts(),
        ensures
            final(self).wf(),
            final(self).same_but_block(old(self)),
            final(self).took_and_handed(old(self), |c: int| old(self).block()[c]@, old(self).buffered() as int),
    {
        let zero = self.zero;
        let from = self.in_buf_len;
        let ghost old_self = *self;
        zero_channels_from(&mut self.in_buf, from, zero);
        let ghost max = self.input_frames_max as int;
        self.taken = Ghost(
            Seq::new(
                self.num_channels as nat,
                |c: int| old_self.taken@[c] + old_self.in_buf@[c]@.subrange(from as int, from as int) + silence(max - from, zero),
            ),
        );
        self.handed = Ghost(Seq::new(self.num_channels as nat, |c: int| old_self.handed@[c] + self.in_buf@[c]@));
        self.blocks = Ghost(old_self.blocks@ + 1);
        self.in_buf_len = 0;
        proof {
            assert forall|c: int| 0 <= c < self.num_channels implies #[trigger] self.taken@[c] == self.handed@[c]
                + self.in_buf@[c]@.subrange(0, 0) by {
                let old_ch = old_self.in_buf@[c]@;
                let new_ch = self.in_buf@[c]@;
                assert(new_ch =~= old_ch.subrange(0, from as int) + silence(max - from, zero));
                assert(old_ch.subrange(from as int, from as int) =~= Seq::<T>::empty());
                assert(self.in_buf@[c]@.subrange(0, 0) =~= Seq::<T>::empty());
                assert(self.taken@[c] =~= self.handed@[c] + self.in_buf@[c]@.subrange(0, 0));
            }
            assert forall|c: int| 0 <= c < self.num_channels implies (#[trigger] self.handed@[c]).len() == self.blocks@
                * self.input_frames_max by {
                assert(self.blocks@ * self.input_frames_max == old_self.blocks@ * self.input_frames_max
                    + self.input_frames_max) by (nonlinear_arith)
                    requires
                        self.blocks@ == old_self.blocks@ + 1,
                ;
            }
        }
    }

    /// After frames entered the block up to `full` frames: hand the block to the
    /// resampler when it is full, pad and hand it when the last packet is used up,
    /// and otherwise wait for more input.
    fn finish_step(&mut self, cursor: &mut NonRtCursor) -> (resample: bool)
        requires
            old(self).wf_parts(),
            old(cursor).copied <= old(cursor).total,
            old(self).buffered() > 0,
            old(self).buffered() < old(self).block_frames() ==> old(cursor).is_last || old(cursor).copied == old(
                cursor).total,
        ensures
            final(self).wf(),
            final(self).same_but_block(old(self)),
            final(self).cursor_fits(*final(cursor)),
            final(cursor).copied == old(cursor).copied,
            final(cursor).total == old(cursor).total,
            final(cursor).is_last == old(cursor).is_last,
            !resample ==> final(cursor).stage is Done && final(cursor).copied == final(cursor).total,
            if old(self).buffered() < old(self).block_frames() && !old(cursor).is_last {
                &&& !resample
                &&& *final(self) == *old(self)
            } else {
                &&& resample
                &&& final(self).took_and_handed(
                    old(self),
                    |c: int| old(self).block()[c]@,
                    old(self).buffered() as int,
                )
                &&& final(cursor).stage == if old(cursor).is_last && old(cursor).copied == old(cursor).total {
                    NonRtStage::FlushZeros
                } else {
                    NonRtStage::Fill
                }
            },
    {
        if self.in_buf_len < self.input_frames_max && !cursor.is_last {
            cursor.stage = NonRtStage::Done;
            false
        } else {
            self.pad_and_hand();
            if cursor.is_last && cursor.copied == cursor.total {
                cursor.stage = NonRtStage::FlushZeros;
            } else {
                cursor.stage = NonRtStage::Fill;
            }
            true
        }
    }

    /// Start a call of `process` on the de-interleaved `input`.
    ///
    /// An input without channels flushes the resampler when it is the last
    /// packet: the frames waiting in the block are padded with silence and
    /// resampled, and then one block of silence is resampled.
    pub fn begin(&self, input: &[Vec<T>], is_last_packet: bool) -> (cursor: NonRtCursor)
        requires
            input@.len() > 0 || is_last_packet,
        ensures
            cursor.copied == 0,
            cursor.is_last == is_last_packet,
            cursor.total == if input@.len() == 0 {
                0
            } else {
                input@[0]@.len()
            },
            cursor.stage == if input@.len() == 0 {
                NonRtStage::FlushEmpty
            } else {
                NonRtStage::Fill
            },
            self.buffered() < self.block_frames() ==> self.cursor_fits(cursor),
    {
        if input.len() == 0 {
            NonRtCursor { copied: 0, total: 0, is_last: is_last_packet, stage: NonRtStage::FlushEmpty }
        } else {
            NonRtCursor { copied: 0, total: input[0].len(), is_last: is_last_packet, stage: NonRtStage::Fill }
        }
    }

    /// Start a call of `process_interleaved` on the interleaved `input`.
    ///
    /// An empty input flushes the resampler when it is the last packet: the
    /// frames waiting in the block are padded with silence and resampled, and
    /// then one block of silence is resampled.
    pub fn begin_interleaved(&self, input: &[T], is_last_packet: bool) -> (cursor: NonRtCursor)
        requires
            self.wf(),
        ensures
            cursor.copied == 0,
            cursor.is_last == is_last_packet,
            cursor.total == input@.len() as int / self.channels() as int,
            cursor.stage == if input@.len() == 0 && is_last_packet {
                NonRtStage::FlushEmpty
            } else {
                NonRtStage::Fill
            },
            self.buffered() < self.block_frames() ==> self.cursor_fits(cursor),
    {
        let total = input.len() / self.num_channels;
        if input.len() == 0 && is_last_packet {
            NonRtCursor { copied: 0, total, is_last: is_last_packet, stage: NonRtStage::FlushEmpty }
        } else {
            NonRtCursor { copied: 0, total, is_last: is_last_packet, stage: NonRtStage::Fill }
        }
    }

    /// Take the next step of a call of `process`: fill the input block from
    /// `input` and say whether the block must now be resampled (`true`) or the
    /// call is over (`false`).
    ///
    /// A block is resampled whenever it is full; when the packet is the last one,
    /// the partial block is padded with silence and resampled, and then one block
    /// of silence is resampled to flush the resampler.
    pub fn advance(&mut self, cursor: &mut NonRtCursor, input: &[Vec<T>]) -> (resample: bool)
        requires
            old(self).wf(),
            old(self).cursor_fits(*old(cursor)),
            old(self).input_fits(input@, *old(cursor)),
        ensures
            final(self).wf(),
            final(self).same_but_block(old(self)),
            final(self).cursor_fits(*final(cursor)),
            final(cursor).total == old(cursor).total,
            final(cursor).is_last == old(cursor).is_last,
            !resample ==> final(cursor).stage is Done && final(cursor).copied == final(cursor).total,
            ({
                let b = old(self).buffered() as int;
                let k = copy_count(b, old(self).block_frames() as int, old(cursor).copied as int, old(cursor).total as int);
                let full = b + k;
                let pre = |c: int| Self::filled(old(self).block(), input@, c, old(cursor).copied as int, b, k);
                let same = |c: int| old(self).block()[c]@;
                match old(cursor).stage {
                    NonRtStage::Done => {
                        &&& !resample
                        &&& *final(cursor) == *old(cursor)
                        &&& *final(self) == *old(self)
                    },
                    NonRtStage::FlushEmpty | NonRtStage::FlushZeros => {
                        &&& resample
                        &&& final(cursor).copied == old(cursor).copied
                        &&& final(cursor).stage == if old(cursor).stage is FlushEmpty {
                            NonRtStage::FlushZeros
                        } else {
                            NonRtStage::Fill
                        }
                        &&& final(self).took_and_handed(old(self), same, b)
                    },
                    NonRtStage::Fill => {
                        if old(cursor).copied >= old(cursor).total {
                            &&& !resample
                            &&& *final(self) == *old(self)
                        } else {
                            &&& final(cursor).copied == old(cursor).copied + k
                            &&& if full < old(self).block_frames() && !old(cursor).is_last {
                                &&& !resample
                                &&& final(self).took(old(self), pre, full)
                            } else {
                                &&& resample
                                &&& final(self).took_and_handed(old(self), pre, full)
                                &&& final(cursor).stage == if old(cursor).is_last && old(cursor).copied + k
                                    == old(cursor).total {
                                    NonRtStage::FlushZeros
                                } else {
                                    NonRtStage::Fill
                                }
                            }
                        }
                    },
                }
            }),
    {
        match cursor.stage {
            NonRtStage::Done => false,
            NonRtStage::FlushEmpty => {
                self.pad_and_hand();
                cursor.stage = NonRtStage::FlushZeros;
                true
            },
            NonRtStage::FlushZeros => {
                self.pad_and_hand();
                cursor.stage = NonRtStage::Fill;
                true
            },
            NonRtStage::Fill => {
                if cursor.copied >= cursor.total {
                    cursor.stage = NonRtStage::Done;
                    return false;
                }
                let ghost old_self = *self;
                let b = self.in_buf_len;
                let room = self.input_frames_max - b;
                let left = cursor.total - cursor.copied;
                let k = if room <= left {
                    room
                } else {
                    left
                };
                copy_frames(self.in_buf.as_mut_slice(), input, cursor.copied, b, k);
                let ghost full = (b + k) as int;
                self.taken = Ghost(
                    Seq::new(
                        self.num_channels as nat,
                        |c: int| old_self.taken@[c] + self.in_buf@[c]@.subrange(b as int, full),
                    ),
                );
                self.in_buf_len = b + k;
                cursor.copied = cursor.copied + k;
                proof {
                    assert forall|c: int| 0 <= c < self.num_channels implies #[trigger] self.taken@[c]
                        == self.handed@[c] + self.in_buf@[c]@.subrange(0, self.in_buf_len as int) by {
                        assert(self.in_buf@[c]@.subrange(0, b as int) =~= old_self.in_buf@[c]@.subrange(0, b as int));
                        assert(self.in_buf@[c]@.subrange(0, full) =~= self.in_buf@[c]@.subrange(0, b as int)
                            + self.in_buf@[c]@.subrange(b as int, full));
                    }
                }
                let ghost mid = *self;
                let r = self.finish_step(cursor);
                proof {
                    if r {
                        assert forall|c: int| 0 <= c < old_self.num_channels implies #[trigger] self.taken@[c]
                            == old_self.taken@[c] + mid.in_buf@[c]@.subrange(b as int, full) + silence(
                            old_self.input_frames_max - full,
                            old_self.zero,
                        ) by {
                            assert(self.taken_frames()[c] == mid.taken_frames()[c] + mid.block()[c]@.subrange(
                                mid.buffered() as int,
                                mid.buffered() as int,
                            ) + silence(mid.block_frames() - mid.buffered(), mid.zero_sample()));
                            assert(mid.taken@[c] == old_self.taken@[c] + mid.in_buf@[c]@.subrange(b as int, full));
                            assert(mid.in_buf@[c]@.subrange(full, full) =~= Seq::<T>::empty());
                            assert(mid.taken@[c] + mid.in_buf@[c]@.subrange(full, full) =~= mid.taken@[c]);
                        }
                    }
                }
                r
            },
        }
    }

    /// Take the next step of a call of `process_interleaved`: like
    /// [`NonRtResampler::advance`], with the input in interleaved form.
    pub fn advance_interleaved(&mut self, cursor: &mut NonRtCursor, input: &[T]) -> (resample: bool)
        requires
            old(self).wf(),
            old(self).cursor_fits(*old(cursor)),
            old(cursor).total == input@.len() as int / old(self).channels() as int,
        ensures
            final(self).wf(),
            final(self).same_but_block(old(self)),
            final(self).cursor_fits(*final(cursor)),
            final(cursor).total == old(cursor).total,
            final(cursor).is_last == old(cursor).is_last,
            !resample ==> final(cursor).stage is Done && final(cursor).copied == final(cursor).total,
            ({
                let b = old(self).buffered() as int;
                let k = copy_count(b, old(self).block_frames() as int, old(cursor).copied as int, old(cursor).total as int);
                let full = b + k;
                let n = old(self).channels() as int;
                let pre = |c: int|
                    Self::filled_interleaved(old(self).block(), input@, n, c, old(cursor).copied as int, b, k);
                let same = |c: int| old(self).block()[c]@;
                match old(cursor).stage {
                    NonRtStage::Done => {
                        &&& !resample
                        &&& *final(cursor) == *old(cursor)
                        &&& *final(self) == *old(self)
                    },
                    NonRtStage::FlushEmpty | NonRtStage::FlushZeros => {
                        &&& resample
                        &&& final(cursor).copied == old(cursor).copied
                        &&& final(cursor).stage == if old(cursor).stage is FlushEmpty {
                            NonRtStage::FlushZeros
                        } else {
                            NonRtStage::Fill
                        }
                        &&& final(self).took_and_handed(old(self), same, b)
                    },
                    NonRtStage::Fill => {
                        if old(cursor).copied >= old(cursor).total {
                            &&& !resample
                            &&& *final(self) == *old(self)
                        } else {
                            &&& final(cursor).copied == old(cursor).copied + k
                            &&& if full < old(self).block_frames() && !old(cursor).is_last {
                                &&& !resample
                                &&& final(self).took(old(self), pre, full)
                            } else {
                                &&& resample
                                &&& final(self).took_and_handed(old(self), pre, full)
                                &&& final(cursor).stage == if old(cursor).is_last && old(cursor).copied + k
                                    == old(cursor).total {
                                    NonRtStage::FlushZeros
                                } else {
                                    NonRtStage::Fill
                                }
                            }
                        }
                    },
                }
            }),
    {
        match cursor.stage {
            NonRtStage::Done => false,
            NonRtStage::FlushEmpty => {
                self.pad_and_hand();
                cursor.stage = NonRtStage::FlushZeros;
                true
            },
            NonRtStage::FlushZeros => {
                self.pad_and_hand();
                cursor.stage = NonRtStage::Fill;
                true
            },
            NonRtStage::Fill => {
                if cursor.copied >= cursor.total {
                    cursor.stage = NonRtStage::Done;
                    return false;
                }
                let ghost old_self = *self;
                let b = self.in_buf_len;
                let room = self.input_frames_max - b;
                let left = cursor.total - cursor.copied;
                let k = if room <= left {
                    room
                } else {
                    left
                };
                let n = self.num_channels;
                let in_len = input.len();
                proof {
                    lemma_remaining_frames(in_len as int, n as int, cursor.copied as int, cursor.total as int);
                }
                let from = cursor.copied * n;
                let rest = slice_subrange(input, from, in_len);
                deinterleave(rest, &mut self.in_buf, n, b..b + k);
                proof {
                    assert(frames_moved(k as int, rest@.len() as int, n as int) == k);
                }
                let ghost full = (b + k) as int;
                self.taken = Ghost(
                    Seq::new(
                        self.num_channels as nat,
                        |c: int| old_self.taken@[c] + self.in_buf@[c]@.subrange(b as int, full),
                    ),
                );
                self.in_buf_len = b + k;
                cursor.copied = cursor.copied + k;
                proof {
                    assert forall|c: int| 0 <= c < self.num_channels implies #[trigger] self.taken@[c]
                        == self.handed@[c] + self.in_buf@[c]@.subrange(0, self.in_buf_len as int) by {
                        assert(self.in_buf@[c]@.subrange(0, b as int) =~= old_self.in_buf@[c]@.subrange(0, b as int));
                        assert(self.in_buf@[c]@.subrange(0, full) =~= self.in_buf@[c]@.subrange(0, b as int)
                            + self.in_buf@[c]@.subrange(b as int, full));
                    }
                }
                let ghost mid = *self;
                let r = self.finish_step(cursor);
                proof {
                    if r {
                        assert forall|c: int| 0 <= c < old_self.num_channels implies #[trigger] self.taken@[c]
                            == old_self.taken@[c] + mid.in_buf@[c]@.subrange(b as int, full) + silence(
                            old_self.input_frames_max - full,
                            old_self.zero,
                        ) by {
                            assert(self.taken_frames()[c] == mid.taken_frames()[c] + mid.block()[c]@.subrange(
                                mid.buffered() as int,
                                mid.buffered() as int,
                            ) + silence(mid.block_frames() - mid.buffered(), mid.zero_sample()));
                            assert(mid.taken@[c] == old_self.taken@[c] + mid.in_buf@[c]@.subrange(b as int, full));
                            assert(mid.in_buf@[c]@.subrange(full, full) =~= Seq::<T>::empty());
                            assert(mid.taken@[c] + mid.in_buf@[c]@.subrange(full, full) =~= mid.taken@[c]);
                        }
                    }
                }
                r
            },
        }
    }
}

impl<T: Copy> NonRtResampler<T> {
    /// Receive the `out_frames` frames that the resampler wrote to the start of
    /// each channel of `out_buf` for `process`, and drop what is left of the
    /// resampler's delay from their start.
    ///
    /// Returns the number of frames, at the start of each channel of `out_buf`,
    /// to hand on; `None` when all of them belonged to the delay.
    pub fn take_output(&mut self, out_buf: &mut Vec<Vec<T>>, out_frames: usize) -> (emitted: Option<usize>)
        requires
            old(self).wf(),
            forall|c: int| 0 <= c < old(out_buf)@.len() ==> out_frames <= (#[trigger] old(out_buf)@[c])@.len(),
        ensures
            final(self).wf(),
            final(self).same_config(old(self)),
            final(self).buffered() == old(self).buffered(),
            final(self).block() == old(self).block(),
            final(self).interleaved_buf() == old(self).interleaved_buf(),
            final(self).delay_left() == delay_remaining(old(self).delay_left(), out_frames as nat),
            final(self).produced_frames() == old(self).produced_frames() + out_frames,
            final(self).passed_frames() == old(self).passed_frames() + frames_passed_on(
                old(self).delay_left(),
                out_frames as nat,
            ),
            final(self).blocks_handed() == old(self).blocks_handed(),
            final(self).taken_frames() == old(self).taken_frames(),
            final(self).handed_frames() == old(self).handed_frames(),
            emitted == if old(self).delay_left() == 0 {
                Some(out_frames)
            } else if old(self).delay_left() < out_frames {
                Some((out_frames - old(self).delay_left()) as usize)
            } else {
                None
            },
            (match emitted {
                Some(f) => f as nat,
                None => 0,
            }) == frames_passed_on(old(self).delay_left(), out_frames as nat),
            final(out_buf)@.len() == old(out_buf)@.len(),
            forall|c: int|
                0 <= c < old(out_buf)@.len() ==> (#[trigger] final(out_buf)@[c])@ == if 0 < old(self).delay_left()
                    < out_frames {
                    shifted_down(old(out_buf)@[c]@, old(self).delay_left() as int, out_frames as int)
                } else {
                    old(out_buf)@[c]@
                },
    {
        let d = self.delay_frames_left;
        self.out_passed = Ghost((self.out_passed@ + frames_passed_on(d as nat, out_frames as nat)) as nat);
        self.out_produced = Ghost((self.out_produced@ + out_frames) as nat);
        if d == 0 {
            Some(out_frames)
        } else if d < out_frames {
            shift_channels_down(out_buf, d, out_frames);
            self.delay_frames_left = 0;
            Some(out_frames - d)
        } else {
            self.delay_frames_left = d - out_frames;
            None
        }
    }

    /// Receive the `out_frames` frames that the resampler wrote to the start of
    /// each channel of `out_buf` for `process_interleaved`, and drop what is left
    /// of the resampler's delay from their start.
    ///
    /// Returns the range of samples to hand on: in the first channel of `out_buf`
    /// when there is one channel, and otherwise in the interleaving buffer, into
    /// which the frames were interleaved. `None` when all of them belonged to the delay.
    pub fn take_output_interleaved(&mut self, out_buf: &Vec<Vec<T>>, out_frames: usize) -> (emitted: Option<(usize, usize)>)
        requires
            old(self).wf(),
            out_frames <= old(self).max_out_frames(),
            out_buf@.len() == old(self).channels(),
            forall|c: int| 0 <= c < out_buf@.len() ==> out_frames <= (#[trigger] out_buf@[c])@.len(),
        ensures
            final(self).wf(),
            final(self).same_config(old(self)),
            final(self).buffered() == old(self).buffered(),
            final(self).block() == old(self).block(),
            final(self).delay_left() == delay_remaining(old(self).delay_left(), out_frames as nat),
            final(self).produced_frames() == old(self).produced_frames() + out_frames,
            final(self).passed_frames() == old(self).passed_frames() + frames_passed_on(
                old(self).delay_left(),
                out_frames as nat,
            ),
            final(self).blocks_handed() == old(self).blocks_handed(),
            final(self).taken_frames() == old(self).taken_frames(),
            final(self).handed_frames() == old(self).handed_frames(),
            ({
                let d = old(self).delay_left() as int;
                let n = old(self).channels() as int;
                let base = if old(self).interleaved_buf().len() == 0 {
                    Seq::new((old(self).max_out_frames() * n) as nat, |j: int| old(self).zero_sample())
                } else {
                    old(self).interleaved_buf()
                };
                &&& (match emitted {
                    Some(r) => r.1 - r.0 == frames_passed_on(d as nat, out_frames as nat) * n,
                    None => frames_passed_on(d as nat, out_frames as nat) == 0,
                })
                &&& if d < out_frames {
                    if n == 1 {
                        &&& emitted == Some((d as usize, out_frames))
                        &&& final(self).interleaved_buf() == old(self).interleaved_buf()
                    } else {
                        &&& emitted == Some(((d * n) as usize, (out_frames * n) as usize))
                        &&& out_frames * n <= final(self).interleaved_buf().len()
                        &&& final(self).interleaved_buf() == interleaved(out_buf@, base, n, 0, out_frames as int)
                    }
                } else {
                    &&& emitted is None
                    &&& final(self).interleaved_buf() == old(self).interleaved_buf()
                }
            }),
    {
        let d = self.delay_frames_left;
        let n = self.num_channels;
        self.out_passed = Ghost((self.out_passed@ + frames_passed_on(d as nat, out_frames as nat)) as nat);
        self.out_produced = Ghost((self.out_produced@ + out_frames) as nat);
        if d < out_frames {
            self.delay_frames_left = 0;
            if n == 1 {
                Some((d, out_frames))
            } else {
                if self.intlv_buf.len() == 0 {
                    self.intlv_buf = new_samples(self.output_frames_max * n, self.zero);
                }
                let ghost base = self.intlv_buf@;
                assert(out_frames * n <= self.output_frames_max * n && d * n <= out_frames * n) by (nonlinear_arith)
                    requires
                        out_frames <= self.output_frames_max,
                        d < out_frames,
                        n > 0,
                ;
                assert((self.output_frames_max * n) as int / (n as int) == self.output_frames_max) by {
                    vstd::arithmetic::div_mod::lemma_fundamental_div_mod_converse(
                        (self.output_frames_max * n) as int,
                        n as int,
                        self.output_frames_max as int,
                        0,
                    );
                }
                interleave(out_buf.as_slice(), self.intlv_buf.as_mut_slice(), n, 0..out_frames);
                proof {
                    assert(out_frames * n - d * n == (out_frames - d) * n) by (nonlinear_arith);
                    assert(frames_moved(out_frames as int, base.len() as int, n as int) == out_frames);
                }
                Some((d * n, out_frames * n))
            }
        } else {
            self.delay_frames_left = d - out_frames;
            None
        }
    }
}

/// Of `len` interleaved samples with `n` per frame, those from frame `copied` on
/// hold `total - copied` whole frames, where `total` is the number of whole frames.
proof fn lemma_remaining_frames(len: int, n: int, copied: int, total: int)
    requires
        n > 0,
        0 <= copied < total,
        total == len / n,
        0 <= len,
    ensures
        copied * n <= len,
        (len - copied * n) / n == total - copied,
{
    lemma_fundamental_div_mod(len, n);
    assert(copied * n <= len) by (nonlinear_arith)
        requires
            copied < total,
            len == n * total + len % n,
            0 <= len % n,
            n > 0,
            0 <= copied,
    ;
    assert(len - copied * n == (total - copied) * n + len % n) by (nonlinear_arith)
        requires
            len == n * total + len % n,
    ;
    vstd::arithmetic::div_mod::lemma_fundamental_div_mod_converse(
        len - copied * n,
        n,
        total - copied,
        len % n,
    );
}

/// The frames of output for `in_frames` input frames at the ratio
/// `out_rate / in_rate`, rounded up, and saturated at the largest `usize`.
/// A zero input rate gives no frames for no input, and the largest `usize` otherwise.
pub open spec fn out_frames_for(in_rate: int, out_rate: int, in_frames: int) -> int {
    if in_rate == 0 {
        if in_frames * out_rate == 0 {
            0
        } else {
            usize::MAX as int
        }
    } else {
        let exact = (in_frames * out_rate + in_rate - 1) / in_rate;
        if exact > usize::MAX {
            usize::MAX as int
        } else {
            exact
        }
    }
}

/// Every input frame goes to the resampler once and in order: after a step of
/// the copy loop, each channel of the block holds the frames it held before,
/// followed directly by the next frames of the same channel of the input
/// (channels the input lacks keep their content).
pub proof fn lemma_block_holds_input_in_order<T>(
    block: Seq<Vec<T>>,
    input: Seq<Vec<T>>,
    c: int,
    copied: int,
    buffered: int,
    k: int,
)
    requires
        0 <= c < block.len(),
        0 <= buffered,
        0 <= k,
        0 <= copied,
        buffered + k <= block[c]@.len(),
        c < input.len() ==> copied + k <= input[c]@.len(),
    ensures
        c < input.len() ==> copied_channel(input, block[c]@, c, copied, buffered, k).subrange(0, buffered + k)
            == block[c]@.subrange(0, buffered) + input[c]@.subrange(copied, copied + k),
        c >= input.len() ==> copied_channel(input, block[c]@, c, copied, buffered, k) == block[c]@,
{
    if c < input.len() {
        assert(copied_channel(input, block[c]@, c, copied, buffered, k).subrange(0, buffered + k) =~= block[c]@.subrange(
            0,
            buffered,
        ) + input[c]@.subrange(copied, copied + k));
    } else {
        assert(copied_channel(input, block[c]@, c, copied, buffered, k) =~= block[c]@);
    }
}

/// The frames handed on after the delay are exactly the frames the resampler
/// produced past the part of its delay that was still to be dropped.
pub proof fn lemma_handed_on_frames<T>(ch: Seq<T>, delay: int, out_frames: int)
    requires
        0 <= delay <= out_frames <= ch.len(),
    ensures
        shifted_down(ch, delay, out_frames).subrange(0, out_frames - delay) == ch.subrange(delay, out_frames),
{
    assert(shifted_down(ch, delay, out_frames).subrange(0, out_frames - delay) =~= ch.subrange(delay, out_frames));
}

/// The output length of `out_frames` is the least number of output frames that
/// covers the input: `n` output frames last at least as long as the input, and
/// one frame fewer would not.
pub proof fn lemma_out_frames_covers_input(in_rate: int, out_rate: int, in_frames: int)
    requires
        in_rate > 0,
        out_rate >= 0,
        in_frames >= 0,
        out_frames_for(in_rate, out_rate, in_frames) < usize::MAX,
    ensures
        out_frames_for(in_rate, out_rate, in_frames) * in_rate >= in_frames * out_rate,
        out_frames_for(in_rate, out_rate, in_frames) == 0 || (out_frames_for(in_rate, out_rate, in_frames) - 1)
            * in_rate < in_frames * out_rate,
{
    let p = in_frames * out_rate;
    assert(p >= 0) by (nonlinear_arith)
        requires
            p == in_frames * out_rate,
            in_frames >= 0,
            out_rate >= 0,
    ;
    let q = (p + in_rate - 1) / in_rate;
    lemma_fundamental_div_mod(p + in_rate - 1, in_rate);
    let m = (p + in_rate - 1) % in_rate;
    assert(q * in_rate >= p && (q == 0 || (q - 1) * in_rate < p)) by (nonlinear_arith)
        requires
            p + in_rate - 1 == in_rate * q + m,
            0 <= m < in_rate,
            in_rate > 0,
    ;
}

/// `in_frames * out_rate / in_rate` rounded up, saturated at the largest `usize`.
pub fn out_frames_exact(in_rate: u32, out_rate: u32, in_frames: usize) -> (n: usize)
    ensures
        n == out_frames_for(in_rate as int, out_rate as int, in_frames as int),
{
    let a: u128 = in_frames as u128;
    let b: u128 = out_rate as u128;
    assert(a * b <= 0xffff_ffff_ffff_ffffu128 * 0xffff_ffffu128) by (nonlinear_arith)
        requires
            a <= 0xffff_ffff_ffff_ffffu128,
            b <= 0xffff_ffffu128,
    ;
    let product: u128 = a * b;
    if in_rate == 0 {
        if product == 0 {
            0
        } else {
            usize::MAX
        }
    } else {
        let exact: u128 = (product + (in_rate as u128) - 1) / (in_rate as u128);
        if exact > (usize::MAX as u128) {
            usize::MAX
        } else {
            exact as usize
        }
    }
}

} // verus!
