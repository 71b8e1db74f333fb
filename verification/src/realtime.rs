//! The bookkeeping of a resampler for realtime use, which hands out exactly the
//! number of output frames asked for on each call.
//!
//! The resampler itself (which works on floating-point samples) is driven by the
//! caller, which owns the input block, the output block and the resampler: each
//! call first hands out the frames left over from the previous output block
//! ([`RtResampler::drain_pending`]), and then, while frames are missing, has the
//! resampler produce a new output block and hands out its start
//! ([`RtResampler::accept_block`]); what is left of that block is kept for the
//! next call.
use vstd::prelude::*;

use crate::buffers::{copied_channel, copy_frames};
use crate::interleave::{interleave_frames, interleaved_at};

verus! {

use vstd::arithmetic::div_mod::lemma_fundamental_div_mod;

/// The bookkeeping of a realtime resampler.
pub struct RtResampler {
    out_buf_len: usize,
    remaining_frames_in_out_buf: usize,
    num_channels: usize,
    max_out_frames: usize,
    input_frames_max: usize,
    output_frames_max: usize,
    /// The frames the resampler produced since the start of the stream.
    produced: Ghost<nat>,
    /// The frames handed out since the start of the stream.
    delivered: Ghost<nat>,
}

/// The smaller of two counts.
pub open spec fn min_nat(a: nat, b: nat) -> nat {
    if a <= b {
        a
    } else {
        b
    }
}

impl RtResampler {
    /// The invariant of the bookkeeping.
    pub closed spec fn wf(&self) -> bool {
        &&& self.num_channels > 0
        &&& self.max_out_frames > 0
        &&& self.remaining_frames_in_out_buf <= self.out_buf_len
        &&& self.out_buf_len <= self.output_frames_max
        &&& self.delivered@ + self.remaining_frames_in_out_buf == self.produced@
    }

    /// The frames the resampler produced since the start of the stream.
    pub closed spec fn produced_frames(&self) -> nat {
        self.produced@
    }

    /// The frames handed out since the start of the stream.
    pub closed spec fn delivered_frames(&self) -> nat {
        self.delivered@
    }

    /// No output frame is lost or handed out twice over the whole stream: the
    /// frames handed out, together with those kept for the next call, are
    /// exactly the frames the resampler produced.
    pub proof fn lemma_every_frame_handed_out_once(&self)
        requires
            self.wf(),
        ensures
            self.delivered_frames() + self.pending() == self.produced_frames(),
    {
    }

    /// The number of channels.
    pub closed spec fn channels(&self) -> nat {
        self.num_channels as nat
    }

    /// The resampler has channels, and a call may ask for output frames.
    pub proof fn lemma_wf_sizes(&self)
        requires
            self.wf(),
        ensures
            self.channels() > 0,
            self.out_frames_limit() > 0,
    {
    }

    /// The most output frames one call may ask for.
    pub closed spec fn out_frames_limit(&self) -> nat {
        self.max_out_frames as nat
    }

    /// The number of frames in one input block of the resampler.
    pub closed spec fn block_frames(&self) -> nat {
        self.input_frames_max as nat
    }

    /// The largest number of frames the resampler produces from one block.
    pub closed spec fn max_block_out(&self) -> nat {
        self.output_frames_max as nat
    }

    /// The frames in the last output block of the resampler.
    pub closed spec fn last_block_len(&self) -> nat {
        self.out_buf_len as nat
    }

    /// The frames at the end of the last output block not yet handed out.
    pub closed spec fn pending(&self) -> nat {
        self.remaining_frames_in_out_buf as nat
    }

    /// Everything but the two counters is unchanged.
    pub open spec fn same_config(&self, other: &Self) -> bool {
        &&& self.channels() == other.channels()
        &&& self.out_frames_limit() == other.out_frames_limit()
        &&& self.block_frames() == other.block_frames()
        &&& self.max_block_out() == other.max_block_out()
    }

    /// Create the bookkeeping for a resampler with `num_channels` channels that
    /// takes blocks of `input_frames_max` frames and produces at most
    /// `output_frames_max` frames per block; each call asks for at most
    /// `max_out_frames` frames.
    pub fn from_custom(
        num_channels: usize,
        input_frames_max: usize,
        output_frames_max: usize,
        max_out_frames: usize,
    ) -> (r: Self)
        requires
            num_channels > 0,
            max_out_frames > 0,
        ensures
            r.wf(),
            r.channels() == num_channels,
            r.out_frames_limit() == max_out_frames,
            r.block_frames() == input_frames_max,
            r.max_block_out() == output_frames_max,
            r.last_block_len() == 0,
            r.pending() == 0,
            r.produced_frames() == 0,
            r.delivered_frames() == 0,
    {
        RtResampler {
            out_buf_len: 0,
            remaining_frames_in_out_buf: 0,
            num_channels,
            max_out_frames,
            input_frames_max,
            output_frames_max,
            produced: Ghost(0),
            delivered: Ghost(0),
        }
    }

    /// Get the number of channels this resampler is configured for.
    pub fn num_channels(&self) -> (n: usize)
        ensures
            n == self.channels(),
    {
        self.num_channels
    }

    /// Reset the state: no output frames are pending any more.
    pub fn reset(&mut self)
        requires
            old(self).wf(),
        ensures
            final(self).wf(),
            final(self).same_config(old(self)),
            final(self).last_block_len() == 0,
            final(self).pending() == 0,
            final(self).produced_frames() == 0,
            final(self).delivered_frames() == 0,
    {
        self.out_buf_len = 0;
        self.remaining_frames_in_out_buf = 0;
        self.produced = Ghost(0);
        self.delivered = Ghost(0);
    }

    /// The maximum number of output frames that can appear in a single call to `process`.
    pub fn max_out_frames(&self) -> (n: usize)
        ensures
            n == self.out_frames_limit(),
    {
        self.max_out_frames
    }

    /// The maximum number of frames that can be requested in `process`.
    pub fn max_request_frames(&self) -> (n: usize)
        ensures
            n == self.block_frames(),
    {
        self.input_frames_max
    }

    /// The number of samples of the interleaved buffer that the input request
    /// of `process_interleaved` needs: none for one channel or when interleaved
    /// processing is not wanted, and one block of frames otherwise.
    pub fn request_buffer_len(&self, interleaved: bool) -> (n: usize)
        requires
            self.block_frames() * self.channels() <= usize::MAX,
        ensures
            n == if self.channels() == 1 || !interleaved {
                0
            } else {
                self.block_frames() * self.channels()
            },
    {
        if self.num_channels == 1 || !interleaved {
            0
        } else {
            self.input_frames_max * self.num_channels
        }
    }

    /// Hand out to the start of each channel of `output` the frames of the last
    /// output block `out_buf` that were not handed out yet, at most `out_frames`.
    ///
    /// Returns the number of frames handed out.
    pub fn drain_pending<T: Copy>(&mut self, out_buf: &[Vec<T>], output: &mut [Vec<T>], out_frames: usize) -> (filled: usize)
        requires
            old(self).wf(),
            old(output)@.len() == old(self).channels(),
            out_frames <= old(self).out_frames_limit(),
            forall|c: int| 0 <= c < old(output)@.len() ==> out_frames <= (#[trigger] old(output)@[c])@.len(),
            forall|c: int|
                0 <= c < out_buf@.len() && c < old(output)@.len() ==> old(self).last_block_len() <= (
                #[trigger] out_buf@[c])@.len(),
        ensures
            final(self).wf(),
            final(self).same_config(old(self)),
            filled == min_nat(old(self).pending(), out_frames as nat),
            final(self).last_block_len() == old(self).last_block_len(),
            final(self).pending() == old(self).pending() - filled,
            final(self).produced_frames() == old(self).produced_frames(),
            final(self).delivered_frames() == old(self).delivered_frames() + filled,
            final(output)@.len() == old(output)@.len(),
            forall|c: int|
                0 <= c < old(output)@.len() ==> (#[trigger] final(output)@[c])@ == copied_channel(
                    out_buf@,
                    old(output)@[c]@,
                    c,
                    old(self).last_block_len() - old(self).pending(),
                    0,
                    filled as int,
                ),
    {
        let rem = self.remaining_frames_in_out_buf;
        let copy = if rem <= out_frames {
            rem
        } else {
            out_frames
        };
        let start = self.out_buf_len - rem;
        if rem > 0 {
            copy_frames(output, out_buf, start, 0, copy);
            self.remaining_frames_in_out_buf = rem - copy;
            self.delivered = Ghost((self.delivered@ + copy) as nat);
            copy
        } else {
            proof {
                assert forall|c: int| 0 <= c < output@.len() implies (#[trigger] output@[c])@ == copied_channel(
                    out_buf@,
                    output@[c]@,
                    c,
                    start as int,
                    0,
                    0,
                ) by {
                    assert(output@[c]@ =~= copied_channel(out_buf@, output@[c]@, c, start as int, 0, 0));
                }
            }
            0
        }
    }

    /// Receive the `out_frames_processed` frames that the resampler wrote to the
    /// start of each channel of `out_buf`, and hand out as many of them as are
    /// still missing from the `out_frames` frames asked for, behind the
    /// `frames_filled` frames already in `output`; the rest are kept for later.
    /// A new block is taken only once the frames of the last one are all handed out.
    ///
    /// Returns the number of frames of `output` filled after this.
    pub fn accept_block<T: Copy>(
        &mut self,
        out_buf: &[Vec<T>],
        out_frames_processed: usize,
        output: &mut [Vec<T>],
        frames_filled: usize,
        out_frames: usize,
    ) -> (filled: usize)
        requires
            old(self).wf(),
            old(self).pending() == 0,
            out_frames_processed <= old(self).max_block_out(),
            frames_filled <= out_frames,
            forall|c: int| 0 <= c < old(output)@.len() ==> out_frames <= (#[trigger] old(output)@[c])@.len(),
            forall|c: int|
                0 <= c < out_buf@.len() && c < old(output)@.len() ==> out_frames_processed <= (
                #[trigger] out_buf@[c])@.len(),
        ensures
            final(self).wf(),
            final(self).same_config(old(self)),
            filled == frames_filled + min_nat(out_frames_processed as nat, (out_frames - frames_filled) as nat),
            final(self).last_block_len() == out_frames_processed,
            final(self).pending() == out_frames_processed - (filled - frames_filled),
            final(self).produced_frames() == old(self).produced_frames() + out_frames_processed,
            final(self).delivered_frames() == old(self).delivered_frames() + (filled - frames_filled),
            final(output)@.len() == old(output)@.len(),
            forall|c: int|
                0 <= c < old(output)@.len() ==> (#[trigger] final(output)@[c])@ == copied_channel(
                    out_buf@,
                    old(output)@[c]@,
                    c,
                    0,
                    frames_filled as int,
                    filled - frames_filled,
                ),
    {
        self.out_buf_len = out_frames_processed;
        let missing = out_frames - frames_filled;
        let copy = if out_frames_processed <= missing {
            out_frames_processed
        } else {
            missing
        };
        copy_frames(output, out_buf, 0, frames_filled, copy);
        self.remaining_frames_in_out_buf = out_frames_processed - copy;
        self.produced = Ghost((self.produced@ + out_frames_processed) as nat);
        self.delivered = Ghost((self.delivered@ + copy) as nat);
        frames_filled + copy
    }

    /// Like [`RtResampler::drain_pending`], into the interleaved `output`, which
    /// asks for `output.len() / num_channels` frames.
    pub fn drain_pending_interleaved<T: Copy>(&mut self, out_buf: &[Vec<T>], output: &mut [T]) -> (filled: usize)
        requires
            old(self).wf(),
            old(output)@.len() as int / old(self).channels() as int <= old(self).out_frames_limit(),
            forall|c: int|
                0 <= c < out_buf@.len() && c < old(self).channels() ==> old(self).last_block_len() <= (
                #[trigger] out_buf@[c])@.len(),
        ensures
            final(self).wf(),
            final(self).same_config(old(self)),
            filled == min_nat(old(self).pending(), (old(output)@.len() as int / old(self).channels() as int) as nat),
            final(self).last_block_len() == old(self).last_block_len(),
            final(self).pending() == old(self).pending() - filled,
            final(self).produced_frames() == old(self).produced_frames(),
            final(self).delivered_frames() == old(self).delivered_frames() + filled,
            final(output)@ == interleaved_at(
                out_buf@,
                old(output)@,
                old(self).channels() as int,
                old(self).last_block_len() - old(self).pending(),
                0,
                filled as int,
            ),
    {
        let n = self.num_channels;
        let out_frames = output.len() / n;
        let rem = self.remaining_frames_in_out_buf;
        let copy = if rem <= out_frames {
            rem
        } else {
            out_frames
        };
        let start = self.out_buf_len - rem;
        proof {
            lemma_whole_frames(output@.len() as int, n as int, copy as int);
        }
        if rem > 0 {
            interleave_frames(out_buf, output, n, start, 0, copy);
            self.remaining_frames_in_out_buf = rem - copy;
            self.delivered = Ghost((self.delivered@ + copy) as nat);
            copy
        } else {
            proof {
                assert(output@ =~= interleaved_at(out_buf@, output@, n as int, start as int, 0, 0));
            }
            0
        }
    }

    /// Like [`RtResampler::accept_block`], into the interleaved `output`, which
    /// asks for `output.len() / num_channels` frames.
    pub fn accept_block_interleaved<T: Copy>(
        &mut self,
        out_buf: &[Vec<T>],
        out_frames_processed: usize,
        output: &mut [T],
        frames_filled: usize,
    ) -> (filled: usize)
        requires
            old(self).wf(),
            old(self).pending() == 0,
            out_frames_processed <= old(self).max_block_out(),
            frames_filled <= old(output)@.len() as int / old(self).channels() as int,
            forall|c: int|
                0 <= c < out_buf@.len() && c < old(self).channels() ==> out_frames_processed <= (
                #[trigger] out_buf@[c])@.len(),
        ensures
            final(self).wf(),
            final(self).same_config(old(self)),
            filled == frames_filled + min_nat(
                out_frames_processed as nat,
                (old(output)@.len() as int / old(self).channels() as int - frames_filled) as nat,
            ),
            final(self).last_block_len() == out_frames_processed,
            final(self).pending() == out_frames_processed - (filled - frames_filled),
            final(self).produced_frames() == old(self).produced_frames() + out_frames_processed,
            final(self).delivered_frames() == old(self).delivered_frames() + (filled - frames_filled),
            final(output)@ == interleaved_at(
                out_buf@,
                old(output)@,
                old(self).channels() as int,
                0,
                frames_filled as int,
                filled - frames_filled,
            ),
    {
        let n = self.num_channels;
        let out_frames = output.len() / n;
        self.out_buf_len = out_frames_processed;
        let missing = out_frames - frames_filled;
        let copy = if out_frames_processed <= missing {
            out_frames_processed
        } else {
            missing
        };
        proof {
            lemma_whole_frames(output@.len() as int, n as int, frames_filled + copy);
        }
        interleave_frames(out_buf, output, n, 0, frames_filled, copy);
        self.remaining_frames_in_out_buf = out_frames_processed - copy;
        self.produced = Ghost((self.produced@ + out_frames_processed) as nat);
        self.delivered = Ghost((self.delivered@ + copy) as nat);
        frames_filled + copy
    }
}

/// No output frame is lost or handed out twice: after a block of `produced`
/// frames was received and `handed` of them were handed out, the frames kept
/// for the next call start exactly behind the ones handed out and run to the
/// end of the block; and a call never hands out more frames than it asked for.
pub proof fn lemma_rt_block_continuity(before: RtResampler, after: RtResampler, produced: nat, frames_filled: nat, filled: nat, out_frames: nat)
    requires
        before.wf(),
        frames_filled <= out_frames,
        filled == frames_filled + min_nat(produced, (out_frames - frames_filled) as nat),
        after.last_block_len() == produced,
        after.pending() == produced - (filled - frames_filled),
    ensures
        after.last_block_len() - after.pending() == filled - frames_filled,
        (filled - frames_filled) + after.pending() == produced,
        frames_filled <= filled <= out_frames,
        filled < out_frames ==> after.pending() == 0,
{
}

/// Whole frames of an interleaved buffer fit in it.
proof fn lemma_whole_frames(len: int, n: int, frames: int)
    requires
        n > 0,
        0 <= len,
        0 <= frames <= len / n,
    ensures
        frames * n <= len,
{
    lemma_fundamental_div_mod(len, n);
    assert(frames * n <= len) by (nonlinear_arith)
        requires
            frames <= len / n,
            len == n * (len / n) + len % n,
            0 <= len % n,
            n > 0,
    ;
}

} // verus!
