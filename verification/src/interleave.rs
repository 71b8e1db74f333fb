//! Conversion between de-interleaved channel buffers (one `Vec` per channel)
//! and interleaved sample buffers (frames of `n` consecutive samples).
use std::ops::Range;
use vstd::prelude::*;

verus! {

use vstd::arithmetic::div_mod::lemma_fundamental_div_mod;
use vstd::arithmetic::div_mod::lemma_fundamental_div_mod_converse;

/// The smaller of two integers.
pub open spec fn min_int(a: int, b: int) -> int {
    if a <= b { a } else { b }
}

/// The number of frames that one (de)interleaving call moves: the frames asked for,
/// bounded by the frames that the other side holds.
pub open spec fn frames_moved(asked: int, available_samples: int, num_channels: int) -> int {
    min_int(asked, available_samples / num_channels)
}

/// The content of the interleaved buffer `out` after `frames` frames, starting at
/// frame `start` of each channel of `input`, were interleaved into it with
/// `n` samples per frame: sample `k` belongs to frame `k / n` and channel `k % n`;
/// the samples of channels that `input` lacks, and those past the moved frames,
/// keep their old value.
pub open spec fn interleaved<T>(input: Seq<Vec<T>>, out: Seq<T>, n: int, start: int, frames: int) -> Seq<T> {
    Seq::new(
        out.len(),
        |k: int|
            if k / n < frames && k % n < input.len() {
                input[k % n]@[start + k / n]
            } else {
                out[k]
            },
    )
}

/// The content of channel `c` of the de-interleaved buffers after `frames`
/// frames of the interleaved `input` (with `n` samples per frame) were written to
/// frames `start .. start + frames` of each of the first `n` channels.
pub open spec fn deinterleaved_channel<T>(input: Seq<T>, out_ch: Seq<T>, n: int, c: int, start: int, frames: int) -> Seq<T> {
    Seq::new(
        out_ch.len(),
        |j: int|
            if c < n && start <= j < start + frames {
                input[(j - start) * n + c]
            } else {
                out_ch[j]
            },
    )
}

/// Frame `i`, channel `c` of an interleaved buffer with `n` channels sits at `i * n + c`.
pub proof fn lemma_frame_position(n: int, i: int, c: int)
    requires
        n > 0,
        0 <= c < n,
        0 <= i,
    ensures
        (i * n + c) / n == i,
        (i * n + c) % n == c,
{
    lemma_fundamental_div_mod_converse(i * n + c, n, i, c);
}

/// A sample position is determined by its frame and its channel.
proof fn lemma_position_unique(n: int, k: int, i: int, c: int)
    requires
        n > 0,
        0 <= k,
        k / n == i,
        k % n == c,
    ensures
        k == i * n + c,
{
    lemma_fundamental_div_mod(k, n);
    assert(n * i == i * n) by (nonlinear_arith);
}

/// The samples of the first `frames` frames lie below `frames * n`.
proof fn lemma_frames_bound(n: int, frames: int, i: int, c: int)
    requires
        n > 0,
        0 <= c < n,
        0 <= i < frames,
    ensures
        i * n + c < frames * n,
        0 <= i * n,
{
    assert(i * n + c < frames * n) by (nonlinear_arith)
        requires
            n > 0,
            0 <= c < n,
            0 <= i < frames,
    ;
    assert(0 <= i * n) by (nonlinear_arith)
        requires
            n > 0,
            0 <= i,
    ;
}

/// Interleave the given channels into the output buffer.
///
/// * `input` - The input channels.
/// * `output` - The interleaved output buffer to write to.
/// * `num_out_channels` - The number of interleaved channels in `output`.
/// * `in_range` - The range in each channel in `input` to read from.
///
/// As many frames are moved as both the range and the output hold; channels of
/// `input` beyond `num_out_channels` are ignored, and output samples of channels
/// that `input` lacks are left untouched.
pub fn interleave<T: Copy>(input: &[Vec<T>], output: &mut [T], num_out_channels: usize, in_range: Range<usize>)
    requires
        num_out_channels > 0,
        in_range.start <= in_range.end,
        num_out_channels == 1 ==> input@.len() >= 1,
        forall|c: int|
            0 <= c < input@.len() && c < num_out_channels ==> in_range.start + frames_moved(
                in_range.end - in_range.start,
                old(output)@.len() as int,
                num_out_channels as int,
            ) <= (#[trigger] input@[c])@.len(),
    ensures
        final(output)@ == interleaved(
            input@,
            old(output)@,
            num_out_channels as int,
            in_range.start as int,
            frames_moved(in_range.end - in_range.start, old(output)@.len() as int, num_out_channels as int),
        ),
{
    let n = num_out_channels;
    let in_frames = in_range.end - in_range.start;
    let out_frames = output.len() / n;
    let frames = if in_frames < out_frames { in_frames } else { out_frames };
    let start = in_range.start;
    let m = if input.len() < n { input.len() } else { n };
    let ghost old_out = output@;
    let out_len = output.len();
    assert(frames * n <= output@.len()) by (nonlinear_arith)
        requires
            frames <= out_frames,
            out_frames == (output@.len() as int) / (n as int),
            n > 0,
    {
        lemma_fundamental_div_mod(output@.len() as int, n as int);
    }

    let mut i: usize = 0;
    while i < frames
        invariant
            0 <= i <= frames,
            n > 0,
            m <= n,
            m <= input@.len(),
            m == input@.len() || m == n,
            frames * n <= output@.len(),
            output@.len() == old_out.len(),
            output@.len() == out_len,
            forall|c: int| 0 <= c < m ==> start + frames <= (#[trigger] input@[c])@.len(),
            forall|k: int|
                0 <= k < output@.len() ==> #[trigger] output@[k] == if k / (n as int) < i && k % (n as int) < m {
                    input@[k % (n as int)]@[start + k / (n as int)]
                } else {
                    old_out[k]
                },
        decreases frames - i,
    {
        let mut c: usize = 0;
        while c < m
            invariant
                0 <= i < frames,
                0 <= c <= m,
                n > 0,
                m <= n,
                m <= input@.len(),
                frames * n <= output@.len(),
                output@.len() == old_out.len(),
                output@.len() == out_len,
                forall|c: int| 0 <= c < m ==> start + frames <= (#[trigger] input@[c])@.len(),
                forall|k: int|
                    0 <= k < output@.len() ==> #[trigger] output@[k] == if (k / (n as int) < i && k % (n as int) < m)
                        || (k / (n as int) == i && k % (n as int) < c) {
                        input@[k % (n as int)]@[start + k / (n as int)]
                    } else {
                        old_out[k]
                    },
            decreases m - c,
        {
            proof {
                lemma_frames_bound(n as int, frames as int, i as int, c as int);
                lemma_frame_position(n as int, i as int, c as int);
            }
            let pos = i * n + c;
            let ch = &input[c];
            let ch_len = ch.len();
            assert(start + frames <= ch_len);
            let s = ch[start + i];
            output[pos] = s;
            proof {
                assert forall|k: int| 0 <= k < output@.len() implies #[trigger] output@[k] == if (k / (n as int) < i
                    && k % (n as int) < m) || (k / (n as int) == i && k % (n as int) < c + 1) {
                    input@[k % (n as int)]@[start + k / (n as int)]
                } else {
                    old_out[k]
                } by {
                    if k != pos {
                        if k / (n as int) == i && k % (n as int) == c {
                            lemma_position_unique(n as int, k, i as int, c as int);
                        }
                    }
                }
            }
            c = c + 1;
        }
        i = i + 1;
    }
    proof {
        assert forall|k: int| 0 <= k < output@.len() implies #[trigger] output@[k] == interleaved(
            input@,
            old_out,
            n as int,
            start as int,
            frames as int,
        )[k] by {
            if k % (n as int) < input@.len() && !(k % (n as int) < m) {
                lemma_fundamental_div_mod(k, n as int);
            }
        }
        assert(output@ =~= interleaved(input@, old_out, n as int, start as int, frames as int));
    }
}

/// Deinterleave the given data into the output buffers.
///
/// * `input` - The interleaved input data.
/// * `output` - The de-interleaved output buffer to write to.
/// * `num_in_channels` - The number of interleaved channels in `input`.
/// * `out_range` - The range in each channel in `output` to write to.
///
/// As many frames are moved as both the range and the input hold; output channels
/// beyond `num_in_channels` are left untouched.
pub fn deinterleave<T: Copy>(input: &[T], output: &mut [Vec<T>], num_in_channels: usize, out_range: Range<usize>)
    requires
        num_in_channels > 0,
        out_range.start <= out_range.end,
        num_in_channels == 1 ==> old(output)@.len() >= 1,
        forall|c: int|
            0 <= c < old(output)@.len() && c < num_in_channels ==> out_range.start + frames_moved(
                out_range.end - out_range.start,
                input@.len() as int,
                num_in_channels as int,
            ) <= (#[trigger] old(output)@[c])@.len(),
    ensures
        final(output)@.len() == old(output)@.len(),
        forall|c: int|
            0 <= c < old(output)@.len() ==> (#[trigger] final(output)@[c])@ == deinterleaved_channel(
                input@,
                old(output)@[c]@,
                num_in_channels as int,
                c,
                out_range.start as int,
                frames_moved(out_range.end - out_range.start, input@.len() as int, num_in_channels as int),
            ),
{
    let n = num_in_channels;
    let out_frames = out_range.end - out_range.start;
    let in_len = input.len();
    let in_frames = in_len / n;
    let frames = if out_frames < in_frames { out_frames } else { in_frames };
    let start = out_range.start;
    let m = if output.len() < n { output.len() } else { n };
    let ghost old_out = output@;
    assert(frames * n <= in_len) by (nonlinear_arith)
        requires
            frames <= in_frames,
            in_frames == (in_len as int) / (n as int),
            n > 0,
    {
        lemma_fundamental_div_mod(in_len as int, n as int);
    }

    let mut c: usize = 0;
    while c < m
        invariant
            0 <= c <= m,
            n > 0,
            m <= n,
            m <= output@.len(),
            m == output@.len() || m == n,
            frames * n <= in_len,
            in_len == input@.len(),
            output@.len() == old_out.len(),
            forall|c: int| 0 <= c < m ==> start + frames <= (#[trigger] old_out[c])@.len(),
            forall|d: int|
                0 <= d < output@.len() ==> (#[trigger] output@[d])@ == if d < c {
                    deinterleaved_channel(input@, old_out[d]@, n as int, d, start as int, frames as int)
                } else {
                    old_out[d]@
                },
        decreases m - c,
    {
        let mut i: usize = 0;
        while i < frames
            invariant
                0 <= c < m,
                0 <= i <= frames,
                n > 0,
                m <= n,
                m <= output@.len(),
                frames * n <= in_len,
                in_len == input@.len(),
                output@.len() == old_out.len(),
                forall|c: int| 0 <= c < m ==> start + frames <= (#[trigger] old_out[c])@.len(),
                forall|d: int|
                    0 <= d < output@.len() && d != c ==> (#[trigger] output@[d])@ == if d < c {
                        deinterleaved_channel(input@, old_out[d]@, n as int, d, start as int, frames as int)
                    } else {
                        old_out[d]@
                    },
                output@[c as int]@.len() == old_out[c as int]@.len(),
                forall|j: int|
                    0 <= j < output@[c as int]@.len() ==> #[trigger] output@[c as int]@[j] == if start <= j < start + i {
                        input@[(j - start) * n + c]
                    } else {
                        old_out[c as int]@[j]
                    },
            decreases frames - i,
        {
            proof {
                lemma_frames_bound(n as int, frames as int, i as int, c as int);
            }
            let s = input[i * n + c];
            let ghost before = output@;
            let ch_len = output[c].len();
            assert(start + frames <= ch_len);
            output[c][start + i] = s;
            proof {
                assert forall|j: int| 0 <= j < output@[c as int]@.len() implies #[trigger] output@[c as int]@[j]
                    == if start <= j < start + i + 1 {
                    input@[(j - start) * n + c]
                } else {
                    old_out[c as int]@[j]
                } by {
                    if j == start + i {
                        assert((j - start) * n + c == i * n + c);
                    }
                }
            }
            i = i + 1;
        }
        proof {
            assert(output@[c as int]@ =~= deinterleaved_channel(
                input@,
                old_out[c as int]@,
                n as int,
                c as int,
                start as int,
                frames as int,
            ));
        }
        c = c + 1;
    }
    proof {
        assert forall|d: int| 0 <= d < output@.len() implies (#[trigger] output@[d])@ == deinterleaved_channel(
            input@,
            old_out[d]@,
            n as int,
            d,
            start as int,
            frames as int,
        ) by {
            if d >= m {
                assert(d >= n);
                assert(old_out[d]@ =~= deinterleaved_channel(
                    input@,
                    old_out[d]@,
                    n as int,
                    d,
                    start as int,
                    frames as int,
                ));
            }
        }
    }
}

/// The content of the interleaved buffer `out` after frames `in_start ..
/// in_start + frames` of each channel of `input` were interleaved into frames
/// `out_start .. out_start + frames` of it, with `n` samples per frame.
pub open spec fn interleaved_at<T>(
    input: Seq<Vec<T>>,
    out: Seq<T>,
    n: int,
    in_start: int,
    out_start: int,
    frames: int,
) -> Seq<T> {
    Seq::new(
        out.len(),
        |k: int|
            if out_start <= k / n < out_start + frames && k % n < input.len() {
                input[k % n]@[in_start + k / n - out_start]
            } else {
                out[k]
            },
    )
}

/// Interleave frames `in_start .. in_start + frames` of the given channels into
/// frames `out_start .. out_start + frames` of the output buffer, which has
/// `num_out_channels` samples per frame.
pub fn interleave_frames<T: Copy>(
    input: &[Vec<T>],
    output: &mut [T],
    num_out_channels: usize,
    in_start: usize,
    out_start: usize,
    frames: usize,
)
    requires
        num_out_channels > 0,
        (out_start + frames) * num_out_channels <= old(output)@.len(),
        forall|c: int|
            0 <= c < input@.len() && c < num_out_channels ==> in_start + frames <= (#[trigger] input@[c])@.len(),
    ensures
        final(output)@ == interleaved_at(
            input@,
            old(output)@,
            num_out_channels as int,
            in_start as int,
            out_start as int,
            frames as int,
        ),
{
    let n = num_out_channels;
    let m = if input.len() < n { input.len() } else { n };
    let ghost old_out = output@;
    let out_len = output.len();
    assert(out_start + frames <= (out_start + frames) * n) by (nonlinear_arith)
        requires
            n > 0,
    ;
    let end = out_start + frames;
    let mut r: usize = out_start;
    while r < end
        invariant
            out_start <= r <= end,
            end == out_start + frames,
            n > 0,
            m <= n,
            m <= input@.len(),
            m == input@.len() || m == n,
            end * n <= output@.len(),
            output@.len() == old_out.len(),
            output@.len() == out_len,
            forall|c: int| 0 <= c < m ==> in_start + frames <= (#[trigger] input@[c])@.len(),
            forall|k: int|
                0 <= k < output@.len() ==> #[trigger] output@[k] == if out_start <= k / (n as int) < r && k % (n as int)
                    < m {
                    input@[k % (n as int)]@[in_start + k / (n as int) - out_start]
                } else {
                    old_out[k]
                },
        decreases end - r,
    {
        let mut c: usize = 0;
        while c < m
            invariant
                out_start <= r < end,
                end == out_start + frames,
                0 <= c <= m,
                n > 0,
                m <= n,
                m <= input@.len(),
                end * n <= output@.len(),
                output@.len() == old_out.len(),
                output@.len() == out_len,
                forall|c: int| 0 <= c < m ==> in_start + frames <= (#[trigger] input@[c])@.len(),
                forall|k: int|
                    0 <= k < output@.len() ==> #[trigger] output@[k] == if (out_start <= k / (n as int) < r && k % (
                    n as int) < m) || (k / (n as int) == r && k % (n as int) < c) {
                        input@[k % (n as int)]@[in_start + k / (n as int) - out_start]
                    } else {
                        old_out[k]
                    },
            decreases m - c,
        {
            proof {
                lemma_frames_bound(n as int, end as int, r as int, c as int);
                lemma_frame_position(n as int, r as int, c as int);
            }
            let pos = r * n + c;
            let ch = &input[c];
            let ch_len = ch.len();
            assert(in_start + frames <= ch_len);
            let s = ch[in_start + (r - out_start)];
            output[pos] = s;
            proof {
                assert forall|k: int| 0 <= k < output@.len() implies #[trigger] output@[k] == if (out_start <= k / (
                n as int) < r && k % (n as int) < m) || (k / (n as int) == r && k % (n as int) < c + 1) {
                    input@[k % (n as int)]@[in_start + k / (n as int) - out_start]
                } else {
                    old_out[k]
                } by {
                    if k != pos {
                        if k / (n as int) == r && k % (n as int) == c {
                            lemma_position_unique(n as int, k, r as int, c as int);
                        }
                    }
                }
            }
            c = c + 1;
        }
        r = r + 1;
    }
    proof {
        assert forall|k: int| 0 <= k < output@.len() implies #[trigger] output@[k] == interleaved_at(
            input@,
            old_out,
            n as int,
            in_start as int,
            out_start as int,
            frames as int,
        )[k] by {
            if k % (n as int) < input@.len() && !(k % (n as int) < m) {
                lemma_fundamental_div_mod(k, n as int);
            }
        }
        assert(output@ =~= interleaved_at(input@, old_out, n as int, in_start as int, out_start as int, frames as int));
    }
}

/// De-interleaving undoes interleaving: the frames that `interleave` wrote to
/// an interleaved buffer are read back unchanged by `deinterleave` into the
/// channel they came from.
pub proof fn lemma_deinterleave_inverts_interleave<T>(
    input: Seq<Vec<T>>,
    out: Seq<T>,
    n: int,
    start: int,
    frames: int,
    c: int,
)
    requires
        n > 0,
        0 <= start,
        0 <= frames,
        frames * n <= out.len(),
        0 <= c < input.len(),
        c < n,
        start + frames <= input[c]@.len(),
    ensures
        deinterleaved_channel(interleaved(input, out, n, start, frames), input[c]@, n, c, start, frames)
            == input[c]@,
{
    let il = interleaved(input, out, n, start, frames);
    let d = deinterleaved_channel(il, input[c]@, n, c, start, frames);
    assert forall|j: int| 0 <= j < d.len() implies d[j] == input[c]@[j] by {
        if start <= j < start + frames {
            lemma_frame_position(n, j - start, c);
            lemma_frames_bound(n, frames, j - start, c);
        }
    }
    assert(d =~= input[c]@);
}

} // verus!
