//! Copying, shifting and clearing of frames in de-interleaved channel buffers.
use vstd::prelude::*;

verus! {

/// Channel `c` of `dst` after `frames` frames, read from frame `src_start` of
/// channel `c` of `src`, were written to frames `dst_start ..` of it (channels
/// that `src` lacks keep their content).
pub open spec fn copied_channel<T>(src: Seq<Vec<T>>, dst_ch: Seq<T>, c: int, src_start: int, dst_start: int, frames: int) -> Seq<T> {
    Seq::new(
        dst_ch.len(),
        |j: int|
            if c < src.len() && dst_start <= j < dst_start + frames {
                src[c]@[src_start + j - dst_start]
            } else {
                dst_ch[j]
            },
    )
}

/// A channel whose frames `from ..` were set to `zero`.
pub open spec fn zeroed_from<T>(ch: Seq<T>, from: int, zero: T) -> Seq<T> {
    Seq::new(ch.len(), |j: int| if from <= j { zero } else { ch[j] })
}

/// A channel whose frames `from .. to` were moved to its start.
pub open spec fn shifted_down<T>(ch: Seq<T>, from: int, to: int) -> Seq<T> {
    Seq::new(ch.len(), |j: int| if j < to - from { ch[from + j] } else { ch[j] })
}

/// Every channel of `bufs` holds exactly `frames` frames.
pub open spec fn all_channels_len<T>(bufs: Seq<Vec<T>>, frames: int) -> bool {
    forall|c: int| 0 <= c < bufs.len() ==> (#[trigger] bufs[c])@.len() == frames
}

/// Copy `frames` frames from frame `src_start` of each channel of `src` to frame
/// `dst_start` of the channel of `dst` with the same index.
pub fn copy_frames<T: Copy>(dst: &mut [Vec<T>], src: &[Vec<T>], src_start: usize, dst_start: usize, frames: usize)
    requires
        forall|c: int|
            0 <= c < src@.len() && c < old(dst)@.len() ==> src_start + frames <= (#[trigger] src@[c])@.len(),
        forall|c: int|
            0 <= c < src@.len() && c < old(dst)@.len() ==> dst_start + frames <= (#[trigger] old(dst)@[c])@.len(),
    ensures
        final(dst)@.len() == old(dst)@.len(),
        forall|c: int|
            0 <= c < old(dst)@.len() ==> (#[trigger] final(dst)@[c])@ == copied_channel(
                src@,
                old(dst)@[c]@,
                c,
                src_start as int,
                dst_start as int,
                frames as int,
            ),
{
    let ghost old_dst = dst@;
    let m = if src.len() < dst.len() { src.len() } else { dst.len() };
    let mut c: usize = 0;
    while c < m
        invariant
            0 <= c <= m,
            m <= src@.len(),
            m <= old_dst.len(),
            m == src@.len() || m == old_dst.len(),
            dst@.len() == old_dst.len(),
            forall|c: int| 0 <= c < m ==> src_start + frames <= (#[trigger] src@[c])@.len(),
            forall|c: int| 0 <= c < m ==> dst_start + frames <= (#[trigger] old_dst[c])@.len(),
            forall|d: int|
                0 <= d < dst@.len() ==> (#[trigger] dst@[d])@ == if d < c {
                    copied_channel(src@, old_dst[d]@, d, src_start as int, dst_start as int, frames as int)
                } else {
                    old_dst[d]@
                },
        decreases m - c,
    {
        let mut i: usize = 0;
        let src_len = src[c].len();
        let dst_len = dst[c].len();
        while i < frames
            invariant
                0 <= c < m,
                0 <= i <= frames,
                m <= src@.len(),
                m <= old_dst.len(),
                dst@.len() == old_dst.len(),
                src_len == src@[c as int]@.len(),
                dst_len == old_dst[c as int]@.len(),
                src_start + frames <= src_len,
                dst_start + frames <= dst_len,
                forall|d: int|
                    0 <= d < dst@.len() && d != c ==> (#[trigger] dst@[d])@ == if d < c {
                        copied_channel(src@, old_dst[d]@, d, src_start as int, dst_start as int, frames as int)
                    } else {
                        old_dst[d]@
                    },
                dst@[c as int]@.len() == dst_len,
                forall|j: int|
                    0 <= j < dst_len ==> #[trigger] dst@[c as int]@[j] == if dst_start <= j < dst_start + i {
                        src@[c as int]@[src_start + j - dst_start]
                    } else {
                        old_dst[c as int]@[j]
                    },
            decreases frames - i,
        {
            let s = src[c][src_start + i];
            dst[c][dst_start + i] = s;
            i = i + 1;
        }
        proof {
            assert(dst@[c as int]@ =~= copied_channel(
                src@,
                old_dst[c as int]@,
                c as int,
                src_start as int,
                dst_start as int,
                frames as int,
            ));
        }
        c = c + 1;
    }
    proof {
        assert forall|d: int| 0 <= d < dst@.len() implies (#[trigger] dst@[d])@ == copied_channel(
            src@,
            old_dst[d]@,
            d,
            src_start as int,
            dst_start as int,
            frames as int,
        ) by {
            if d >= m {
                assert(old_dst[d]@ =~= copied_channel(
                    src@,
                    old_dst[d]@,
                    d,
                    src_start as int,
                    dst_start as int,
                    frames as int,
                ));
            }
        }
    }
}

/// Set frames `from ..` of every channel of `bufs` to `zero`.
pub fn zero_channels_from<T: Copy>(bufs: &mut Vec<Vec<T>>, from: usize, zero: T)
    ensures
        final(bufs)@.len() == old(bufs)@.len(),
        forall|c: int|
            0 <= c < old(bufs)@.len() ==> (#[trigger] final(bufs)@[c])@ == zeroed_from(
                old(bufs)@[c]@,
                from as int,
                zero,
            ),
{
    let ghost old_bufs = bufs@;
    let n = bufs.len();
    let mut c: usize = 0;
    while c < n
        invariant
            0 <= c <= n,
            n == old_bufs.len(),
            bufs@.len() == n,
            forall|d: int|
                0 <= d < n ==> (#[trigger] bufs@[d])@ == if d < c {
                    zeroed_from(old_bufs[d]@, from as int, zero)
                } else {
                    old_bufs[d]@
                },
        decreases n - c,
    {
        let len = bufs[c].len();
        let mut j: usize = from;
        while j < len
            invariant
                0 <= c < n,
                from <= j,
                j <= len || j == from,
                n == old_bufs.len(),
                bufs@.len() == n,
                len == old_bufs[c as int]@.len(),
                forall|d: int|
                    0 <= d < n && d != c ==> (#[trigger] bufs@[d])@ == if d < c {
                        zeroed_from(old_bufs[d]@, from as int, zero)
                    } else {
                        old_bufs[d]@
                    },
                bufs@[c as int]@.len() == len,
                forall|k: int|
                    0 <= k < len ==> #[trigger] bufs@[c as int]@[k] == if from <= k < j {
                        zero
                    } else {
                        old_bufs[c as int]@[k]
                    },
            decreases len - j,
        {
            bufs[c][j] = zero;
            j = j + 1;
        }
        proof {
            assert(bufs@[c as int]@ =~= zeroed_from(old_bufs[c as int]@, from as int, zero));
        }
        c = c + 1;
    }
}

/// Move frames `from .. to` of every channel of `bufs` to the start of the channel.
pub fn shift_channels_down<T: Copy>(bufs: &mut Vec<Vec<T>>, from: usize, to: usize)
    requires
        from <= to,
        forall|c: int| 0 <= c < old(bufs)@.len() ==> to <= (#[trigger] old(bufs)@[c])@.len(),
    ensures
        final(bufs)@.len() == old(bufs)@.len(),
        forall|c: int|
            0 <= c < old(bufs)@.len() ==> (#[trigger] final(bufs)@[c])@ == shifted_down(
                old(bufs)@[c]@,
                from as int,
                to as int,
            ),
{
    let ghost old_bufs = bufs@;
    let n = bufs.len();
    let count = to - from;
    let mut c: usize = 0;
    while c < n
        invariant
            0 <= c <= n,
            n == old_bufs.len(),
            bufs@.len() == n,
            from <= to,
            count == to - from,
            forall|c: int| 0 <= c < n ==> to <= (#[trigger] old_bufs[c])@.len(),
            forall|d: int|
                0 <= d < n ==> (#[trigger] bufs@[d])@ == if d < c {
                    shifted_down(old_bufs[d]@, from as int, to as int)
                } else {
                    old_bufs[d]@
                },
        decreases n - c,
    {
        let ghost len = old_bufs[c as int]@.len();
        let mut j: usize = 0;
        while j < count
            invariant
                0 <= c < n,
                0 <= j <= count,
                count == to - from,
                n == old_bufs.len(),
                bufs@.len() == n,
                len == old_bufs[c as int]@.len(),
                to <= len,
                forall|d: int|
                    0 <= d < n && d != c ==> (#[trigger] bufs@[d])@ == if d < c {
                        shifted_down(old_bufs[d]@, from as int, to as int)
                    } else {
                        old_bufs[d]@
                    },
                bufs@[c as int]@.len() == len,
                forall|k: int|
                    0 <= k < len ==> #[trigger] bufs@[c as int]@[k] == if k < j {
                        old_bufs[c as int]@[from + k]
                    } else {
                        old_bufs[c as int]@[k]
                    },
            decreases count - j,
        {
            let s = bufs[c][from + j];
            bufs[c][j] = s;
            j = j + 1;
        }
        proof {
            assert(bufs@[c as int]@ =~= shifted_down(old_bufs[c as int]@, from as int, to as int));
        }
        c = c + 1;
    }
}

/// A buffer of `num_channels` channels holding `frames` copies of `zero` each.
pub fn new_channels<T: Copy>(num_channels: usize, frames: usize, zero: T) -> (bufs: Vec<Vec<T>>)
    ensures
        bufs@.len() == num_channels,
        forall|c: int|
            0 <= c < num_channels ==> (#[trigger] bufs@[c])@ == Seq::new(frames as nat, |j: int| zero),
{
    let mut bufs: Vec<Vec<T>> = Vec::new();
    let mut c: usize = 0;
    while c < num_channels
        invariant
            0 <= c <= num_channels,
            bufs@.len() == c,
            forall|d: int| 0 <= d < c ==> (#[trigger] bufs@[d])@ == Seq::new(frames as nat, |j: int| zero),
        decreases num_channels - c,
    {
        let ch = new_samples(frames, zero);
        bufs.push(ch);
        c = c + 1;
    }
    bufs
}

/// A buffer holding `len` copies of `zero`.
pub fn new_samples<T: Copy>(len: usize, zero: T) -> (v: Vec<T>)
    ensures
        v@ == Seq::new(len as nat, |j: int| zero),
{
    let mut v: Vec<T> = Vec::new();
    let mut i: usize = 0;
    while i < len
        invariant
            0 <= i <= len,
            v@ == Seq::new(i as nat, |j: int| zero),
        decreases len - i,
    {
        v.push(zero);
        i = i + 1;
        proof {
            assert(v@ =~= Seq::new(i as nat, |j: int| zero));
        }
    }
    v
}

} // verus!
