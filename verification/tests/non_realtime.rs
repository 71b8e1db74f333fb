use fixed_resample::buffers::new_channels;
use fixed_resample::non_realtime::out_frames_exact;
use fixed_resample::{NonRtResampler, NonRtStage};

/// A stand-in for the resampler: it hands back each block unchanged.
fn identity_resample(block: &[Vec<i32>], out_buf: &mut Vec<Vec<i32>>) -> usize {
    let n = block[0].len();
    for (o, b) in out_buf.iter_mut().zip(block.iter()) {
        o[..n].copy_from_slice(b);
    }
    n
}

fn process(
    core: &mut NonRtResampler<i32>,
    out_buf: &mut Vec<Vec<i32>>,
    input: &[Vec<i32>],
    is_last: bool,
    emitted: &mut Vec<Vec<i32>>,
    blocks: &mut usize,
) {
    let mut cursor = core.begin(input, is_last);
    while core.advance(&mut cursor, input) {
        *blocks += 1;
        let block = core.in_buf().clone();
        let n = identity_resample(&block, out_buf);
        if let Some(f) = core.take_output(out_buf, n) {
            for (e, o) in emitted.iter_mut().zip(out_buf.iter()) {
                e.extend_from_slice(&o[..f]);
            }
        }
    }
    assert_eq!(cursor.stage, NonRtStage::Done);
    assert_eq!(cursor.copied, cursor.total);
}

fn process_interleaved(
    core: &mut NonRtResampler<i32>,
    out_buf: &mut Vec<Vec<i32>>,
    input: &[i32],
    is_last: bool,
    emitted: &mut Vec<i32>,
) {
    let mut cursor = core.begin_interleaved(input, is_last);
    while core.advance_interleaved(&mut cursor, input) {
        let block = core.in_buf().clone();
        let n = identity_resample(&block, out_buf);
        if let Some((a, b)) = core.take_output_interleaved(out_buf, n) {
            if core.num_channels() == 1 {
                emitted.extend_from_slice(&out_buf[0][a..b]);
            } else {
                emitted.extend_from_slice(&core.intlv_buf()[a..b]);
            }
        }
    }
}

#[test]
fn delay_is_dropped_and_blocks_are_full() {
    let mut core = NonRtResampler::from_custom(1, 4, 4, 2, 0i32);
    let mut out_buf = new_channels(1, 4, 0i32);
    let mut emitted = vec![Vec::new()];
    let mut blocks = 0;
    let input = vec![(1..=10).collect::<Vec<i32>>()];
    process(&mut core, &mut out_buf, &input, false, &mut emitted, &mut blocks);
    // Two full blocks were resampled; the first two output frames were the delay.
    assert_eq!(blocks, 2);
    assert_eq!(emitted[0], vec![3, 4, 5, 6, 7, 8]);
    // Two frames wait for more input.
    assert_eq!(core.tmp_input_frames(), 2);
    assert_eq!(core.in_buf()[0][..2], [9, 10]);
}

#[test]
fn last_packet_pads_and_flushes() {
    let mut core = NonRtResampler::from_custom(2, 4, 4, 1, 0i32);
    let mut out_buf = new_channels(2, 4, 0i32);
    let mut emitted = vec![Vec::new(), Vec::new()];
    let mut blocks = 0;
    let input = vec![vec![1, 2, 3, 4, 5], vec![-1, -2, -3, -4, -5]];
    process(&mut core, &mut out_buf, &input, true, &mut emitted, &mut blocks);
    // Block one, the padded partial block, and one block of silence.
    assert_eq!(blocks, 3);
    assert_eq!(emitted[0], vec![2, 3, 4, 5, 0, 0, 0, 0, 0, 0, 0]);
    assert_eq!(emitted[1], vec![-2, -3, -4, -5, 0, 0, 0, 0, 0, 0, 0]);
    assert_eq!(core.tmp_input_frames(), 0);
}

#[test]
fn flush_with_empty_input_pads_waiting_frames() {
    let mut core = NonRtResampler::from_custom(1, 4, 4, 0, 0i32);
    let mut out_buf = new_channels(1, 4, 0i32);
    let mut emitted = vec![Vec::new()];
    let mut blocks = 0;
    process(&mut core, &mut out_buf, &[vec![7, 8]], false, &mut emitted, &mut blocks);
    assert_eq!(blocks, 0);
    assert!(emitted[0].is_empty());
    let empty: Vec<Vec<i32>> = Vec::new();
    process(&mut core, &mut out_buf, &empty, true, &mut emitted, &mut blocks);
    // The padded block, then one block of silence, as for a last packet with
    // the same frames.
    assert_eq!(blocks, 2);
    assert_eq!(emitted[0], vec![7, 8, 0, 0, 0, 0, 0, 0]);
    assert_eq!(core.tmp_input_frames(), 0);
}

#[test]
fn output_of_exactly_the_delay_is_dropped_entirely() {
    let mut core = NonRtResampler::from_custom(1, 4, 4, 4, 0i32);
    let mut out_buf = new_channels(1, 4, 0i32);
    out_buf[0].copy_from_slice(&[1, 2, 3, 4]);
    assert_eq!(core.take_output(&mut out_buf, 4), None);
    out_buf[0].copy_from_slice(&[5, 6, 7, 8]);
    assert_eq!(core.take_output(&mut out_buf, 4), Some(4));
    assert_eq!(out_buf[0], vec![5, 6, 7, 8]);
}

#[test]
fn partial_delay_shifts_frames_to_start() {
    let mut core = NonRtResampler::from_custom(1, 4, 6, 3, 0i32);
    let mut out_buf = vec![vec![1, 2, 3, 4, 5, 6]];
    assert_eq!(core.take_output(&mut out_buf, 5), Some(2));
    assert_eq!(out_buf[0], vec![4, 5, 3, 4, 5, 6]);
    // No delay left: frames are handed on as they are, even none.
    assert_eq!(core.take_output(&mut out_buf, 0), Some(0));
}

#[test]
fn interleaved_process_drops_delay() {
    let mut core = NonRtResampler::from_custom(2, 2, 2, 1, 0i32);
    let mut out_buf = new_channels(2, 2, 0i32);
    let mut emitted = Vec::new();
    let input = vec![1, -1, 2, -2, 3, -3, 4, -4];
    process_interleaved(&mut core, &mut out_buf, &input, false, &mut emitted);
    assert_eq!(emitted, vec![2, -2, 3, -3, 4, -4]);
}

#[test]
fn interleaved_mono_process_uses_channel_directly() {
    let mut core = NonRtResampler::from_custom(1, 3, 3, 0, 0i32);
    let mut out_buf = new_channels(1, 3, 0i32);
    let mut emitted = Vec::new();
    process_interleaved(&mut core, &mut out_buf, &[1, 2, 3, 4], true, &mut emitted);
    assert_eq!(emitted, vec![1, 2, 3, 4, 0, 0, 0, 0, 0]);
    assert_eq!(core.intlv_buf().len(), 0);
}

#[test]
fn reset_restores_delay_and_empties_block() {
    let mut core = NonRtResampler::from_custom(1, 4, 4, 2, 0i32);
    let mut out_buf = new_channels(1, 4, 0i32);
    let mut emitted = vec![Vec::new()];
    let mut blocks = 0;
    process(&mut core, &mut out_buf, &[vec![1, 2, 3, 4, 5]], false, &mut emitted, &mut blocks);
    assert_eq!(core.tmp_input_frames(), 1);
    core.reset();
    assert_eq!(core.tmp_input_frames(), 0);
    let mut emitted2 = vec![Vec::new()];
    process(&mut core, &mut out_buf, &[vec![1, 2, 3, 4]], false, &mut emitted2, &mut blocks);
    assert_eq!(emitted2[0], vec![3, 4]);
}

#[test]
fn out_frames_rounds_up() {
    let core = NonRtResampler::from_custom(1, 1024, 1200, 5, 0.0f32);
    assert_eq!(core.out_frames(44100, 48000, 44100), 48000);
    assert_eq!(core.out_frames(44100, 48000, 1), 2);
    assert_eq!(core.out_frames(48000, 44100, 100), 92);
    assert_eq!(core.out_frames(3, 2, 0), 0);
    assert_eq!(core.out_alloc_frames(44100, 48000, 44100), 48000 + 2400);
    assert_eq!(core.max_processed_frames(), 1200);
    assert_eq!(core.output_delay(), 5);
    assert_eq!(core.num_channels(), 1);
    assert_eq!(core.input_block_frames(), 1024);
}

#[test]
fn out_frames_edge_rates() {
    assert_eq!(out_frames_exact(0, 48000, 0), 0);
    assert_eq!(out_frames_exact(0, 48000, 10), usize::MAX);
    assert_eq!(out_frames_exact(1, u32::MAX, usize::MAX), usize::MAX);
}

#[test]
fn empty_flush_matches_sending_the_frames_as_last_packet() {
    let mut a = NonRtResampler::from_custom(1, 4, 4, 1, 0i32);
    let mut out_a = new_channels(1, 4, 0i32);
    let mut emitted_a = vec![Vec::new()];
    let mut blocks_a = 0;
    process(&mut a, &mut out_a, &[vec![7, 8]], false, &mut emitted_a, &mut blocks_a);
    let empty: Vec<Vec<i32>> = Vec::new();
    process(&mut a, &mut out_a, &empty, true, &mut emitted_a, &mut blocks_a);

    let mut b = NonRtResampler::from_custom(1, 4, 4, 1, 0i32);
    let mut out_b = new_channels(1, 4, 0i32);
    let mut emitted_b = vec![Vec::new()];
    let mut blocks_b = 0;
    process(&mut b, &mut out_b, &[vec![7, 8]], true, &mut emitted_b, &mut blocks_b);

    assert_eq!(blocks_a, blocks_b);
    assert_eq!(emitted_a, emitted_b);
}
