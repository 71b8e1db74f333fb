use fixed_resample::{
    buffer_capacity_frames, channel_latency_frames, resampler_input_frames, resampling_channel_inner, ReadStatus,
};

#[test]
fn latency_and_capacity_rules() {
    assert_eq!(channel_latency_frames(100, true, true, 30), 70);
    assert_eq!(channel_latency_frames(100, true, true, 100), 0);
    assert_eq!(channel_latency_frames(100, true, true, 130), 0);
    assert_eq!(channel_latency_frames(100, true, false, 30), 100);
    assert_eq!(channel_latency_frames(100, false, true, 30), 100);
    assert_eq!(buffer_capacity_frames(500, 100), 500);
    assert_eq!(buffer_capacity_frames(150, 100), 200);
}

#[test]
fn resampler_input_frames_rounds_to_blocks() {
    assert_eq!(resampler_input_frames(0, 4, 0), 0);
    assert_eq!(resampler_input_frames(4, 4, 0), 0);
    assert_eq!(resampler_input_frames(5, 4, 0), 4);
    assert_eq!(resampler_input_frames(10, 4, 1), 7);
    assert_eq!(resampler_input_frames(13, 4, 3), 9);
}

#[test]
fn latency_is_prefilled_with_silence() {
    let (prod, mut cons) = resampling_channel_inner::<i32>(2, 48000, 48000, 3, 3, 8, false, 0, 0);
    assert_eq!(prod.occupied_output_frames(), 3);
    assert_eq!(cons.available_frames(), 3);
    assert_eq!(prod.available_frames(), 5);
    let mut out = vec![9; 6];
    assert_eq!(cons.read_interleaved(&mut out), ReadStatus::Filled);
    assert_eq!(out, vec![0; 6]);
}

#[test]
fn interleaved_round_trip() {
    let (mut prod, mut cons) = resampling_channel_inner::<i32>(2, 44100, 44100, 1, 0, 4, false, 0, 0);
    assert_eq!(prod.push_interleaved(&[1, 2, 3, 4, 5, 6]), 3);
    let mut out = vec![0; 4];
    assert_eq!(cons.read_interleaved(&mut out), ReadStatus::Filled);
    assert_eq!(out, vec![1, 2, 3, 4]);
    let mut out = vec![7; 4];
    assert_eq!(cons.read_interleaved(&mut out), ReadStatus::Underflow { num_frames_dropped: 1 });
    assert_eq!(out, vec![5, 6, 0, 0]);
}

#[test]
fn push_overflow_reports_pushed_frames() {
    let (mut prod, _cons) = resampling_channel_inner::<i32>(1, 44100, 44100, 1, 0, 3, false, 0, 0);
    assert_eq!(prod.push_interleaved(&[1, 2, 3, 4, 5]), 3);
    assert_eq!(prod.available_frames(), 0);
    let input = vec![vec![1, 2, 3]];
    assert_eq!(prod.push(&input, 0..3), 0);
}

#[test]
fn deinterleaved_round_trip_across_wraparound() {
    let (mut prod, mut cons) = resampling_channel_inner::<i32>(2, 44100, 44100, 1, 0, 3, false, 0, 0);
    let input = vec![vec![1, 2, 3, 4], vec![-1, -2, -3, -4]];
    assert_eq!(prod.push(&input, 0..2), 2);
    let mut out = vec![vec![0; 2], vec![0; 2]];
    assert_eq!(cons.read(&mut out, 0..2), ReadStatus::Filled);
    assert_eq!(out, vec![vec![1, 2], vec![-1, -2]]);
    // The next push wraps around the end of the ring buffer.
    assert_eq!(prod.push(&input, 1..4), 3);
    let mut out = vec![vec![0; 3], vec![0; 3], vec![5; 3]];
    assert_eq!(cons.read(&mut out, 0..3), ReadStatus::Filled);
    assert_eq!(out, vec![vec![2, 3, 4], vec![-2, -3, -4], vec![0, 0, 0]]);
}

#[test]
fn read_underflow_fills_silence() {
    let (mut prod, mut cons) = resampling_channel_inner::<i32>(1, 44100, 44100, 1, 0, 4, false, 0, 0);
    let input = vec![vec![1, 2]];
    assert_eq!(prod.push(&input, 0..2), 2);
    let mut out = vec![vec![9; 4]];
    assert_eq!(cons.read(&mut out, 0..4), ReadStatus::Underflow { num_frames_dropped: 2 });
    assert_eq!(out, vec![vec![1, 2, 0, 0]]);
}

#[test]
fn discard_frames_removes_at_most_queued() {
    let (mut prod, mut cons) = resampling_channel_inner::<i32>(2, 44100, 44100, 1, 0, 4, false, 0, 0);
    assert_eq!(prod.push_interleaved(&[1, 2, 3, 4, 5, 6]), 3);
    assert_eq!(cons.discard_frames(2), 2);
    assert_eq!(cons.discard_frames(5), 1);
    assert_eq!(cons.available_frames(), 0);
}

#[test]
fn reset_discards_queued_frames_and_refills_latency() {
    let (mut prod, mut cons) = resampling_channel_inner::<i32>(1, 44100, 44100, 2, 2, 8, false, 0, 0);
    assert_eq!(prod.push_interleaved(&[7, 8, 9]), 3);
    prod.reset();
    let mut out = vec![1; 4];
    assert_eq!(cons.read_interleaved(&mut out), ReadStatus::Underflow { num_frames_dropped: 2 });
    assert_eq!(out, vec![0, 0, 0, 0]);
}

#[test]
fn correct_underflows_refills_only_when_empty() {
    let (mut prod, mut cons) = resampling_channel_inner::<i32>(1, 44100, 44100, 2, 2, 8, false, 0, 0);
    prod.correct_underflows();
    assert_eq!(cons.available_frames(), 2);
    assert_eq!(cons.discard_frames(2), 2);
    prod.correct_underflows();
    assert_eq!(cons.available_frames(), 2);
}

#[test]
fn getters() {
    let (prod, cons) = resampling_channel_inner::<i32>(3, 44100, 48000, 7, 4, 16, true, 3, 0);
    assert_eq!(prod.num_channels(), 3);
    assert_eq!(prod.in_sample_rate(), 44100);
    assert_eq!(prod.out_sample_rate(), 48000);
    assert_eq!(cons.num_channels(), 3);
    assert_eq!(cons.in_sample_rate(), 44100);
    assert_eq!(cons.out_sample_rate(), 48000);
    assert_eq!(cons.latency_frames(), 7);
    assert!(cons.is_resampling());
    assert_eq!(cons.resampler_output_delay(), 3);
    let (_p, c2) = resampling_channel_inner::<i32>(1, 44100, 48000, 7, 4, 16, false, 3, 0);
    assert_eq!(c2.resampler_output_delay(), 0);
    assert!(!c2.is_resampling());
}

#[test]
fn frame_counts_stay_within_capacity() {
    let (mut prod, mut cons) = resampling_channel_inner::<i32>(2, 44100, 44100, 1, 0, 4, false, 0, 0);
    let input = vec![vec![1, 2, 3, 4, 5, 6], vec![-1, -2, -3, -4, -5, -6]];
    assert_eq!(prod.push(&input, 0..6), 4);
    assert_eq!(prod.available_frames(), 0);
    assert_eq!(prod.occupied_output_frames(), 4);
    assert_eq!(cons.available_frames(), 4);
    assert_eq!(cons.discard_frames(10), 4);
    assert_eq!(prod.available_frames(), 4);
}

#[test]
fn push_interleaved_counts_whole_frames() {
    let (mut prod, cons) = resampling_channel_inner::<i32>(2, 44100, 44100, 1, 0, 4, false, 0, 0);
    // Only the whole frame is queued; the trailing sample stays out.
    assert_eq!(prod.push_interleaved(&[1, 2, 3]), 1);
    assert_eq!(cons.available_frames(), 1);
    assert_eq!(prod.available_frames(), 3);
    assert_eq!(prod.occupied_output_frames(), 1);
}

#[test]
fn read_fills_silence_after_frames_read_within_range() {
    let (mut prod, mut cons) = resampling_channel_inner::<i32>(1, 4, 4, 2, 2, 10, false, 0, 0);
    let input = vec![vec![1, 2, 3]];
    assert_eq!(prod.push(&input, 0..3), 3);
    let mut out = vec![vec![9; 8]];
    assert_eq!(cons.read(&mut out, 2..8), ReadStatus::Underflow { num_frames_dropped: 1 });
    assert_eq!(out, vec![vec![9, 9, 0, 0, 1, 2, 3, 0]]);
    assert_eq!(cons.available_frames(), 0);
}

#[test]
fn latency_prefill_fixes_frames_after_creation() {
    let (prod, cons) = resampling_channel_inner::<i32>(2, 4, 4, 3, 3, 10, false, 0, 0);
    assert_eq!(cons.latency_frames(), 3);
    assert_eq!(cons.available_frames(), 3);
    assert_eq!(prod.occupied_output_frames(), 3);
    assert_eq!(prod.available_frames(), 7);
}

#[test]
fn correct_underflows_queues_nothing_when_not_empty() {
    let (mut prod, cons) = resampling_channel_inner::<i32>(1, 44100, 44100, 2, 2, 8, false, 0, 0);
    prod.correct_underflows();
    assert_eq!(cons.available_frames(), 2);
    assert_eq!(prod.available_frames(), 6);
}

#[test]
fn reset_queues_only_the_silence_that_fits() {
    let (mut prod, mut cons) = resampling_channel_inner::<i32>(2, 44100, 44100, 2, 2, 4, false, 0, 0);
    assert_eq!(prod.push_interleaved(&[1, 2, 3, 4]), 2);
    assert_eq!(prod.available_frames(), 0);
    prod.reset();
    assert_eq!(prod.occupied_output_frames(), 4);
    let mut out = vec![9; 4];
    assert_eq!(cons.read_interleaved(&mut out), ReadStatus::Underflow { num_frames_dropped: 2 });
    assert_eq!(out, vec![0, 0, 0, 0]);
}

#[test]
fn discard_requested_removes_whole_requested_frames() {
    let (mut prod, mut cons) = resampling_channel_inner::<i32>(2, 44100, 44100, 1, 0, 4, false, 0, 0);
    assert_eq!(cons.discard_requested(0), 0);
    assert_eq!(prod.push_interleaved(&[1, 2, 3, 4, 5, 6]), 3);
    assert_eq!(cons.discard_requested(1), 2);
    assert_eq!(cons.available_frames(), 2);
    assert_eq!(cons.discard_requested(usize::MAX), 4);
    assert_eq!(cons.available_frames(), 0);
}

#[test]
fn push_ignores_short_channels_beyond_the_channel_count() {
    let (mut prod, mut cons) = resampling_channel_inner::<i32>(1, 44100, 44100, 1, 0, 4, false, 0, 0);
    let input = vec![vec![1, 2, 3], vec![]];
    assert_eq!(prod.push(&input, 0..3), 3);
    let mut out = vec![0; 3];
    assert_eq!(cons.read_interleaved(&mut out), ReadStatus::Filled);
    assert_eq!(out, vec![1, 2, 3]);
}
