use fixed_resample::interleave::{deinterleave, interleave, interleave_frames};

#[test]
fn interleave_stereo_full() {
    let input: Vec<Vec<i32>> = vec![vec![1, 3, 5, 7], vec![2, 4, 6, 8]];
    let mut output = vec![0; 8];
    interleave(&input, &mut output, 2, 0..4);
    assert_eq!(output, vec![1, 2, 3, 4, 5, 6, 7, 8]);
}

#[test]
fn interleave_mono_range() {
    let input: Vec<Vec<i32>> = vec![vec![1, 2, 3, 4]];
    let mut output = vec![0; 4];
    interleave(&input, &mut output, 1, 1..4);
    assert_eq!(output, vec![2, 3, 4, 0]);
}

#[test]
fn interleave_more_out_channels_than_input() {
    // Output samples of channels the input lacks stay untouched.
    let input: Vec<Vec<i32>> = vec![vec![1, 3], vec![2, 4]];
    let mut output = vec![9; 6];
    interleave(&input, &mut output, 3, 0..2);
    assert_eq!(output, vec![1, 2, 9, 3, 4, 9]);
}

#[test]
fn interleave_extra_input_channels_ignored() {
    let input: Vec<Vec<i32>> = vec![vec![1, 4], vec![2, 5], vec![3, 6], vec![7, 7]];
    let mut output = vec![0; 6];
    interleave(&input, &mut output, 3, 0..2);
    assert_eq!(output, vec![1, 2, 3, 4, 5, 6]);
}

#[test]
fn interleave_short_output_moves_fewer_frames() {
    let input: Vec<Vec<i32>> = vec![vec![1, 3, 5, 7], vec![2, 4, 6, 8]];
    let mut output = vec![0; 5];
    interleave(&input, &mut output, 2, 0..4);
    // Only two whole frames fit.
    assert_eq!(output, vec![1, 2, 3, 4, 0]);
}

#[test]
fn deinterleave_stereo_full() {
    let input = vec![1, 2, 3, 4, 5, 6, 7, 8];
    let mut output: Vec<Vec<i32>> = vec![vec![0; 4], vec![0; 4]];
    deinterleave(&input, &mut output, 2, 0..4);
    assert_eq!(output[0], vec![1, 3, 5, 7]);
    assert_eq!(output[1], vec![2, 4, 6, 8]);
}

#[test]
fn deinterleave_into_range_and_extra_channel_untouched() {
    let input = vec![1, 2, 3, 4];
    let mut output: Vec<Vec<i32>> = vec![vec![0; 4], vec![0; 4], vec![9; 4]];
    deinterleave(&input, &mut output, 2, 2..4);
    assert_eq!(output[0], vec![0, 0, 1, 3]);
    assert_eq!(output[1], vec![0, 0, 2, 4]);
    assert_eq!(output[2], vec![9, 9, 9, 9]);
}

#[test]
fn deinterleave_short_input_moves_fewer_frames() {
    let input = vec![1, 2, 3];
    let mut output: Vec<Vec<i32>> = vec![vec![0; 3], vec![0; 3]];
    deinterleave(&input, &mut output, 2, 0..3);
    assert_eq!(output[0], vec![1, 0, 0]);
    assert_eq!(output[1], vec![2, 0, 0]);
}

#[test]
fn deinterleave_mono() {
    let input = vec![5, 6, 7];
    let mut output: Vec<Vec<i32>> = vec![vec![0; 4]];
    deinterleave(&input, &mut output, 1, 1..4);
    assert_eq!(output[0], vec![0, 5, 6, 7]);
}

#[test]
fn deinterleave_undoes_interleave() {
    let input: Vec<Vec<f32>> = vec![vec![0.5, -0.25, 1.0], vec![0.0, 0.75, -1.0], vec![0.1, 0.2, 0.3]];
    let mut inter = vec![0.0f32; 9];
    interleave(&input, &mut inter, 3, 0..3);
    let mut back: Vec<Vec<f32>> = vec![vec![9.0; 3]; 3];
    deinterleave(&inter, &mut back, 3, 0..3);
    assert_eq!(back, input);
}

#[test]
fn interleave_frames_at_offsets() {
    let input: Vec<Vec<i32>> = vec![vec![1, 2, 3, 4], vec![5, 6, 7, 8]];
    let mut output = vec![0; 8];
    interleave_frames(&input, &mut output, 2, 1, 2, 2);
    assert_eq!(output, vec![0, 0, 0, 0, 2, 6, 3, 7]);
}
