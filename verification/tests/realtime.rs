use fixed_resample::RtResampler;

/// Stand-in resampler output: `n` frames counting up from `next`.
fn produce(out_buf: &mut Vec<Vec<i32>>, next: &mut i32, n: usize) -> usize {
    for i in 0..n {
        for (c, ch) in out_buf.iter_mut().enumerate() {
            ch[i] = *next * 10 + c as i32;
        }
        *next += 1;
    }
    n
}

fn process(core: &mut RtResampler, out_buf: &mut Vec<Vec<i32>>, next: &mut i32, block: usize, output: &mut [Vec<i32>], out_frames: usize) {
    let mut filled = core.drain_pending(out_buf, output, out_frames);
    while filled < out_frames {
        let n = produce(out_buf, next, block);
        filled = core.accept_block(out_buf, n, output, filled, out_frames);
    }
    assert_eq!(filled, out_frames);
}

#[test]
fn frames_are_handed_out_in_order_across_calls() {
    let mut core = RtResampler::from_custom(2, 4, 3, 8);
    let mut out_buf = vec![vec![0; 3]; 2];
    let mut next = 1;
    let mut seen = Vec::new();
    for _ in 0..4 {
        let mut output = vec![vec![0; 5]; 2];
        process(&mut core, &mut out_buf, &mut next, 3, &mut output, 5);
        for i in 0..5 {
            assert_eq!(output[1][i], output[0][i] + 1);
            seen.push(output[0][i] / 10);
        }
    }
    assert_eq!(seen, (1..=20).collect::<Vec<i32>>());
}

#[test]
fn pending_frames_are_kept() {
    let mut core = RtResampler::from_custom(1, 4, 4, 8);
    let out_buf = vec![vec![1, 2, 3, 4]];
    let mut output = vec![vec![0; 3]];
    let filled = core.accept_block(&out_buf, 4, &mut output, 0, 3);
    assert_eq!(filled, 3);
    assert_eq!(output[0], vec![1, 2, 3]);
    let mut output2 = vec![vec![0; 3]];
    assert_eq!(core.drain_pending(&out_buf, &mut output2, 3), 1);
    assert_eq!(output2[0], vec![4, 0, 0]);
    assert_eq!(core.drain_pending(&out_buf, &mut output2, 3), 0);
}

#[test]
fn interleaved_output() {
    let mut core = RtResampler::from_custom(2, 2, 2, 4);
    let out_buf = vec![vec![1, 2], vec![-1, -2]];
    let mut output = vec![0; 6];
    let f = core.drain_pending_interleaved(&out_buf, &mut output);
    assert_eq!(f, 0);
    let f = core.accept_block_interleaved(&out_buf, 2, &mut output, f);
    assert_eq!(f, 2);
    let out_buf2 = vec![vec![3, 4], vec![-3, -4]];
    let f = core.accept_block_interleaved(&out_buf2, 2, &mut output, f);
    assert_eq!(f, 3);
    assert_eq!(output, vec![1, -1, 2, -2, 3, -3]);
    let mut output = vec![0; 2];
    assert_eq!(core.drain_pending_interleaved(&out_buf2, &mut output), 1);
    assert_eq!(output, vec![4, -4]);
}

#[test]
fn reset_drops_pending_frames() {
    let mut core = RtResampler::from_custom(1, 4, 4, 8);
    let out_buf = vec![vec![1, 2, 3, 4]];
    let mut output = vec![vec![0; 1]];
    assert_eq!(core.accept_block(&out_buf, 4, &mut output, 0, 1), 1);
    core.reset();
    let mut output = vec![vec![0; 2]];
    assert_eq!(core.drain_pending(&out_buf, &mut output, 2), 0);
    assert_eq!(output[0], vec![0, 0]);
}

#[test]
fn limits_and_request_buffer() {
    let core = RtResampler::from_custom(2, 1024, 1100, 256);
    assert_eq!(core.max_out_frames(), 256);
    assert_eq!(core.max_request_frames(), 1024);
    assert_eq!(core.num_channels(), 2);
    assert_eq!(core.request_buffer_len(true), 2048);
    assert_eq!(core.request_buffer_len(false), 0);
    let mono = RtResampler::from_custom(1, 1024, 1100, 256);
    assert_eq!(mono.request_buffer_len(true), 0);
}
