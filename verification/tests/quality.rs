use fixed_resample::{ResampleQuality, ResamplerKind, ResamplerParams, CHUNK_SIZE, FFT_SUB_CHUNKS};

#[test]
fn default_quality_is_normal() {
    assert_eq!(ResampleQuality::default(), ResampleQuality::Normal);
}

#[test]
fn low_quality_selects_fast_resampler() {
    let p = ResamplerParams::from_quality(44100, 48000, 2, ResampleQuality::Low);
    assert_eq!(p.kind, ResamplerKind::Fast);
    assert_eq!(p.chunk_size, 1024);
    assert_eq!(p.in_sample_rate, 44100);
    assert_eq!(p.out_sample_rate, 48000);
    assert_eq!(p.num_channels, 2);
}

#[test]
fn normal_quality_selects_fft_resampler() {
    let p = ResamplerParams::from_quality(48000, 44100, 1, ResampleQuality::Normal);
    assert_eq!(p.kind, ResamplerKind::Fft);
    assert_eq!(p.chunk_size, CHUNK_SIZE);
    assert_eq!(p.sub_chunks, FFT_SUB_CHUNKS);
    assert_eq!(FFT_SUB_CHUNKS, 2);
}
