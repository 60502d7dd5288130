use saytype::audio::{
    first_channel, plan_resampling, signed_rate, usable_bytes, Capture, CaptureFormat, CaptureStep,
    Mono, ParamChange, Resampling, SampleFormat, SAMPLE_RATE,
};

fn info(format: SampleFormat, rate: u32, channels: u32) -> CaptureFormat {
    CaptureFormat { format, rate, channels }
}

fn s16le(samples: &[i16]) -> Vec<u8> {
    samples.iter().flat_map(|v| v.to_le_bytes()).collect()
}

fn f32le(samples: &[f32]) -> Vec<u8> {
    samples.iter().flat_map(|v| v.to_le_bytes()).collect()
}

/// The decoded first channel as the numbers that the recognizer takes.
fn pcm_to_mono_f32(format: &CaptureFormat, bytes: &[u8]) -> Vec<f32> {
    match first_channel(format, bytes) {
        Mono::S16(v) => v.into_iter().map(|s| s as f32 / i16::MAX as f32).collect(),
        Mono::F32(v) => v.into_iter().map(f32::from_bits).collect(),
        Mono::Unsupported => Vec::new(),
    }
}

fn assert_close(actual: &[f32], expected: &[f32], eps: f32) {
    assert_eq!(actual.len(), expected.len(), "length mismatch");
    for (a, e) in actual.iter().zip(expected) {
        assert!((a - e).abs() <= eps, "expected {e} +/- {eps}, got {a}");
    }
}

#[test]
fn s16le_mono_decodes_normalized() {
    let fmt = info(SampleFormat::S16Le, 16000, 1);
    let out = pcm_to_mono_f32(&fmt, &s16le(&[0, 16383, -16384, 32767]));
    // Normalized against i16::MAX: 32767 is exactly 1.0.
    assert_close(&out, &[0.0, 0.5, -0.5, 1.0], 1e-3);
}

#[test]
fn s16le_stereo_takes_first_channel() {
    // Interleaved frames (L0,R0),(L1,R1): only the first channel is decoded.
    let fmt = info(SampleFormat::S16Le, 16000, 2);
    let out = pcm_to_mono_f32(&fmt, &s16le(&[0, 1000, 2000, -3000]));
    assert_close(&out, &[0.0, 2000.0 / i16::MAX as f32], 1e-6);
}

#[test]
fn f32le_mono_passthrough() {
    let fmt = info(SampleFormat::F32Le, 16000, 1);
    let out = pcm_to_mono_f32(&fmt, &f32le(&[0.25, -0.5, 1.0]));
    assert_close(&out, &[0.25, -0.5, 1.0], 0.0);
}

#[test]
fn f32le_stereo_takes_first_channel() {
    let fmt = info(SampleFormat::F32Le, 16000, 2);
    let out = pcm_to_mono_f32(&fmt, &f32le(&[0.1, 0.9, 0.2, 0.8]));
    assert_close(&out, &[0.1, 0.2], 0.0);
}

#[test]
fn unsupported_format_returns_empty() {
    let other = info(SampleFormat::Other, 16000, 1);
    assert!(pcm_to_mono_f32(&other, &[0; 16]).is_empty());
    assert_eq!(first_channel(&other, &[0; 16]), Mono::Unsupported);
}

#[test]
fn empty_bytes_return_empty() {
    let fmt = info(SampleFormat::S16Le, 16000, 1);
    assert!(pcm_to_mono_f32(&fmt, &[]).is_empty());
}

#[test]
fn trailing_partial_frame_is_dropped() {
    // 5 bytes hold 2 complete i16 frames plus 1 stray byte; the stray byte
    // must not be read as a (corrupt) frame.
    let fmt = info(SampleFormat::S16Le, 16000, 1);
    let bytes = s16le(&[1000, 2000]);
    let mut bytes = bytes;
    bytes.push(0xFF);
    let out = pcm_to_mono_f32(&fmt, &bytes);
    assert_close(
        &out,
        &[1000.0 / i16::MAX as f32, 2000.0 / i16::MAX as f32],
        1e-6,
    );
}

#[test]
fn zero_channels_clamped_to_mono() {
    // A format that (malformed or not) reports 0 channels must not divide by
    // zero: it is treated as mono.
    let fmt = info(SampleFormat::S16Le, 16000, 0);
    let out = pcm_to_mono_f32(&fmt, &s16le(&[1000]));
    assert_close(&out, &[1000.0 / i16::MAX as f32], 1e-6);
}

#[test]
fn every_sample_value_decodes() {
    let all: Vec<i16> = (i16::MIN..=i16::MAX).collect();
    let fmt = info(SampleFormat::S16Le, 16000, 1);
    assert_eq!(first_channel(&fmt, &s16le(&all)), Mono::S16(all));
    let bits = [0u32, 1, 0x3F80_0000, 0xBF80_0000, u32::MAX, 0x0102_0304];
    let bytes: Vec<u8> = bits.iter().flat_map(|b| b.to_le_bytes()).collect();
    let fmt = info(SampleFormat::F32Le, 16000, 1);
    assert_eq!(first_channel(&fmt, &bytes), Mono::F32(bits.to_vec()));
}

#[test]
fn frames_of_many_channels_are_whole() {
    let fmt = info(SampleFormat::S16Le, 16000, 3);
    // Two whole frames and two samples of a third.
    let bytes = s16le(&[1, 2, 3, 4, 5, 6, 7, 8]);
    assert_eq!(first_channel(&fmt, &bytes), Mono::S16(vec![1, 4]));
    // More channels than there are samples.
    let fmt = info(SampleFormat::S16Le, 16000, u32::MAX);
    assert_eq!(first_channel(&fmt, &bytes), Mono::S16(vec![]));
}

/// What is emitted where nothing is interpolated.
fn resample_linear(input: &[f32], from: i32, to: i32) -> Vec<f32> {
    match plan_resampling(input.len(), from, to) {
        Resampling::Nothing => Vec::new(),
        Resampling::Copy => input.to_vec(),
        Resampling::Interpolate => panic!("not needed here"),
    }
}

#[test]
fn resample_same_rate_is_a_copy() {
    let out = resample_linear(&[0.5, -0.25, 1.0], 16000, 16000);
    assert_close(&out, &[0.5, -0.25, 1.0], 0.0);
}

#[test]
fn resample_empty_input() {
    assert!(resample_linear(&[], 48000, 16000).is_empty());
}

#[test]
fn resample_nonpositive_rates_return_empty() {
    assert!(resample_linear(&[1.0, 2.0, 3.0], 0, 16000).is_empty());
    assert!(resample_linear(&[1.0, 2.0, 3.0], 16000, 0).is_empty());
    assert!(resample_linear(&[1.0, 2.0, 3.0], -1, 16000).is_empty());
    // Both rates zero with no input: empty in, empty out.
    assert!(resample_linear(&[], 0, 0).is_empty());
}

#[test]
fn other_rates_are_interpolated() {
    assert_eq!(plan_resampling(6, 48000, SAMPLE_RATE), Resampling::Interpolate);
    assert_eq!(plan_resampling(1, 8000, SAMPLE_RATE), Resampling::Interpolate);
    assert_eq!(signed_rate(44100), 44100);
    assert_eq!(signed_rate(0), 0);
    assert!(signed_rate(u32::MAX) < 0);
    assert_eq!(plan_resampling(6, signed_rate(1 << 31), SAMPLE_RATE), Resampling::Nothing);
}

#[test]
fn capture_follows_the_negotiated_format() {
    let fmt = info(SampleFormat::S16Le, 48000, 2);
    let change = |is_format, raw_audio, info| ParamChange { is_format, raw_audio, info };
    let mut c = Capture::new();
    assert_eq!(c.on_process(false), CaptureStep::Skip);
    for ignored in [
        change(false, Some(true), Some(fmt)),
        change(true, None, Some(fmt)),
        change(true, Some(false), Some(fmt)),
        change(true, Some(true), None),
    ] {
        c.on_param(ignored);
        assert_eq!(c.on_process(false), CaptureStep::Skip);
    }
    c.on_param(change(true, Some(true), Some(fmt)));
    assert_eq!(c.on_process(false), CaptureStep::Decode(fmt));
    // A change that cannot be read leaves the format as it was.
    c.on_param(change(true, Some(true), None));
    assert_eq!(c.on_process(false), CaptureStep::Decode(fmt));
    assert_eq!(c.on_process(true), CaptureStep::Quit);
}

#[test]
fn buffers_are_read_no_further_than_they_are_mapped() {
    assert_eq!(usable_bytes(100, 4096), 100);
    assert_eq!(usable_bytes(8192, 4096), 4096);
    assert_eq!(usable_bytes(0, 0), 0);
}
