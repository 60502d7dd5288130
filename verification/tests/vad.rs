use saytype::vad::{check_model_file, padded_segment, AudioRing, POST_PAD_MS, PRE_PAD_MS};

#[test]
fn slice_returns_pushed_range() {
    let mut ring = AudioRing::new(1000, 0.0f32);
    let data: Vec<f32> = (0..500).map(|i| i as f32).collect();
    ring.push(&data);
    let got = ring.slice(100, 200);
    assert_eq!(got.len(), 100);
    assert_eq!(got[0], 100.0);
    assert_eq!(got[99], 199.0);
}

#[test]
fn slice_zero_fills_before_capture_start() {
    let mut ring = AudioRing::new(1000, 0.0f32);
    let data: Vec<f32> = (0..500).map(|i| i as f32).collect();
    ring.push(&data);
    // Range begins 50 samples before capture started: first 50 are zeros.
    let got = ring.slice(-50, 50);
    assert_eq!(got.len(), 100);
    assert!(got[..50].iter().all(|&v| v == 0.0));
    assert_eq!(got[50], 0.0);
    assert_eq!(got[99], 49.0);
}

#[test]
fn slice_zero_fills_end_past_capture() {
    let mut ring = AudioRing::new(1000, 0.0f32);
    let data: Vec<f32> = (0..500).map(|i| i as f32).collect();
    ring.push(&data);
    // Range reaches 100 samples past the latest: tail is zeros. This is
    // the POST_PAD case at the very end of a session.
    let got = ring.slice(450, 600);
    assert_eq!(got.len(), 150);
    assert_eq!(got[0], 450.0);
    assert_eq!(got[49], 499.0);
    assert!(got[50..].iter().all(|&v| v == 0.0));
}

#[test]
fn slice_zero_fills_out_of_window_not_stale() {
    let mut ring = AudioRing::new(100, 0.0f32);
    // Push 3x capacity; indices 0..200 have scrolled out of the ring.
    let data: Vec<f32> = (0..300).map(|i| i as f32).collect();
    ring.push(&data);
    // A range partly outside the retained window must zero-fill the
    // stale part, not return wrapped-around (new) samples from the same
    // buffer slots.
    let got = ring.slice(150, 250);
    assert_eq!(got.len(), 100);
    assert!(got[..50].iter().all(|&v| v == 0.0));
    assert_eq!(got[50], 200.0);
    assert_eq!(got[99], 249.0);
}

#[test]
fn wraparound_keeps_most_recent_window() {
    let mut ring = AudioRing::new(100, 0.0f32);
    // Push 3x capacity; only the last 100 (indices 200..300) remain valid.
    let data: Vec<f32> = (0..300).map(|i| i as f32).collect();
    ring.push(&data);
    let got = ring.slice(250, 300);
    assert_eq!(got.len(), 50);
    assert_eq!(got[0], 250.0);
    assert_eq!(got[49], 299.0);
    // Oldest retained index is total - cap = 200.
    let oldest = ring.slice(200, 201);
    assert_eq!(oldest[0], 200.0);
}

#[test]
fn slice_zero_length_and_inverted_ranges_are_empty() {
    let mut ring = AudioRing::new(100, 0.0f32);
    let data: Vec<f32> = (0..50).map(|i| i as f32).collect();
    ring.push(&data);
    assert!(ring.slice(10, 10).is_empty());
    assert!(ring.slice(30, 10).is_empty());
}

#[test]
fn slice_on_unused_ring_zero_fills() {
    // A fresh ring holds no samples at all: any range is zero-filled.
    let ring = AudioRing::new(100, 0.0f32);
    let got = ring.slice(0, 10);
    assert_eq!(got.len(), 10);
    assert!(got.iter().all(|&v| v == 0.0));
}

#[test]
fn slice_entirely_before_capture_is_all_zeros() {
    let mut ring = AudioRing::new(100, 0.0f32);
    let data: Vec<f32> = (0..50).map(|i| i as f32).collect();
    ring.push(&data);
    // Both endpoints before the first sample: nothing is available.
    let got = ring.slice(-20, -5);
    assert_eq!(got.len(), 15);
    assert!(got.iter().all(|&v| v == 0.0));
}

#[test]
fn slice_end_exactly_at_total_has_no_tail_padding() {
    let mut ring = AudioRing::new(100, 0.0f32);
    let data: Vec<f32> = (0..50).map(|i| i as f32).collect();
    ring.push(&data);
    // `end == total` is the boundary: the whole range is real audio,
    // no zero tail (unlike the POST_PAD case, which reaches past it).
    let got = ring.slice(40, 50);
    assert_eq!(got.len(), 10);
    assert_eq!(got[0], 40.0);
    assert_eq!(got[9], 49.0);
}

#[test]
fn slice_start_past_total_is_all_zeros() {
    let mut ring = AudioRing::new(100, 0.0f32);
    let data: Vec<f32> = (0..50).map(|i| i as f32).collect();
    ring.push(&data);
    let got = ring.slice(60, 80);
    assert_eq!(got.len(), 20);
    assert!(got.iter().all(|&v| v == 0.0));
}

#[test]
fn slice_exact_full_retained_window() {
    let mut ring = AudioRing::new(100, 0.0f32);
    let data: Vec<f32> = (0..150).map(|i| i as f32).collect();
    ring.push(&data);
    // The retained window is exactly indices 50..150: every sample in
    // the range is real (no zero fill on either side).
    let got = ring.slice(50, 150);
    assert_eq!(got.len(), 100);
    assert_eq!(got[0], 50.0);
    assert_eq!(got[99], 149.0);
}

#[test]
fn push_empty_slice_is_a_noop() {
    let mut ring = AudioRing::new(100, 0.0f32);
    ring.push(&[]);
    // Nothing was recorded: the ring still behaves like a fresh one.
    assert!(ring.slice(0, 10).iter().all(|&v| v == 0.0));
    ring.push(&[7.0]);
    assert_eq!(ring.slice(0, 1), vec![7.0]);
}

#[test]
fn zero_capacity_ring_stays_safe() {
    // Degenerate construction must not panic in push/slice; it behaves
    // like a one-sample ring (only the newest sample is addressable).
    let mut ring = AudioRing::new(0, 0.0f32);
    ring.push(&[1.0, 2.0, 3.0]);
    // Only the newest sample (absolute index 2) is retained (oldest
    // retained index is total - cap = 3 - 1 = 2).
    assert_eq!(ring.slice(2, 3), vec![3.0]);
    let got = ring.slice(0, 3);
    assert_eq!(got[0], 0.0); // index 0 fell out of the 1-sample window
    assert_eq!(got[1], 0.0); // index 1 fell out too
    assert_eq!(got[2], 3.0); // the newest sample is retained
}

#[test]
fn pushes_add_up() {
    let mut a = AudioRing::new(7, 0u8);
    let mut b = AudioRing::new(7, 0u8);
    let data: Vec<u8> = (1..=40).collect();
    a.push(&data);
    for chunk in data.chunks(3) {
        b.push(chunk);
    }
    for start in -3..45 {
        for end in start..45 {
            assert_eq!(a.slice(start, end), b.slice(start, end));
        }
    }
    assert_eq!(a.slice(30, 42), vec![0, 0, 0, 34, 35, 36, 37, 38, 39, 40, 0, 0]);
}

#[test]
fn segments_get_context_on_both_ends() {
    // 300 ms before, 800 ms after, at 16 kHz.
    assert_eq!(padded_segment(10_000, 1600), Some((10_000 - 4800, 10_000 + 1600 + 12_800)));
    // Near the start of capture the range reaches before it.
    assert_eq!(padded_segment(100, 2000), Some((-4700, 14_900)));
    // Blips are passed over.
    assert_eq!(padded_segment(100, 1599), None);
    assert_eq!((PRE_PAD_MS, POST_PAD_MS), (300, 800));
}

#[test]
fn segment_audio_is_sliced_from_the_ring() {
    let mut ring = AudioRing::new(480_000, 0i32);
    let data: Vec<i32> = (1..=50_000).collect();
    ring.push(&data);
    let got = ring.segment(20_000, 1600).unwrap();
    assert_eq!(got.len(), 4800 + 1600 + 12_800);
    assert_eq!(got[0], 15_201);
    assert_eq!(*got.last().unwrap(), 34_400);
    // Context that was not captured yet is silence.
    let got = ring.segment(45_000, 1600).unwrap();
    assert_eq!(got[9_799], 50_000);
    assert_eq!(got[9_800], 0);
    assert_eq!(ring.segment(20_000, 10), None);
}

#[test]
fn missing_detector_model_is_reported() {
    assert_eq!(check_model_file("\"/m/silero_vad.onnx\"", true), Ok(()));
    assert_eq!(
        check_model_file("\"/m/silero_vad.onnx\"", false),
        Err("VAD model not found at \"/m/silero_vad.onnx\". Run scripts/download-models.sh first."
            .to_string())
    );
}

#[test]
fn lookback_covers_the_longest_segment() {
    // 20 s of speech from 5 s on, reported 8 s after its context ended.
    let rate = 16_000usize;
    let mut ring = AudioRing::new(30 * rate, -1i64);
    let (start, len) = (5 * rate, 20 * rate);
    let end = start + len + 12_800;
    let data: Vec<i64> = (0..(end + 8 * rate) as i64).collect();
    ring.push(&data);
    let got = ring.segment(start as i64, len).unwrap();
    assert_eq!(got, data[start - 4800..end].to_vec());
}
