use bevy_seedling::stream::{
    LiveAudioStream, StreamChannels, StreamSettings, StreamingSampleResource,
};

fn mono_stream(sample_rate: u32, max_ms: u32, threshold_ms: u32) -> LiveAudioStream<f32> {
    LiveAudioStream::new(StreamSettings {
        sample_rate,
        channels: StreamChannels::Mono,
        max_buffer_duration_ms: max_ms,
        start_threshold_ms: threshold_ms,
    })
}

fn stereo_stream(sample_rate: u32, max_ms: u32, threshold_ms: u32) -> LiveAudioStream<f32> {
    LiveAudioStream::new(StreamSettings {
        sample_rate,
        channels: StreamChannels::Stereo,
        max_buffer_duration_ms: max_ms,
        start_threshold_ms: threshold_ms,
    })
}

#[test]
fn push_and_drain_mono() {
    let mut stream = LiveAudioStream::new(StreamSettings {
        sample_rate: 100,
        channels: StreamChannels::Mono,
        max_buffer_duration_ms: 1000,
        start_threshold_ms: 0,
        ..Default::default()
    });

    let input: Vec<f32> = (0..10).map(|i| i as f32).collect();
    stream.push_mono(&input);

    let stats = stream.stats();
    assert_eq!(stats.buffered_frames, 10);
    assert_eq!(stats.underflow_count, 0);
    assert_eq!(stats.overflow_count, 0);

    // Drain via the shared state directly.
    let mut out = Vec::new();
    let drained = stream.shared_mut().drain_into(&mut out, 10);
    assert_eq!(drained, 10);
    assert_eq!(out, input);
}

#[test]
fn push_and_drain_stereo() {
    let mut stream = LiveAudioStream::new(StreamSettings {
        sample_rate: 100,
        channels: StreamChannels::Stereo,
        max_buffer_duration_ms: 1000,
        start_threshold_ms: 0,
        ..Default::default()
    });

    // 4 samples = 2 stereo frames.
    let input = vec![1.0, 2.0, 3.0, 4.0];
    stream.push_stereo_interleaved(&input);

    let stats = stream.stats();
    assert_eq!(stats.buffered_frames, 2);

    let mut out = Vec::new();
    stream.shared_mut().drain_into(&mut out, 4);
    assert_eq!(out, input);
}

#[test]
fn overflow_drops_oldest() {
    let mut stream = LiveAudioStream::new(StreamSettings {
        sample_rate: 10,
        channels: StreamChannels::Mono,
        max_buffer_duration_ms: 1000, // 10 samples max
        start_threshold_ms: 0,
        ..Default::default()
    });

    // Fill to capacity.
    let first: Vec<f32> = (0..10).map(|i| i as f32).collect();
    stream.push_mono(&first);
    assert_eq!(stream.stats().overflow_count, 0);

    // Push 3 more — should drop the 3 oldest.
    let second = vec![10.0, 11.0, 12.0];
    stream.push_mono(&second);
    assert!(stream.stats().overflow_count > 0);

    let mut out = Vec::new();
    stream.shared_mut().drain_into(&mut out, 20);
    // Should contain samples 3..=12 (oldest 3 dropped).
    assert_eq!(out.len(), 10);
    assert_eq!(*out.first().unwrap(), 3.0);
    assert_eq!(*out.last().unwrap(), 12.0);
}

#[test]
fn start_threshold_gates_playback() {
    let mut stream = LiveAudioStream::new(StreamSettings {
        sample_rate: 100,
        channels: StreamChannels::Mono,
        max_buffer_duration_ms: 1000,
        start_threshold_ms: 50, // 5 samples at 100 Hz
        ..Default::default()
    });

    // Push fewer than threshold.
    stream.push_mono(&[1.0, 2.0, 3.0]);
    assert!(!stream.shared().is_started());

    // Push past threshold.
    stream.push_mono(&[4.0, 5.0]);
    assert!(stream.shared().is_started());
}

#[test]
fn fill_buffers_produces_silence_on_underflow() {
    let mut stream = LiveAudioStream::new(StreamSettings {
        sample_rate: 48_000,
        channels: StreamChannels::Mono,
        max_buffer_duration_ms: 200,
        start_threshold_ms: 0,
        ..Default::default()
    });

    // Force started.
    stream.shared_mut().start_playback();

    let mut resource = StreamingSampleResource::new(stream.shared());
    let buf = vec![999.0_f32; 8];
    let mut bufs: Vec<Vec<f32>> = vec![buf];
    resource.fill_buffers(stream.shared_mut(), &mut bufs, 0..8, 0, 0.0);

    // All silence — nothing was pushed.
    assert!(bufs[0].iter().all(|&s| s == 0.0));
    assert!(stream.stats().underflow_count > 0);
}

#[test]
fn fill_buffers_reads_pushed_data() {
    let mut stream = LiveAudioStream::new(StreamSettings {
        sample_rate: 48_000,
        channels: StreamChannels::Mono,
        max_buffer_duration_ms: 200,
        start_threshold_ms: 0,
        ..Default::default()
    });

    stream.shared_mut().start_playback();

    let input: Vec<f32> = (0..8).map(|i| i as f32 * 0.1).collect();
    stream.push_mono(&input);

    let mut resource = StreamingSampleResource::new(stream.shared());
    let buf = vec![0.0_f32; 8];
    let mut bufs: Vec<Vec<f32>> = vec![buf];
    resource.fill_buffers(stream.shared_mut(), &mut bufs, 0..8, 0, 0.0);

    assert_eq!(bufs[0], input);
    assert_eq!(stream.stats().underflow_count, 0);
}

#[test]
fn fill_buffers_stereo() {
    let mut stream = LiveAudioStream::new(StreamSettings {
        sample_rate: 48_000,
        channels: StreamChannels::Stereo,
        max_buffer_duration_ms: 200,
        start_threshold_ms: 0,
        ..Default::default()
    });

    stream.shared_mut().start_playback();

    // 4 frames of stereo: [L0, R0, L1, R1, L2, R2, L3, R3]
    let input: Vec<f32> = (0..8).map(|i| i as f32).collect();
    stream.push_stereo_interleaved(&input);

    let mut resource = StreamingSampleResource::new(stream.shared());
    let buf_l = vec![0.0_f32; 4];
    let buf_r = vec![0.0_f32; 4];
    let mut bufs: Vec<Vec<f32>> = vec![buf_l, buf_r];
    resource.fill_buffers(stream.shared_mut(), &mut bufs, 0..4, 0, 0.0);

    assert_eq!(bufs[0], vec![0.0, 2.0, 4.0, 6.0]); // L channels
    assert_eq!(bufs[1], vec![1.0, 3.0, 5.0, 7.0]); // R channels
    assert_eq!(stream.stats().underflow_count, 0);
}

#[test]
fn as_sample_produces_valid_audio_sample() {
    let stream: LiveAudioStream<f32> = LiveAudioStream::new(StreamSettings::default());
    let sample = stream.as_sample();
    assert_eq!(sample.sample_rate().unwrap(), 48_000);
}

// ---------------------------------------------------------------------------
// Further cases
// ---------------------------------------------------------------------------

#[test]
fn default_settings() {
    let s = StreamSettings::default();
    assert_eq!(s.sample_rate, 48_000);
    assert_eq!(s.channels, StreamChannels::Mono);
    assert_eq!(s.max_buffer_duration_ms, 200);
    assert_eq!(s.start_threshold_ms, 40);
    assert_eq!(StreamChannels::Mono.count(), 1);
    assert_eq!(StreamChannels::Stereo.count(), 2);
}

#[test]
fn settings_are_kept() {
    let stream = stereo_stream(44_100, 150, 30);
    let s = stream.settings();
    assert_eq!(s.sample_rate, 44_100);
    assert_eq!(s.channels, StreamChannels::Stereo);
    assert_eq!(s.max_buffer_duration_ms, 150);
    assert_eq!(s.start_threshold_ms, 30);
}

#[test]
fn buffer_bound_follows_sample_rate_and_duration() {
    // 44100 Hz * 200 ms / 1000 = 8820 frames = 17640 stereo samples.
    let mut stream = stereo_stream(44_100, 200, 0);
    let input = vec![0.5_f32; 17_640];
    stream.push_stereo_interleaved(&input);
    assert_eq!(stream.stats().overflow_count, 0);
    assert_eq!(stream.stats().buffered_frames, 8_820);
    stream.push_stereo_interleaved(&[1.0, 2.0]);
    assert_eq!(stream.stats().overflow_count, 2);
    assert_eq!(stream.stats().buffered_frames, 8_820);
}

#[test]
fn bound_rounds_partial_milliseconds_down() {
    // 15 Hz * 100 ms / 1000 = 1.5 -> 1 sample.
    let mut stream = mono_stream(15, 100, 0);
    stream.push_mono(&[1.0]);
    assert_eq!(stream.stats().overflow_count, 0);
    stream.push_mono(&[2.0]);
    assert_eq!(stream.stats().overflow_count, 1);
    let mut out = Vec::new();
    stream.shared_mut().drain_into(&mut out, 10);
    assert_eq!(out, vec![2.0]);
}

#[test]
fn start_threshold_follows_sample_rate_and_duration() {
    // 48000 Hz * 40 ms / 1000 = 1920 samples.
    let mut stream: LiveAudioStream<f32> = LiveAudioStream::new(StreamSettings::default());
    stream.push_mono(&vec![0.0; 1_919]);
    assert!(!stream.shared().is_started());
    stream.push_mono(&[0.0]);
    assert!(stream.shared().is_started());
}

#[test]
fn stereo_threshold_counts_samples_of_both_channels() {
    // 100 Hz * 50 ms / 1000 = 5 frames = 10 samples.
    let mut stream = stereo_stream(100, 1000, 50);
    stream.push_stereo_interleaved(&[0.0; 8]);
    assert!(!stream.shared().is_started());
    stream.push_stereo_interleaved(&[0.0; 2]);
    assert!(stream.shared().is_started());
}

#[test]
fn start_latches_after_drain() {
    let mut stream = mono_stream(100, 1000, 30);
    stream.push_mono(&[1.0, 2.0, 3.0]);
    assert!(stream.shared().is_started());
    let mut out = Vec::new();
    stream.shared_mut().drain_into(&mut out, 3);
    assert_eq!(stream.stats().buffered_frames, 0);
    assert!(stream.shared().is_started());
    stream.push_mono(&[4.0]);
    assert!(stream.shared().is_started());
}

#[test]
fn zero_threshold_starts_on_empty_push() {
    let mut stream = mono_stream(100, 1000, 0);
    assert!(!stream.shared().is_started());
    stream.push_mono(&[]);
    assert!(stream.shared().is_started());
}

#[test]
fn stereo_overflow_drops_whole_frames() {
    // 5 Hz * 1000 ms = 5 frames = 10 samples.
    let mut stream = stereo_stream(5, 1000, 0);
    stream.push_stereo_interleaved(&[0.0, 1.0, 2.0, 3.0, 4.0, 5.0]);
    stream.push_stereo_interleaved(&[6.0, 7.0, 8.0, 9.0, 10.0, 11.0]);
    assert_eq!(stream.stats().overflow_count, 2);
    assert_eq!(stream.stats().buffered_frames, 5);
    let mut out = Vec::new();
    assert_eq!(stream.shared_mut().drain_into(&mut out, 100), 10);
    assert_eq!(out, vec![2.0, 3.0, 4.0, 5.0, 6.0, 7.0, 8.0, 9.0, 10.0, 11.0]);
}

#[test]
fn oversized_push_keeps_only_the_newest_samples() {
    let mut stream = mono_stream(10, 1000, 0);
    stream.push_mono(&[100.0, 101.0, 102.0, 103.0]);
    let input: Vec<f32> = (0..15).map(|i| i as f32).collect();
    stream.push_mono(&input);
    // The 4 buffered samples and the 5 oldest pushed ones are dropped: the
    // buffer never holds more than its 10-sample bound.
    assert_eq!(stream.stats().overflow_count, 9);
    assert_eq!(stream.stats().buffered_frames, 10);
    let mut out = Vec::new();
    stream.shared_mut().drain_into(&mut out, 100);
    assert_eq!(out, input[5..].to_vec());
}

#[test]
fn oversized_stereo_push_drops_whole_frames() {
    // 3 Hz * 1000 ms = 3 frames = 6 samples.
    let mut stream = stereo_stream(3, 1000, 0);
    let input: Vec<f32> = (0..10).map(|i| i as f32).collect();
    stream.push_stereo_interleaved(&input);
    assert_eq!(stream.stats().overflow_count, 4);
    assert_eq!(stream.stats().buffered_frames, 3);
    let mut out = Vec::new();
    stream.shared_mut().drain_into(&mut out, 100);
    assert_eq!(out, vec![4.0, 5.0, 6.0, 7.0, 8.0, 9.0]);
}

#[test]
fn forced_start_begins_playback() {
    let mut stream = mono_stream(100, 1000, 500);
    assert!(!stream.shared().is_started());
    stream.shared_mut().start_playback();
    assert!(stream.shared().is_started());
    assert_eq!(stream.stats().buffered_frames, 0);
}

#[test]
fn empty_fill_ignores_short_buffers() {
    let mut stream = mono_stream(100, 1000, 0);
    stream.push_mono(&[1.0]);
    let mut resource = stream.as_sample();
    let mut bufs: Vec<Vec<f32>> = vec![vec![]];
    resource.fill_buffers(stream.shared_mut(), &mut bufs, 4..4, 0, 0.0);
    assert!(bufs[0].is_empty());
    assert_eq!(stream.stats().buffered_frames, 1);
}

#[test]
fn overflow_count_accumulates() {
    let mut stream = mono_stream(4, 1000, 0);
    stream.push_mono(&[0.0, 1.0, 2.0, 3.0]);
    stream.push_mono(&[4.0, 5.0]);
    stream.push_mono(&[6.0]);
    assert_eq!(stream.stats().overflow_count, 3);
    let mut out = Vec::new();
    stream.shared_mut().drain_into(&mut out, 4);
    assert_eq!(out, vec![3.0, 4.0, 5.0, 6.0]);
}

#[test]
fn drain_is_limited_to_whole_frames() {
    let mut stream = stereo_stream(100, 1000, 0);
    stream.push_stereo_interleaved(&[1.0, 2.0, 3.0, 4.0, 5.0, 6.0]);
    let mut out = vec![9.0];
    assert_eq!(stream.shared_mut().drain_into(&mut out, 5), 4);
    assert_eq!(out, vec![9.0, 1.0, 2.0, 3.0, 4.0]);
    assert_eq!(stream.stats().buffered_frames, 1);
    assert_eq!(stream.shared_mut().drain_into(&mut out, 1), 0);
    assert_eq!(stream.shared_mut().drain_into(&mut out, 100), 2);
    assert_eq!(out, vec![9.0, 1.0, 2.0, 3.0, 4.0, 5.0, 6.0]);
    assert_eq!(stream.shared_mut().drain_into(&mut out, 100), 0);
}

#[test]
fn fill_before_start_is_silent_and_consumes_nothing() {
    let mut stream = mono_stream(100, 1000, 100);
    stream.push_mono(&[1.0, 2.0, 3.0]);
    assert!(!stream.shared().is_started());
    let mut resource = stream.as_sample();
    let mut bufs = vec![vec![7.0_f32; 4], vec![7.0_f32; 4]];
    resource.fill_buffers(stream.shared_mut(), &mut bufs, 1..3, 0, 0.0);
    assert_eq!(bufs[0], vec![7.0, 0.0, 0.0, 7.0]);
    // Buffers beyond the stream's channel count are left alone.
    assert_eq!(bufs[1], vec![7.0; 4]);
    assert_eq!(stream.stats().buffered_frames, 3);
    assert_eq!(stream.stats().underflow_count, 0);
}

#[test]
fn fill_partial_underflow_counts_missing_frames() {
    let mut stream = mono_stream(100, 1000, 0);
    stream.push_mono(&[1.0, 2.0, 3.0, 4.0, 5.0]);
    let mut resource = stream.as_sample();
    let mut bufs = vec![vec![9.0_f32; 10]];
    resource.fill_buffers(stream.shared_mut(), &mut bufs, 1..9, 0, 0.0);
    assert_eq!(bufs[0], vec![9.0, 1.0, 2.0, 3.0, 4.0, 5.0, 0.0, 0.0, 0.0, 9.0]);
    assert_eq!(stream.stats().underflow_count, 3);
    assert_eq!(stream.stats().buffered_frames, 0);
}

#[test]
fn fill_empty_range_does_nothing() {
    let mut stream = mono_stream(100, 1000, 0);
    stream.push_mono(&[1.0, 2.0]);
    let mut resource = stream.as_sample();
    let mut bufs = vec![vec![9.0_f32; 2]];
    resource.fill_buffers(stream.shared_mut(), &mut bufs, 1..1, 0, 0.0);
    assert_eq!(bufs[0], vec![9.0, 9.0]);
    assert_eq!(stream.stats().buffered_frames, 2);
    assert_eq!(stream.stats().underflow_count, 0);
}

#[test]
fn fill_continues_where_the_last_fill_stopped() {
    let mut stream = mono_stream(100, 1000, 0);
    stream.push_mono(&[1.0, 2.0, 3.0, 4.0, 5.0, 6.0]);
    let mut resource = stream.as_sample();
    let mut bufs = vec![vec![0.0_f32; 4]];
    resource.fill_buffers(stream.shared_mut(), &mut bufs, 0..4, 0, 0.0);
    assert_eq!(bufs[0], vec![1.0, 2.0, 3.0, 4.0]);
    stream.push_mono(&[7.0, 8.0]);
    resource.fill_buffers(stream.shared_mut(), &mut bufs, 0..4, 0, 0.0);
    assert_eq!(bufs[0], vec![5.0, 6.0, 7.0, 8.0]);
    assert_eq!(stream.stats().underflow_count, 0);
}

#[test]
fn stereo_fill_with_one_buffer_writes_left_channel_only() {
    let mut stream = stereo_stream(100, 1000, 0);
    stream.push_stereo_interleaved(&[1.0, 2.0, 3.0, 4.0]);
    let mut resource = stream.as_sample();
    let mut bufs = vec![vec![9.0_f32; 3]];
    resource.fill_buffers(stream.shared_mut(), &mut bufs, 0..3, 0, 0.0);
    assert_eq!(bufs[0], vec![1.0, 3.0, 0.0]);
    assert_eq!(stream.stats().underflow_count, 1);
}

#[test]
fn stereo_fill_underflow_silences_both_channels() {
    let mut stream = stereo_stream(100, 1000, 0);
    stream.push_stereo_interleaved(&[1.0, 2.0]);
    let mut resource = stream.as_sample();
    let mut bufs = vec![vec![9.0_f32; 3], vec![9.0_f32; 3], vec![9.0_f32; 3]];
    resource.fill_buffers(stream.shared_mut(), &mut bufs, 0..3, 0, -1.0);
    assert_eq!(bufs[0], vec![1.0, -1.0, -1.0]);
    assert_eq!(bufs[1], vec![2.0, -1.0, -1.0]);
    assert_eq!(bufs[2], vec![9.0; 3]);
    assert_eq!(stream.stats().underflow_count, 2);
}

#[test]
fn consumer_reports_stream_shape() {
    let stream: LiveAudioStream<i16> = LiveAudioStream::new(StreamSettings {
        sample_rate: 22_050,
        channels: StreamChannels::Stereo,
        max_buffer_duration_ms: 100,
        start_threshold_ms: 10,
    });
    let resource = stream.as_sample();
    assert_eq!(resource.num_channels(), 2);
    assert_eq!(resource.sample_rate(), Some(22_050));
    assert_eq!(resource.len_frames(), u64::MAX);
}

#[test]
fn integer_samples_round_trip() {
    let mut stream: LiveAudioStream<i16> = LiveAudioStream::new(StreamSettings {
        sample_rate: 1_000,
        channels: StreamChannels::Mono,
        max_buffer_duration_ms: 10,
        start_threshold_ms: 0,
    });
    stream.push_mono(&[-3, 7, 11]);
    let mut resource = stream.as_sample();
    let mut bufs = vec![vec![0_i16; 4]];
    resource.fill_buffers(stream.shared_mut(), &mut bufs, 0..4, 0, 0);
    assert_eq!(bufs[0], vec![-3, 7, 11, 0]);
    assert_eq!(stream.stats().underflow_count, 1);
}

#[test]
fn counters_accumulate_across_operations() {
    let mut stream = mono_stream(4, 1000, 0);
    let mut resource = stream.as_sample();
    let mut bufs = vec![vec![0.0_f32; 3]];
    stream.push_mono(&[1.0, 2.0, 3.0, 4.0, 5.0]);
    assert_eq!(stream.stats().overflow_count, 1);
    resource.fill_buffers(stream.shared_mut(), &mut bufs, 0..3, 0, 0.0);
    assert_eq!(stream.stats().underflow_count, 0);
    resource.fill_buffers(stream.shared_mut(), &mut bufs, 0..3, 0, 0.0);
    assert_eq!(bufs[0], vec![5.0, 0.0, 0.0]);
    assert_eq!(stream.stats().underflow_count, 2);
    let mut out = Vec::new();
    stream.shared_mut().drain_into(&mut out, 10);
    stream.push_mono(&[6.0, 7.0, 8.0, 9.0, 10.0, 11.0]);
    assert_eq!(stream.stats().overflow_count, 3);
    resource.fill_buffers(stream.shared_mut(), &mut bufs, 0..3, 0, 0.0);
    resource.fill_buffers(stream.shared_mut(), &mut bufs, 0..3, 0, 0.0);
    assert_eq!(bufs[0], vec![11.0, 0.0, 0.0]);
    assert_eq!(stream.stats().underflow_count, 4);
    assert_eq!(stream.stats().overflow_count, 3);
}

#[test]
fn settings_unchanged_after_operations() {
    let mut stream = stereo_stream(8_000, 250, 20);
    let mut resource = stream.as_sample();
    let mut bufs = vec![vec![0.0_f32; 16], vec![0.0_f32; 16]];
    stream.push_stereo_interleaved(&[0.5; 64]);
    resource.fill_buffers(stream.shared_mut(), &mut bufs, 0..16, 0, 0.0);
    let mut out = Vec::new();
    stream.shared_mut().drain_into(&mut out, 8);
    stream.shared_mut().start_playback();
    stream.push_stereo_interleaved(&[0.25; 6_000]);
    let s = stream.settings();
    assert_eq!(s.sample_rate, 8_000);
    assert_eq!(s.channels, StreamChannels::Stereo);
    assert_eq!(s.max_buffer_duration_ms, 250);
    assert_eq!(s.start_threshold_ms, 20);
    // The bound still follows the settings: 8000 Hz * 250 ms = 2000 frames.
    assert_eq!(stream.stats().buffered_frames, 2_000);
}
