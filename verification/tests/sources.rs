use audio_engine::builtins::constant;
use audio_engine::builtins::cycle;
use audio_engine::builtins::sine;
use audio_engine::builtins::spatial_scene::SpatialScene;
use audio_engine::builtins::stream;
use audio_engine::output::negotiate_stream_config;
use audio_engine::output::int_sample_scale;
use audio_engine::output::BufferSize;
use audio_engine::output::SupportedBufferSize;
use audio_engine::output::SupportedStreamConfigRange;
use audio_engine::AudioSource;
use audio_engine::ToSignal;

#[test]
fn constant_signal_holds_its_frame() {
    let source = constant::Constant::new();
    let signal = source.to_signal(constant::Settings::new([7i32, -7i32]));
    assert_eq!(signal.frame, [7, -7]);
}

#[test]
fn cycle_signal_starts_at_the_head() {
    let source = cycle::Cycle::new();
    let signal = source.to_signal(cycle::Settings::new(vec![1i16, 2, 3]));
    assert_eq!(signal.frames, vec![1, 2, 3]);
    assert_eq!(signal.cursor, 0);
}

#[test]
fn sine_signal_takes_phase_and_frequency() {
    let signal = sine::Sine.to_signal(sine::Settings::new(1_571, 440_000));
    assert_eq!(signal.phase, 1_571);
    assert_eq!(signal.frequency_hz, 440_000);
}

#[test]
fn stream_signal_starts_empty() {
    let source = stream::Stream::<i32>::new();
    let signal = source.to_signal(stream::Settings::new(44_100, 1_024));
    assert_eq!(signal.rate, 44_100);
    assert_eq!(signal.capacity, 1_024);
    assert!(signal.buffer.is_empty());
}

#[test]
fn spatial_scene_signal_starts_empty() {
    let signal = SpatialScene.to_signal(());
    assert_eq!(signal.emitters, 0);
}

#[test]
fn audio_source_signal_copies_frames_from_offset() {
    let source = AudioSource { frames: vec![10i32, 20, 30], sample_rate: 48_000 };
    let signal = source.to_signal(1);
    assert_eq!(signal.frames, vec![10, 20, 30]);
    assert_eq!(signal.start, 1);
}

#[test]
fn negotiation_prefers_smallest_buffer_and_highest_rate() {
    let range = SupportedStreamConfigRange {
        channels: 2,
        min_sample_rate: 8_000,
        max_sample_rate: 48_000,
        buffer_size: SupportedBufferSize::Range { min: 64, max: 4_096 },
    };
    let config = negotiate_stream_config(&range);
    assert_eq!(config.channels, 2);
    assert_eq!(config.sample_rate, 48_000);
    assert_eq!(config.buffer_size, BufferSize::Fixed(64));
}

#[test]
fn negotiation_falls_back_to_device_default_buffer() {
    let range = SupportedStreamConfigRange {
        channels: 1,
        min_sample_rate: 44_100,
        max_sample_rate: 44_100,
        buffer_size: SupportedBufferSize::Unknown,
    };
    let config = negotiate_stream_config(&range);
    assert_eq!(config.channels, 1);
    assert_eq!(config.sample_rate, 44_100);
    assert_eq!(config.buffer_size, BufferSize::DeviceDefault);
}

#[test]
fn int_sample_scale_matches_bit_depths() {
    assert_eq!(int_sample_scale(8), 127);
    assert_eq!(int_sample_scale(16), 32_767);
    assert_eq!(int_sample_scale(24), 8_388_607);
    assert_eq!(int_sample_scale(32), 2_147_483_647);
}
