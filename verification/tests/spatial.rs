use audio_engine::builtins::sine::Settings;
use audio_engine::builtins::sine::Sine;
use audio_engine::math::derive_velocity;
use audio_engine::math::Quat;
use audio_engine::math::Vec3;
use audio_engine::output::spatial::play_queued_spatial_audio;
use audio_engine::output::spatial::play_queued_spatial_buffered_audio;
use audio_engine::output::spatial::SpatialAudioOutput;
use audio_engine::output::spatial::SpatialAudioSinks;
use audio_engine::output::spatial::SpatialBufferedAudioSinks;
use audio_engine::Assets;
use audio_engine::Audio;
use audio_engine::SpatialOptions;

fn options(position: Vec3) -> SpatialOptions {
    SpatialOptions { position, velocity: Vec3 { x: 0, y: 0, z: 0 }, radius: 500 }
}

#[test]
fn spatial_request_starts_with_its_options() {
    let mut audio: Audio<Sine> = Audio::new();
    let mut assets: Assets<Sine> = Assets::new();
    let mut sinks: SpatialAudioSinks<Sine> = SpatialAudioSinks::new();
    let handle = assets.add(Sine);
    let position = Vec3 { x: 3_000, y: 0, z: 0 };
    let sink_id = audio.play_spatial(handle, Settings::new(0, 440_000), options(position));
    play_queued_spatial_audio(&mut audio, &assets, &mut sinks);
    assert_eq!(audio.queue_len(), 0);
    assert_eq!(sinks.ids(), vec![sink_id]);
    let sink = sinks.get(sink_id).unwrap();
    assert_eq!(sink.motion.position, position);
    assert_eq!(sink.motion.velocity, Vec3 { x: 0, y: 0, z: 0 });
    assert_eq!(sink.radius, 500);
    assert_eq!(sink.signal.frequency_hz, 440_000);
}

#[test]
fn motion_update_from_finite_difference() {
    let mut audio: Audio<Sine> = Audio::new();
    let mut assets: Assets<Sine> = Assets::new();
    let mut sinks: SpatialAudioSinks<Sine> = SpatialAudioSinks::new();
    let handle = assets.add(Sine);
    let first = Vec3 { x: 3_000, y: 0, z: 0 };
    let sink_id = audio.play_spatial(handle, Settings::new(0, 440_000), options(first));
    play_queued_spatial_audio(&mut audio, &assets, &mut sinks);
    // One tick later (0.1 s) the emitter is at (2, 0, 0): the derived
    // velocity is (-10, 0, 0) units per second.
    let second = Vec3 { x: 2_000, y: 0, z: 0 };
    let velocity = derive_velocity(first, second, 100);
    assert_eq!(velocity, Vec3 { x: -10_000, y: 0, z: 0 });
    sinks.set_motion(sink_id, second, velocity);
    let sink = sinks.get(sink_id).unwrap();
    assert_eq!(sink.motion.position, second);
    assert_eq!(sink.motion.velocity, Vec3 { x: -10_000, y: 0, z: 0 });
}

#[test]
fn derive_velocity_rounds_toward_zero() {
    let a = Vec3 { x: 0, y: 0, z: 0 };
    let b = Vec3 { x: 1, y: -1, z: 0 };
    let velocity = derive_velocity(a, b, 3);
    assert_eq!(velocity, Vec3 { x: 333, y: -333, z: 0 });
}

#[test]
fn spatial_control_after_stop_is_a_noop() {
    let mut audio: Audio<Sine> = Audio::new();
    let mut assets: Assets<Sine> = Assets::new();
    let mut sinks: SpatialAudioSinks<Sine> = SpatialAudioSinks::new();
    let handle = assets.add(Sine);
    let position = Vec3 { x: 1_000, y: 2_000, z: 3_000 };
    let sink_id = audio.play_spatial(handle, Settings::new(0, 440_000), options(position));
    play_queued_spatial_audio(&mut audio, &assets, &mut sinks);
    sinks.stop(sink_id);
    sinks.pause(sink_id);
    sinks.resume(sink_id);
    sinks.set_motion(sink_id, Vec3 { x: 9, y: 9, z: 9 }, Vec3 { x: 1, y: 1, z: 1 });
    let sink = sinks.get(sink_id).unwrap();
    assert!(sink.playback.stopped);
    assert!(!sink.playback.paused);
    assert_eq!(sink.motion.position, position);
}

#[test]
fn buffered_request_keeps_lookahead_parameters() {
    let mut audio: Audio<Sine> = Audio::new();
    let mut assets: Assets<Sine> = Assets::new();
    let mut sinks: SpatialBufferedAudioSinks<Sine> = SpatialBufferedAudioSinks::new();
    let handle = assets.add(Sine);
    let position = Vec3 { x: 0, y: 400, z: 0 };
    let sink_id = audio.play_spatial_buffered(
        handle,
        Settings::new(0, 440_000),
        options(position),
        250_000,
        44_100,
        100,
    );
    play_queued_spatial_buffered_audio(&mut audio, &assets, &mut sinks);
    assert_eq!(sinks.ids(), vec![sink_id]);
    let sink = sinks.get(sink_id).unwrap();
    assert_eq!(sink.motion.position, position);
    assert_eq!(sink.buffered.max_distance, 250_000);
    assert_eq!(sink.buffered.rate, 44_100);
    assert_eq!(sink.buffered.buffer_duration, 100);
}

#[test]
fn buffered_drain_leaves_on_demand_requests_pending() {
    let mut audio: Audio<Sine> = Audio::new();
    let mut assets: Assets<Sine> = Assets::new();
    let mut sinks: SpatialAudioSinks<Sine> = SpatialAudioSinks::new();
    let mut buffered_sinks: SpatialBufferedAudioSinks<Sine> = SpatialBufferedAudioSinks::new();
    let handle = assets.add(Sine);
    let sink_id =
        audio.play_spatial(handle, Settings::new(0, 440_000), options(Vec3 { x: 0, y: 0, z: 0 }));
    // A ready on-demand request is not the buffered drain's to start: it
    // stays pending, and the on-demand drain starts it on its own pass.
    play_queued_spatial_buffered_audio(&mut audio, &assets, &mut buffered_sinks);
    assert_eq!(audio.queue_len(), 1);
    assert_eq!(buffered_sinks.len(), 0);
    play_queued_spatial_audio(&mut audio, &assets, &mut sinks);
    assert_eq!(audio.queue_len(), 0);
    assert_eq!(sinks.ids(), vec![sink_id]);
}

#[test]
fn drains_sharing_one_queue_route_by_kind() {
    let mut audio: Audio<Sine> = Audio::new();
    let mut assets: Assets<Sine> = Assets::new();
    let mut plain_sinks = audio_engine::output::AudioSinks::<Sine>::new();
    let mut spatial_sinks: SpatialAudioSinks<Sine> = SpatialAudioSinks::new();
    let handle = assets.add(Sine);
    let plain_id = audio.play(handle, Settings::new(0, 440_000));
    let spatial_id =
        audio.play_spatial(handle, Settings::new(0, 550_000), options(Vec3 { x: 0, y: 0, z: 0 }));
    // The mixed drain starts only the mixed request; the spatial one stays
    // pending and is started by the spatial drain. Nothing is lost.
    audio_engine::output::play_queued_audio(&mut audio, &assets, &mut plain_sinks);
    assert_eq!(plain_sinks.ids(), vec![plain_id]);
    assert_eq!(audio.queue_len(), 1);
    play_queued_spatial_audio(&mut audio, &assets, &mut spatial_sinks);
    assert_eq!(spatial_sinks.ids(), vec![spatial_id]);
    assert_eq!(audio.queue_len(), 0);
}

#[test]
fn spatial_pause_resume_keeps_position() {
    let mut audio: Audio<Sine> = Audio::new();
    let mut assets: Assets<Sine> = Assets::new();
    let mut sinks: SpatialAudioSinks<Sine> = SpatialAudioSinks::new();
    let handle = assets.add(Sine);
    let sink_id = audio.play_spatial(
        handle,
        Settings::new(0, 440_000),
        options(Vec3 { x: 0, y: 0, z: 0 }),
    );
    play_queued_spatial_audio(&mut audio, &assets, &mut sinks);
    sinks.advance(512);
    sinks.pause(sink_id);
    sinks.advance(512);
    sinks.resume(sink_id);
    let sink = sinks.get(sink_id).unwrap();
    assert!(!sink.playback.paused);
    assert_eq!(sink.playback.position, 512);
}

#[test]
fn listener_rotation_is_shared_state() {
    let mut output = SpatialAudioOutput::default();
    assert_eq!(output.listener_rotation, Quat { x: 0, y: 0, z: 0, w: 1000 });
    let tilted = Quat { x: 0, y: 707, z: 0, w: 707 };
    output.set_listener_rotation(tilted);
    assert_eq!(output.listener_rotation, tilted);
}
