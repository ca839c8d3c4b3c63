use audio_engine::builtins::sine::Settings;
use audio_engine::builtins::sine::Sine;
use audio_engine::output::play_queued_audio;
use audio_engine::output::AudioSinks;
use audio_engine::output::UNITY_GAIN;
use audio_engine::Assets;
use audio_engine::Audio;

fn engine() -> (Audio<Sine>, Assets<Sine>, AudioSinks<Sine>) {
    (Audio::new(), Assets::new(), AudioSinks::new())
}

#[test]
fn play_before_load_waits_for_first_tick_after_load() {
    let (mut audio, mut assets, mut sinks) = engine();
    let handle = assets.reserve();
    let sink_id = audio.play(handle, Settings::new(0, 440_000));
    // Source not yet loaded: the first drain pass services nothing.
    play_queued_audio(&mut audio, &assets, &mut sinks);
    assert_eq!(audio.queue_len(), 1);
    assert_eq!(sinks.len(), 0);
    assert!(sinks.get(sink_id).is_none());
    // The source arrives: the next pass starts the sound.
    assets.insert(handle, Sine);
    play_queued_audio(&mut audio, &assets, &mut sinks);
    assert_eq!(audio.queue_len(), 0);
    assert_eq!(sinks.len(), 1);
    let sink = sinks.get(sink_id).unwrap();
    assert!(!sink.playback.paused);
    assert!(!sink.playback.stopped);
    assert_eq!(sink.playback.position, 0);
    assert_eq!(sink.gain, UNITY_GAIN);
    assert_eq!(sink.signal.frequency_hz, 440_000);
}

#[test]
fn three_requests_start_in_submission_order() {
    let (mut audio, mut assets, mut sinks) = engine();
    let handle = assets.reserve();
    let r1 = audio.play(handle, Settings::new(0, 440_000));
    let r2 = audio.play(handle, Settings::new(0, 550_000));
    let r3 = audio.play(handle, Settings::new(0, 660_000));
    play_queued_audio(&mut audio, &assets, &mut sinks);
    assert_eq!(sinks.len(), 0);
    assets.insert(handle, Sine);
    play_queued_audio(&mut audio, &assets, &mut sinks);
    assert_eq!(audio.queue_len(), 0);
    assert_eq!(sinks.ids(), vec![r1, r2, r3]);
    assert_eq!(sinks.get(r1).unwrap().signal.frequency_hz, 440_000);
    assert_eq!(sinks.get(r2).unwrap().signal.frequency_hz, 550_000);
    assert_eq!(sinks.get(r3).unwrap().signal.frequency_hz, 660_000);
}

#[test]
fn requeued_requests_keep_order_behind_nothing() {
    let (mut audio, mut assets, mut sinks) = engine();
    let loaded = assets.add(Sine);
    let loading = assets.reserve();
    let r1 = audio.play(loading, Settings::new(0, 440_000));
    let r2 = audio.play(loaded, Settings::new(0, 550_000));
    let r3 = audio.play(loading, Settings::new(0, 660_000));
    // The stalled requests do not block the ready one behind them.
    play_queued_audio(&mut audio, &assets, &mut sinks);
    assert_eq!(sinks.ids(), vec![r2]);
    assert_eq!(audio.queue_len(), 2);
    // Once their source arrives, the stalled requests start in order.
    assets.insert(loading, Sine);
    play_queued_audio(&mut audio, &assets, &mut sinks);
    assert_eq!(sinks.ids(), vec![r2, r1, r3]);
}

#[test]
fn stop_then_any_control_is_a_noop() {
    let (mut audio, mut assets, mut sinks) = engine();
    let handle = assets.add(Sine);
    let sink_id = audio.play(handle, Settings::new(0, 440_000));
    play_queued_audio(&mut audio, &assets, &mut sinks);
    sinks.stop(sink_id);
    assert!(sinks.get(sink_id).unwrap().playback.stopped);
    // None of these panics, and none changes anything.
    sinks.pause(sink_id);
    sinks.resume(sink_id);
    sinks.stop(sink_id);
    sinks.set_gain(sink_id, 250);
    let sink = sinks.get(sink_id).unwrap();
    assert!(sink.playback.stopped);
    assert!(!sink.playback.paused);
    assert_eq!(sink.gain, UNITY_GAIN);
}

#[test]
fn control_on_unknown_sink_is_a_noop() {
    let (_, _, mut sinks) = engine();
    // A sink identifier the registry never learned of: silently ignored.
    sinks.pause(17);
    sinks.resume(17);
    sinks.stop(17);
    sinks.set_gain(17, 500);
    assert_eq!(sinks.len(), 0);
}

#[test]
fn pause_resume_keeps_position() {
    let (mut audio, mut assets, mut sinks) = engine();
    let handle = assets.add(Sine);
    let sink_id = audio.play(handle, Settings::new(0, 440_000));
    play_queued_audio(&mut audio, &assets, &mut sinks);
    sinks.advance(128);
    sinks.advance(128);
    assert_eq!(sinks.get(sink_id).unwrap().playback.position, 256);
    sinks.pause(sink_id);
    assert!(sinks.get(sink_id).unwrap().playback.paused);
    // A paused sink does not advance.
    sinks.advance(128);
    assert_eq!(sinks.get(sink_id).unwrap().playback.position, 256);
    sinks.resume(sink_id);
    let sink = sinks.get(sink_id).unwrap();
    assert!(!sink.playback.paused);
    assert_eq!(sink.playback.position, 256);
}

#[test]
fn set_gain_after_stop_affects_no_other_sink() {
    let (mut audio, mut assets, mut sinks) = engine();
    let handle = assets.add(Sine);
    let stopped_id = audio.play(handle, Settings::new(0, 440_000));
    let other_id = audio.play(handle, Settings::new(0, 550_000));
    play_queued_audio(&mut audio, &assets, &mut sinks);
    sinks.set_gain(other_id, 750);
    sinks.stop(stopped_id);
    // No error, no effect on the stopped sink, no effect on the other.
    sinks.set_gain(stopped_id, 10);
    assert_eq!(sinks.get(stopped_id).unwrap().gain, UNITY_GAIN);
    assert_eq!(sinks.get(other_id).unwrap().gain, 750);
}

#[test]
fn set_gain_changes_a_live_sink() {
    let (mut audio, mut assets, mut sinks) = engine();
    let handle = assets.add(Sine);
    let sink_id = audio.play(handle, Settings::new(0, 440_000));
    play_queued_audio(&mut audio, &assets, &mut sinks);
    sinks.set_gain(sink_id, 2_000);
    assert_eq!(sinks.get(sink_id).unwrap().gain, 2_000);
}

#[test]
fn assets_lookup_follows_loading() {
    let mut assets: Assets<Sine> = Assets::new();
    let loading = assets.reserve();
    assert!(assets.get(loading).is_none());
    let loaded = assets.add(Sine);
    assert_ne!(loading, loaded);
    assert!(assets.get(loaded).is_some());
    assets.insert(loading, Sine);
    assert!(assets.get(loading).is_some());
}

#[test]
fn default_registry_is_empty() {
    let sinks: AudioSinks<Sine> = Default::default();
    assert_eq!(sinks.len(), 0);
    assert!(sinks.ids().is_empty());
    let audio: Audio<Sine> = Default::default();
    assert_eq!(audio.queue_len(), 0);
}
