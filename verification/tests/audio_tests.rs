use asset_cache::audio::{Audio, Source};
use asset_cache::errors::AudioError;

fn ready_audio() -> Audio {
    let mut audio = Audio::new();
    assert!(audio.needs_device());
    audio.ensure_initialized(true).unwrap();
    audio
}

#[test]
fn scenario_replacing_a_track_stops_the_old_handle() {
    let mut audio = ready_audio();

    // P4: the hand-off on an occupied slot releases the previous handle.
    let track_a = audio.play(Source::BGM, &vec![1, 2, 3], 80, 100).unwrap();
    let track_b = audio.play(Source::BGM, &vec![4, 5, 6], 80, 100).unwrap();

    assert!(audio.was_stopped(track_a));
    assert!(!audio.is_live(track_a));
    assert!(audio.is_live(track_b));
    assert!(!audio.was_stopped(track_b));
    let sink = audio.slot(Source::BGM).unwrap();
    assert_eq!(sink.handle, track_b);
    assert_eq!(sink.volume, 80);
    assert_eq!(sink.pitch, 100);
}

#[test]
fn ambient_categories_loop_and_transient_ones_do_not() {
    let mut audio = ready_audio();
    audio.play(Source::BGM, &vec![1], 100, 100).unwrap();
    audio.play(Source::BGS, &vec![1], 100, 100).unwrap();
    audio.play(Source::ME, &vec![1], 100, 100).unwrap();
    audio.play(Source::SE, &vec![1], 100, 100).unwrap();
    assert!(audio.slot(Source::BGM).unwrap().looping);
    assert!(audio.slot(Source::BGS).unwrap().looping);
    assert!(!audio.slot(Source::ME).unwrap().looping);
    assert!(!audio.slot(Source::SE).unwrap().looping);
}

#[test]
fn categories_are_independent() {
    let mut audio = ready_audio();
    let music = audio.play(Source::BGM, &vec![1], 100, 100).unwrap();
    let effect = audio.play(Source::SE, &vec![1], 100, 100).unwrap();
    assert_ne!(music, effect);
    audio.stop(Source::SE);
    assert!(audio.is_live(music));
    assert!(!audio.is_live(effect));
}

#[test]
fn playback_needs_the_device() {
    let mut audio = Audio::new();
    assert_eq!(
        audio.play(Source::BGM, &vec![1], 100, 100),
        Err(AudioError::BackendInit)
    );

    // A failed acquisition is fatal and keeps being reported.
    assert_eq!(audio.ensure_initialized(false), Err(AudioError::BackendInit));
    assert_eq!(
        audio.play(Source::BGM, &vec![1], 100, 100),
        Err(AudioError::BackendInit)
    );
    assert_eq!(audio.ensure_initialized(true), Err(AudioError::BackendInit));
}

#[test]
fn acquisition_is_idempotent() {
    let mut audio = ready_audio();
    assert!(audio.ensure_initialized(true).is_ok());
    assert!(audio.ensure_initialized(false).is_ok());
    assert!(!audio.needs_device());
}

#[test]
fn empty_stream_does_not_decode() {
    let mut audio = ready_audio();
    let track = audio.play(Source::BGM, &vec![1], 100, 100).unwrap();
    assert_eq!(
        audio.play(Source::BGM, &Vec::new(), 100, 100),
        Err(AudioError::Decode)
    );
    // The failed play left the occupant untouched.
    assert!(audio.is_live(track));
    assert!(!audio.was_stopped(track));
}

#[test]
fn volume_and_pitch_change_without_interrupting() {
    let mut audio = ready_audio();
    let track = audio.play(Source::BGS, &vec![1], 100, 100).unwrap();
    audio.set_volume(Source::BGS, 40);
    audio.set_pitch(Source::BGS, 150);
    let sink = audio.slot(Source::BGS).unwrap();
    assert_eq!(sink.handle, track);
    assert_eq!(sink.volume, 40);
    assert_eq!(sink.pitch, 150);
    assert!(audio.is_live(track));
}

#[test]
fn volume_and_pitch_on_an_empty_slot_do_nothing() {
    let mut audio = ready_audio();
    audio.set_volume(Source::ME, 40);
    audio.set_pitch(Source::ME, 150);
    assert!(audio.slot(Source::ME).is_none());
}

#[test]
fn stop_is_idempotent() {
    let mut audio = ready_audio();
    let track = audio.play(Source::SE, &vec![1], 100, 100).unwrap();
    audio.stop(Source::SE);
    assert!(audio.slot(Source::SE).is_none());
    assert!(audio.was_stopped(track));
    audio.stop(Source::SE);
    assert!(audio.slot(Source::SE).is_none());
}
