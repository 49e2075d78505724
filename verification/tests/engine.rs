use muek_engine::config::AudioConfig;
use muek_engine::engine::{AudioEngine, EngineError};
use muek_engine::timeline::{Clip, Track, TrackProto};
use muek_engine::timing::{BPM_SCALE, TICKS_PER_BEAT};

fn plain() -> AudioConfig {
    AudioConfig { sample_rate: 1, channels: 1, buffer_size: 16, bpm: 60 * BPM_SCALE }
}

fn studio() -> AudioConfig {
    AudioConfig { sample_rate: 44100, channels: 2, buffer_size: 512, bpm: 120 * BPM_SCALE }
}

fn beats(n: u64) -> u64 {
    n * TICKS_PER_BEAT
}

/// An engine with one clip of the samples 1..=8 at beat 0.
fn loaded() -> AudioEngine {
    let mut engine = AudioEngine::new(&plain());
    engine.store.put("a", (1..=8).collect());
    let mut track = Track::new(&TrackProto { track_id: 1 });
    track.clips.push(Clip { id: "a".to_string(), start_beat: 0, offset: 0, duration: beats(2) });
    engine.timeline.set_timeline(vec![track]);
    engine
}

#[test]
fn new_engine_is_stopped_at_zero() {
    let engine = AudioEngine::new(&studio());
    assert_eq!(engine.config, studio());
    assert!(!engine.state.is_playing);
    assert_eq!(engine.state.pos_idx, 0);
    assert!(engine.state.buffer.is_empty());
    assert!(engine.state.start_time.is_none());
    assert!(engine.state.seek_request.is_none());
    assert!(engine.timeline.tracks.is_empty());
    assert_eq!(engine.get_position_beat(), 0);
}

#[test]
fn play_renders_and_starts() {
    let mut engine = loaded();
    assert_eq!(engine.play(true), Ok(()));
    assert!(engine.state.is_playing);
    assert_eq!(engine.state.pos_idx, 0);
    assert!(engine.state.start_time.is_some());
    assert_eq!(engine.state.buffer, vec![1, 2, 3, 4, 5, 6, 7, 8]);
}

#[test]
fn play_without_device_fails_cleanly() {
    let mut engine = loaded();
    engine.seek(beats(1));
    assert_eq!(engine.play(false), Err(EngineError::DeviceUnavailable));
    assert!(!engine.state.is_playing);
    assert!(engine.state.buffer.is_empty());
    assert!(engine.state.start_time.is_none());
    assert_eq!(engine.state.pos_idx, 4);
    assert_eq!(engine.state.seek_request, Some(4));
}

#[test]
fn play_rerenders_after_an_edit() {
    let mut engine = loaded();
    assert_eq!(engine.play(true), Ok(()));
    assert_eq!(engine.timeline.move_clip(1, "a", beats(1)), Ok(()));
    assert_eq!(engine.state.buffer, vec![1, 2, 3, 4, 5, 6, 7, 8]);
    assert_eq!(engine.play(true), Ok(()));
    assert_eq!(engine.state.buffer, vec![0, 0, 0, 0, 1, 2, 3, 4, 5, 6, 7, 8]);
}

#[test]
fn render_installs_the_mix_only() {
    let mut engine = loaded();
    engine.seek(beats(1));
    engine.render();
    assert_eq!(engine.state.buffer, vec![1, 2, 3, 4, 5, 6, 7, 8]);
    assert!(!engine.state.is_playing);
    assert_eq!(engine.state.pos_idx, 4);
    assert_eq!(engine.state.seek_request, Some(4));
}

#[test]
fn stop_resets_position() {
    let mut engine = loaded();
    assert_eq!(engine.play(true), Ok(()));
    let mut block = [0i64; 5];
    engine.state.fill(&mut block);
    assert_eq!(engine.state.pos_idx, 5);
    assert!(engine.stop());
    assert!(!engine.state.is_playing);
    assert_eq!(engine.state.pos_idx, 0);
    assert_eq!(engine.get_position_beat(), 0);
    assert!(engine.state.start_time.is_none());
    assert_eq!(engine.state.buffer, vec![1, 2, 3, 4, 5, 6, 7, 8]);
}

#[test]
fn stop_says_whether_playback_was_active() {
    let mut engine = loaded();
    assert!(!engine.stop());
    assert_eq!(engine.play(true), Ok(()));
    assert!(engine.stop());
    assert!(!engine.stop());
}

#[test]
fn seek_then_position_while_stopped() {
    let mut engine = AudioEngine::new(&studio());
    engine.seek(beats(2));
    assert_eq!(engine.state.pos_idx, 352800);
    assert_eq!(engine.get_position_beat(), beats(2));
    assert!(!engine.state.is_playing);
    engine.seek(beats(7));
    assert_eq!(engine.get_position_beat(), beats(7));
    engine.seek(0);
    assert_eq!(engine.get_position_beat(), 0);
}

#[test]
fn seek_between_frames_rounds_down_within_tolerance() {
    let mut engine = AudioEngine::new(&studio());
    engine.seek(1000);
    assert_eq!(engine.state.pos_idx, 168);
    assert_eq!(engine.get_position_beat(), 999);
    engine.seek(23);
    assert_eq!(engine.state.pos_idx, 2);
    assert_eq!(engine.get_position_beat(), 12);
    engine.seek(11);
    assert_eq!(engine.state.pos_idx, 0);
    assert_eq!(engine.get_position_beat(), 0);
}

#[test]
fn stop_after_seek_returns_to_zero() {
    let mut engine = loaded();
    engine.seek(beats(1));
    assert!(!engine.stop());
    assert_eq!(engine.get_position_beat(), 0);
    assert!(engine.state.seek_request.is_none());
    assert_eq!(engine.play(true), Ok(()));
    assert_eq!(engine.state.pos_idx, 0);
}

#[test]
fn play_starts_at_requested_seek_position() {
    let mut engine = loaded();
    engine.seek(beats(1));
    assert_eq!(engine.play(true), Ok(()));
    assert_eq!(engine.state.pos_idx, 4);
    assert!(engine.state.seek_request.is_none());
    let mut block = [0i64; 3];
    engine.state.fill(&mut block);
    assert_eq!(block, [5, 6, 7]);
    // without a new request the next start is from 0
    assert_eq!(engine.play(true), Ok(()));
    assert_eq!(engine.state.pos_idx, 0);
}

#[test]
fn seek_while_playing_moves_the_playhead() {
    let mut engine = loaded();
    assert_eq!(engine.play(true), Ok(()));
    let mut block = [0i64; 2];
    engine.state.fill(&mut block);
    assert_eq!(block, [1, 2]);
    engine.seek(beats(1));
    assert!(engine.state.is_playing);
    engine.state.fill(&mut block);
    assert_eq!(block, [5, 6]);
}

#[test]
fn stopped_engine_fills_silence() {
    let mut engine = loaded();
    engine.render();
    let mut block = [9i64; 4];
    engine.state.fill(&mut block);
    assert_eq!(block, [0, 0, 0, 0]);
    assert_eq!(engine.state.pos_idx, 0);
}

#[test]
fn position_is_frozen_while_stopped() {
    let mut engine = loaded();
    engine.seek(beats(1));
    let mut block = [9i64; 4];
    engine.state.fill(&mut block);
    engine.state.fill(&mut block);
    assert_eq!(engine.get_position_beat(), beats(1));
}

#[test]
fn playhead_advances_by_block_length() {
    let mut engine = loaded();
    assert_eq!(engine.play(true), Ok(()));
    let mut expected: u64 = 0;
    for length in [1usize, 3, 0, 2, 7, 16, 1] {
        let mut block = vec![0i64; length];
        engine.state.fill(&mut block);
        expected += length as u64;
        assert_eq!(engine.state.pos_idx, expected);
    }
}

#[test]
fn blocks_follow_one_another_without_gap() {
    let mut engine = loaded();
    assert_eq!(engine.play(true), Ok(()));
    let mut first = [0i64; 3];
    let mut second = [0i64; 3];
    let mut third = [0i64; 4];
    engine.state.fill(&mut first);
    engine.state.fill(&mut second);
    engine.state.fill(&mut third);
    assert_eq!(first, [1, 2, 3]);
    assert_eq!(second, [4, 5, 6]);
    assert_eq!(third, [7, 8, 0, 0]);
    assert_eq!(engine.state.pos_idx, 10);
}

#[test]
fn past_the_end_is_silence() {
    let mut engine = loaded();
    engine.seek(beats(5));
    assert_eq!(engine.play(true), Ok(()));
    let mut block = [9i64; 4];
    engine.state.fill(&mut block);
    assert_eq!(block, [0, 0, 0, 0]);
    assert_eq!(engine.state.pos_idx, 24);
    assert!(engine.state.is_playing);
}

#[test]
fn empty_block_changes_nothing() {
    let mut engine = loaded();
    assert_eq!(engine.play(true), Ok(()));
    let mut block: [i64; 0] = [];
    engine.state.fill(&mut block);
    assert_eq!(engine.state.pos_idx, 0);
}

#[test]
fn playhead_wraps_at_the_end_of_its_range() {
    let mut engine = loaded();
    assert_eq!(engine.play(true), Ok(()));
    engine.state.pos_idx = u64::MAX - 1;
    let mut block = [9i64; 4];
    engine.state.fill(&mut block);
    assert_eq!(block, [0, 0, 1, 2]);
    assert_eq!(engine.state.pos_idx, 2);
}

#[test]
fn position_follows_the_playhead() {
    let mut engine = AudioEngine::new(&studio());
    assert_eq!(engine.play(true), Ok(()));
    let mut block = vec![0i64; 176400];
    engine.state.fill(&mut block);
    assert_eq!(engine.get_position_beat(), beats(1));
    engine.state.fill(&mut block);
    assert_eq!(engine.get_position_beat(), beats(2));
}
