use muek_engine::config::AudioConfig;
use muek_engine::render::{
    mix, mix_len, render, render_clip, render_timeline, RenderedClip, MAX_CLIPS,
};
use muek_engine::store::ClipStore;
use muek_engine::timeline::{Clip, Track, TrackProto};
use muek_engine::timing::{beat_to_sample_idx, BPM_SCALE, TICKS_PER_BEAT};

/// One sample per beat: 60 bpm, 1 frame per second, 1 channel, so that a
/// position of `n` beats is the sample index `4 * n`.
fn plain() -> AudioConfig {
    AudioConfig { sample_rate: 1, channels: 1, buffer_size: 16, bpm: 60 * BPM_SCALE }
}

fn studio() -> AudioConfig {
    AudioConfig { sample_rate: 44100, channels: 2, buffer_size: 512, bpm: 120 * BPM_SCALE }
}

fn beats(n: u64) -> u64 {
    n * TICKS_PER_BEAT
}

fn half_beats(n: u64) -> u64 {
    n * TICKS_PER_BEAT / 2
}

fn clip(id: &str, start_beat: u64, offset: u64, duration: u64) -> Clip {
    Clip { id: id.to_string(), start_beat, offset, duration }
}

fn track(id: i32, clips: Vec<Clip>) -> Track {
    let mut track = Track::new(&TrackProto { track_id: id });
    track.clips = clips;
    track
}

fn placed(start: u64, end: u64, samples: Vec<i32>) -> RenderedClip {
    RenderedClip { start_sample_idx: start, end_sample_idx: end, samples }
}

#[test]
fn config_converts_with_subdivision_four() {
    assert_eq!(plain().sample_idx(beats(1)), 4);
    assert_eq!(plain().sample_idx(half_beats(1)), 2);
    assert_eq!(plain().beat_at(4), beats(1));
    assert_eq!(studio().sample_idx(beats(2)), 352800);
    assert_eq!(studio().beat_at(352800), beats(2));
}

#[test]
fn mix_of_nothing_is_empty() {
    assert_eq!(mix_len(&vec![]), 0);
    assert_eq!(mix(&vec![]), Vec::<i64>::new());
}

#[test]
fn mix_length_is_highest_end() {
    let clips = vec![placed(0, 4, vec![1; 4]), placed(2, 10, vec![1; 8]), placed(1, 3, vec![])];
    assert_eq!(mix_len(&clips), 10);
    assert_eq!(mix(&clips).len(), 10);
}

#[test]
fn single_clip_is_copied_at_its_start() {
    let clips = vec![placed(2, 6, vec![5, -6, 7, -8])];
    assert_eq!(mix(&clips), vec![0, 0, 5, -6, 7, -8]);
}

#[test]
fn additive_mixing_of_constant_clips() {
    let a: i32 = 1000;
    let b: i32 = -250;
    let clips = vec![placed(0, 6, vec![a; 6]), placed(4, 10, vec![b; 6])];
    let buffer = mix(&clips);
    assert_eq!(buffer.len(), 10);
    for j in 0..4 {
        assert_eq!(buffer[j], a as i64);
    }
    for j in 4..6 {
        assert_eq!(buffer[j], a as i64 + b as i64);
    }
    for j in 6..10 {
        assert_eq!(buffer[j], b as i64);
    }
}

#[test]
fn mix_does_not_clip() {
    let clips = vec![
        placed(0, 2, vec![i32::MAX, i32::MIN]),
        placed(0, 2, vec![i32::MAX, i32::MIN]),
        placed(0, 2, vec![i32::MAX, i32::MIN]),
    ];
    assert_eq!(mix(&clips), vec![3 * i32::MAX as i64, 3 * i32::MIN as i64]);
}

#[test]
fn mix_does_not_depend_on_order() {
    let one = vec![placed(0, 4, vec![1, 2, 3, 4]), placed(2, 6, vec![10, 20, 30, 40])];
    let other = vec![placed(2, 6, vec![10, 20, 30, 40]), placed(0, 4, vec![1, 2, 3, 4])];
    assert_eq!(mix(&one), vec![1, 2, 13, 24, 30, 40]);
    assert_eq!(mix(&one), mix(&other));
}

#[test]
fn samples_past_the_end_are_dropped() {
    let clips = vec![placed(2, 4, vec![1, 2, 3, 4, 5])];
    assert_eq!(mix(&clips), vec![0, 0, 1, 2]);
    let beyond = vec![placed(0, 3, vec![]), placed(7, 2, vec![9, 9])];
    assert_eq!(mix(&beyond), vec![0, 0, 0]);
}

#[test]
fn region_longer_than_samples_is_padded_with_silence() {
    let clips = vec![placed(1, 6, vec![4, 4])];
    assert_eq!(mix(&clips), vec![0, 4, 4, 0, 0, 0]);
}

#[test]
fn max_clips_fits_the_mix_sample() {
    assert_eq!(MAX_CLIPS as u64, u32::MAX as u64);
    assert!((MAX_CLIPS as i128) * (i32::MIN as i128) >= i64::MIN as i128);
    assert!((MAX_CLIPS as i128) * (i32::MAX as i128) <= i64::MAX as i128);
}

#[test]
fn render_clip_places_and_cuts() {
    let stored: Vec<i32> = (1..=20).collect();
    // start at beat 1 (index 4), read from half a beat (index 2), for 2 beats (8 samples)
    let rendered = render_clip(&clip("a", beats(1), half_beats(1), beats(2)), &stored, &plain());
    assert_eq!(rendered.start_sample_idx, 4);
    assert_eq!(rendered.end_sample_idx, 12);
    assert_eq!(rendered.samples, vec![3, 4, 5, 6, 7, 8, 9, 10]);
}

#[test]
fn clamped_duration() {
    let stored: Vec<i32> = vec![1, 2, 3, 4, 5, 6];
    // offset index 2, duration 8 samples: only 4 are stored past the offset
    let rendered = render_clip(&clip("a", 0, half_beats(1), beats(2)), &stored, &plain());
    assert_eq!(rendered.start_sample_idx, 0);
    assert_eq!(rendered.end_sample_idx, 8);
    assert_eq!(rendered.samples, vec![3, 4, 5, 6]);
}

#[test]
fn clamped_offset() {
    let stored: Vec<i32> = vec![1, 2, 3, 4, 5, 6];
    // offset index 8 lies past the 6 stored samples
    let rendered = render_clip(&clip("a", beats(1), beats(2), beats(1)), &stored, &plain());
    assert_eq!(rendered.start_sample_idx, 4);
    assert_eq!(rendered.end_sample_idx, 8);
    assert!(rendered.samples.is_empty());
    // offset exactly at the end
    let at_end = render_clip(&clip("a", 0, half_beats(3), beats(1)), &stored, &plain());
    assert!(at_end.samples.is_empty());
    assert_eq!(at_end.end_sample_idx, 4);
}

#[test]
fn clamped_clip_renders_available_samples() {
    let mut store = ClipStore::new();
    store.put("a", vec![1, 2, 3, 4, 5, 6]);
    let tracks = vec![track(1, vec![clip("a", beats(1), half_beats(2), beats(3))])];
    // start 4, offset 4, duration 12: samples 5, 6 are all there is
    assert_eq!(render(&tracks, &store, &plain()), vec![0, 0, 0, 0, 5, 6, 0, 0, 0, 0, 0, 0, 0, 0, 0, 0]);
}

#[test]
fn zero_duration_clip() {
    let stored: Vec<i32> = vec![1, 2, 3, 4];
    let rendered = render_clip(&clip("a", beats(2), 0, 0), &stored, &plain());
    assert_eq!(rendered.start_sample_idx, 8);
    assert_eq!(rendered.end_sample_idx, 8);
    assert!(rendered.samples.is_empty());
}

#[test]
fn far_clip_saturates_its_end() {
    let far = AudioConfig { sample_rate: u32::MAX, channels: 255, buffer_size: 0, bpm: 1 };
    let rendered = render_clip(&clip("a", u64::MAX, 0, u64::MAX), &vec![1, 2], &far);
    assert_eq!(rendered.start_sample_idx, u64::MAX - 1);
    assert_eq!(rendered.end_sample_idx, u64::MAX);
    assert_eq!(rendered.samples, vec![1, 2]);
}

#[test]
fn silence_for_missing_clip() {
    let store = ClipStore::new();
    let tracks = vec![track(1, vec![clip("ghost", beats(1), 0, beats(2))])];
    let rendered = render_timeline(&tracks, &store, &plain());
    assert_eq!(rendered.len(), 1);
    assert_eq!(rendered[0].start_sample_idx, 4);
    assert_eq!(rendered[0].end_sample_idx, 12);
    assert!(rendered[0].samples.is_empty());
    assert_eq!(render(&tracks, &store, &plain()), vec![0i64; 12]);
}

#[test]
fn missing_clip_beside_a_stored_one() {
    let mut store = ClipStore::new();
    store.put("a", vec![7, 7, 7, 7]);
    let tracks = vec![
        track(1, vec![clip("ghost", 0, 0, beats(2))]),
        track(2, vec![clip("a", half_beats(1), 0, beats(1))]),
    ];
    assert_eq!(render(&tracks, &store, &plain()), vec![0, 0, 7, 7, 7, 7, 0, 0]);
}

#[test]
fn render_keeps_timeline_order() {
    let mut store = ClipStore::new();
    store.put("a", vec![1, 1]);
    store.put("b", vec![2, 2]);
    store.put("c", vec![3, 3]);
    let tracks = vec![
        track(1, vec![clip("b", beats(1), 0, half_beats(1)), clip("a", 0, 0, half_beats(1))]),
        track(2, vec![]),
        track(3, vec![clip("c", half_beats(1), 0, half_beats(1))]),
    ];
    let rendered = render_timeline(&tracks, &store, &plain());
    assert_eq!(rendered.len(), 3);
    assert_eq!((rendered[0].start_sample_idx, rendered[0].samples.clone()), (4, vec![2, 2]));
    assert_eq!((rendered[1].start_sample_idx, rendered[1].samples.clone()), (0, vec![1, 1]));
    assert_eq!((rendered[2].start_sample_idx, rendered[2].samples.clone()), (2, vec![3, 3]));
    assert_eq!(render(&tracks, &store, &plain()), vec![1, 1, 3, 3, 2, 2]);
}

#[test]
fn render_of_empty_timeline() {
    let store = ClipStore::new();
    assert!(render(&vec![], &store, &plain()).is_empty());
    assert!(render(&vec![track(1, vec![])], &store, &plain()).is_empty());
}

#[test]
fn overlapping_clips_across_tracks_add() {
    let mut store = ClipStore::new();
    store.put("a", vec![100; 8]);
    store.put("b", vec![-30; 8]);
    let tracks = vec![
        track(1, vec![clip("a", 0, 0, beats(2))]),
        track(2, vec![clip("b", beats(1), 0, beats(2))]),
    ];
    assert_eq!(
        render(&tracks, &store, &plain()),
        vec![100, 100, 100, 100, 70, 70, 70, 70, -30, -30, -30, -30]
    );
}

#[test]
fn later_put_is_used_by_later_render() {
    let mut store = ClipStore::new();
    let tracks = vec![track(1, vec![clip("a", 0, 0, half_beats(1))])];
    assert_eq!(render(&tracks, &store, &plain()), vec![0, 0]);
    store.put("a", vec![5, 6, 7]);
    assert_eq!(render(&tracks, &store, &plain()), vec![5, 6]);
    store.put("a", vec![9]);
    assert_eq!(render(&tracks, &store, &plain()), vec![9, 0]);
}

#[test]
fn two_beats_of_stereo_at_120_bpm() {
    let length = beat_to_sample_idx(beats(2), 120 * BPM_SCALE, 44100, 4, 2);
    assert_eq!(length, 352800);
    let mut store = ClipStore::new();
    store.put("take", vec![1; length as usize]);
    let tracks = vec![track(1, vec![clip("take", 0, 0, beats(2))])];
    let buffer = render(&tracks, &store, &studio());
    assert_eq!(buffer.len() as u64, length);
    assert!(buffer.iter().all(|sample| *sample == 1));
}

#[test]
fn four_stereo_frames_in_a_two_beat_region() {
    let mut store = ClipStore::new();
    store.put("take", vec![11, 12, 21, 22, 31, 32, 41, 42]);
    let tracks = vec![track(1, vec![clip("take", 0, 0, beats(2))])];
    let buffer = render(&tracks, &store, &studio());
    assert_eq!(buffer.len(), 352800);
    assert_eq!(&buffer[..8], &[11, 12, 21, 22, 31, 32, 41, 42]);
    assert!(buffer[8..].iter().all(|sample| *sample == 0));
}
