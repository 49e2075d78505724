//! The playback engine: the transport, the mix buffer it plays, and the
//! block that it hands to the output on each period.
use crate::config::AudioConfig;
use crate::render::{
    can_render, is_mix_of, render, rendered_timeline, renderable, timeline_length, MixSample,
    Sample,
};
use crate::store::ClipStore;
use crate::timeline::{Timeline, TrackView};
use crate::timing::{
    in_sample_range, lemma_position_of_zero, lemma_timing_round_trip,
    lemma_timing_round_trip_exact, on_frame_boundary,
    sample_factor, tick_factor, SUBDIVISION,
};
use std::time::Instant;
use vstd::prelude::*;

verus! {

/// `std::time::Instant`: a reading of the clock, carried through as it is.
/// Nothing is known of what it holds.
#[verifier::external_type_specification]
#[verifier::external_body]
pub struct ExInstant(Instant);

/// Reads the clock by `std::time::Instant::now`. Nothing is claimed of the
/// instant that comes back.
#[verifier::external_body]
fn now() -> Instant {
    Instant::now()
}

/// Why a transport command failed. A failed command changes nothing.
#[derive(Clone, Copy, Debug, PartialEq, Eq, Structural)]
pub enum EngineError {
    /// There is no output device to play to.
    DeviceUnavailable,
}

/// The state that the transport and the output callback share.
pub struct EngineState {
    /// The playhead: the index in `buffer` of the next sample to play.
    pub pos_idx: u64,
    /// The mix buffer being played.
    pub buffer: Vec<MixSample>,
    /// When playback started, while it is active.
    pub start_time: Option<Instant>,
    /// Whether playback is active.
    pub is_playing: bool,
    /// The sample index of a seek requested since playback last started or
    /// stopped.
    pub seek_request: Option<u64>,
}

/// The number of values of a playhead: it wraps around at this index.
pub open spec fn playhead_turn() -> int {
    0x1_0000_0000_0000_0000
}

/// The sample that the output gets `k` samples after the playhead `pos`:
/// the mix at that index, silence where playback is stopped or the index
/// lies past the end of the mix.
pub open spec fn output_sample(buffer: Seq<MixSample>, playing: bool, pos: u64, k: int)
    -> MixSample {
    let idx = (pos + k) % playhead_turn();
    if playing && idx < buffer.len() {
        buffer[idx]
    } else {
        0
    }
}

/// Blocks follow one another without a gap: the sample `k` places into the
/// block that follows a block of `n` samples is the sample `n + k` places
/// after the playhead at which the first block began.
pub proof fn lemma_blocks_are_contiguous(buffer: Seq<MixSample>, pos: u64, n: int, k: int)
    requires
        0 <= n,
        0 <= k,
    ensures
        output_sample(buffer, true, ((pos + n) % playhead_turn()) as u64, k) == output_sample(
            buffer,
            true,
            pos,
            n + k,
        ),
{
    let turn = playhead_turn();
    let next = (pos + n) % turn;
    vstd::arithmetic::div_mod::lemma_add_mod_noop(pos + n, k, turn);
    vstd::arithmetic::div_mod::lemma_mod_twice(pos + n, turn);
    vstd::arithmetic::div_mod::lemma_add_mod_noop(next, k, turn);
}

impl EngineState {
    /// Fills one output block. While playing, each sample of the block is
    /// read from the mix buffer at the playhead, which then advances by one;
    /// past the end of the mix the block gets silence. While stopped, the
    /// block is silence and the playhead stays. Nothing else changes, and
    /// nothing is allocated.
    pub fn fill(&mut self, output: &mut [MixSample])
        ensures
            final(output)@.len() == old(output)@.len(),
            forall|k: int|
                0 <= k < old(output)@.len() ==> final(output)@[k] == output_sample(
                    old(self).buffer@,
                    old(self).is_playing,
                    old(self).pos_idx,
                    k,
                ),
            final(self).pos_idx == if old(self).is_playing {
                (old(self).pos_idx + old(output)@.len()) % playhead_turn()
            } else {
                old(self).pos_idx as int
            },
            old(self).is_playing && old(self).pos_idx + old(output)@.len() <= u64::MAX
                ==> final(self).pos_idx == old(self).pos_idx + old(output)@.len(),
            final(self).buffer == old(self).buffer,
            final(self).start_time == old(self).start_time,
            final(self).is_playing == old(self).is_playing,
            final(self).seek_request == old(self).seek_request,
    {
        let n: usize = output.len();
        let ghost start = self.pos_idx;
        let mut k: usize = 0;
        while k < n
            invariant
                k <= n,
                output@.len() == n,
                self.buffer == old(self).buffer,
                self.start_time == old(self).start_time,
                self.is_playing == old(self).is_playing,
                self.seek_request == old(self).seek_request,
                start == old(self).pos_idx,
                self.pos_idx == if self.is_playing {
                    (start + k) % playhead_turn()
                } else {
                    start as int
                },
                forall|i: int|
                    0 <= i < k ==> output@[i] == output_sample(
                        self.buffer@,
                        self.is_playing,
                        start,
                        i,
                    ),
            decreases n - k,
        {
            if self.is_playing {
                let idx: u64 = self.pos_idx;
                let sample: MixSample = if idx < self.buffer.len() as u64 {
                    self.buffer[idx as usize]
                } else {
                    0
                };
                output[k] = sample;
                self.pos_idx = if idx == u64::MAX {
                    0
                } else {
                    idx + 1
                };
            } else {
                output[k] = 0;
            }
            k = k + 1;
        }
    }
}

/// The engine: its configuration, the timeline and the clip store that it
/// renders, and the transport state.
pub struct AudioEngine {
    pub config: AudioConfig,
    pub state: EngineState,
    pub timeline: Timeline,
    pub store: ClipStore,
}

impl AudioEngine {
    /// The position of the playhead, in ticks.
    pub open spec fn position(&self) -> int {
        self.config.spec_beat_at(self.state.pos_idx)
    }

    /// Whether the engine's timeline can be rendered.
    pub open spec fn renderable(&self) -> bool {
        renderable(self.timeline@, self.config)
    }

    /// Says whether the engine's timeline can be rendered, and so whether
    /// playback can start.
    pub fn can_render(&self) -> (ok: bool)
        ensures
            ok == self.renderable(),
    {
        can_render(&self.timeline.tracks, &self.config)
    }

    /// A stopped engine with the playhead at 0, an empty mix buffer, an
    /// empty timeline and an empty store.
    pub fn new(config: &AudioConfig) -> (engine: AudioEngine)
        ensures
            engine.config == *config,
            engine.state.pos_idx == 0,
            engine.state.buffer@.len() == 0,
            engine.state.start_time is None,
            !engine.state.is_playing,
            engine.state.seek_request is None,
            engine.timeline@ == Seq::<TrackView>::empty(),
            engine.store@ == Map::<Seq<char>, Seq<Sample>>::empty(),
    {
        AudioEngine {
            config: *config,
            state: EngineState {
                pos_idx: 0,
                buffer: Vec::new(),
                start_time: None,
                is_playing: false,
                seek_request: None,
            },
            timeline: Timeline::new(),
            store: ClipStore::new(),
        }
    }

    /// Renders the timeline and installs the result as the mix buffer.
    /// Nothing else changes.
    pub fn render(&mut self)
        requires
            old(self).renderable(),
        ensures
            is_mix_of(
                final(self).state.buffer@,
                rendered_timeline(old(self).timeline@, old(self).store@, old(self).config),
            ),
            final(self).state.buffer@.len() == timeline_length(
                old(self).timeline@,
                old(self).config,
            ),
            final(self).state.pos_idx == old(self).state.pos_idx,
            final(self).state.start_time == old(self).state.start_time,
            final(self).state.is_playing == old(self).state.is_playing,
            final(self).state.seek_request == old(self).state.seek_request,
            final(self).config == old(self).config,
            final(self).timeline == old(self).timeline,
            final(self).store == old(self).store,
    {
        let buffer = render(&self.timeline.tracks, &self.store, &self.config);
        self.state.buffer = buffer;
    }

    /// Starts playback. Without an output device the command fails with
    /// `DeviceUnavailable` and changes nothing. Otherwise the timeline is
    /// rendered and the result installed, the playhead is set to the seek
    /// position requested since playback last started or stopped, or to 0
    /// without one, the start time is recorded, and playback is active.
    pub fn play(&mut self, device_available: bool) -> (result: Result<(), EngineError>)
        requires
            device_available ==> old(self).renderable(),
        ensures
            !device_available ==> result == Err::<(), EngineError>(EngineError::DeviceUnavailable)
                && *final(self) == *old(self),
            device_available ==> {
                &&& result is Ok
                &&& is_mix_of(
                    final(self).state.buffer@,
                    rendered_timeline(old(self).timeline@, old(self).store@, old(self).config),
                )
                &&& final(self).state.buffer@.len() == timeline_length(
                    old(self).timeline@,
                    old(self).config,
                )
                &&& final(self).state.pos_idx == match old(self).state.seek_request {
                    Some(index) => index,
                    None => 0,
                }
                &&& final(self).state.start_time is Some
                &&& final(self).state.is_playing
                &&& final(self).state.seek_request is None
                &&& final(self).config == old(self).config
                &&& final(self).timeline == old(self).timeline
                &&& final(self).store == old(self).store
            },
    {
        if !device_available {
            return Err(EngineError::DeviceUnavailable);
        }
        self.render();
        self.state.pos_idx = match self.state.seek_request {
            Some(index) => index,
            None => 0,
        };
        self.state.seek_request = None;
        self.state.start_time = Some(now());
        self.state.is_playing = true;
        Ok(())
    }

    /// Stops playback and says whether it was active: the playhead returns
    /// to 0, so the position is beat 0; the start time and any seek request
    /// are cleared. The mix buffer stays.
    pub fn stop(&mut self) -> (was_playing: bool)
        ensures
            was_playing == old(self).state.is_playing,
            !final(self).state.is_playing,
            final(self).state.pos_idx == 0,
            final(self).position() == 0,
            final(self).state.start_time is None,
            final(self).state.seek_request is None,
            final(self).state.buffer == old(self).state.buffer,
            final(self).config == old(self).config,
            final(self).timeline == old(self).timeline,
            final(self).store == old(self).store,
    {
        let was_playing = self.state.is_playing;
        proof {
            lemma_position_of_zero(
                self.config.bpm,
                self.config.sample_rate,
                SUBDIVISION,
                self.config.channels,
            );
        }
        self.state.is_playing = false;
        self.state.pos_idx = 0;
        self.state.start_time = None;
        self.state.seek_request = None;
        was_playing
    }

    /// Moves the playhead to the position `beat`, whether or not playback is
    /// active, and keeps the request for the next start of playback. The
    /// position that results is `beat` taken through the timing round trip:
    /// `beat` itself where it falls on a frame boundary; otherwise not after
    /// `beat`, and short of it by less than two sample periods, wherever
    /// `beat` lies within the range of sample indices. It is 0 only where
    /// the playhead is at 0.
    pub fn seek(&mut self, beat: u64)
        ensures
            final(self).state.pos_idx == old(self).config.spec_sample_idx(beat),
            final(self).state.seek_request == Some(final(self).state.pos_idx),
            final(self).position() == old(self).config.spec_beat_at(
                old(self).config.spec_sample_idx(beat) as u64,
            ),
            on_frame_boundary(
                beat,
                old(self).config.bpm,
                old(self).config.sample_rate,
                SUBDIVISION,
                old(self).config.channels,
            ) ==> final(self).position() == beat,
            in_sample_range(
                beat,
                old(self).config.bpm,
                old(self).config.sample_rate,
                SUBDIVISION,
                old(self).config.channels,
            ) ==> {
                &&& 0 <= final(self).position() <= beat
                &&& (beat - final(self).position()) * sample_factor(
                    old(self).config.sample_rate,
                    SUBDIVISION,
                    old(self).config.channels,
                ) < 2 * tick_factor(old(self).config.bpm)
                &&& final(self).position() == 0 <==> final(self).state.pos_idx == 0
            },
            final(self).state.buffer == old(self).state.buffer,
            final(self).state.start_time == old(self).state.start_time,
            final(self).state.is_playing == old(self).state.is_playing,
            final(self).config == old(self).config,
            final(self).timeline == old(self).timeline,
            final(self).store == old(self).store,
    {
        let index: u64 = self.config.sample_idx(beat);
        proof {
            if in_sample_range(
                beat,
                self.config.bpm,
                self.config.sample_rate,
                SUBDIVISION,
                self.config.channels,
            ) {
                lemma_timing_round_trip(
                    beat,
                    self.config.bpm,
                    self.config.sample_rate,
                    SUBDIVISION,
                    self.config.channels,
                );
            }
            if on_frame_boundary(
                beat,
                self.config.bpm,
                self.config.sample_rate,
                SUBDIVISION,
                self.config.channels,
            ) {
                lemma_timing_round_trip_exact(
                    beat,
                    self.config.bpm,
                    self.config.sample_rate,
                    SUBDIVISION,
                    self.config.channels,
                );
            }
        }
        self.state.pos_idx = index;
        self.state.seek_request = Some(index);
    }

    /// The position of the playhead in ticks, in any state: frozen at its
    /// last value while playback is stopped.
    pub fn get_position_beat(&self) -> (beat: u64)
        ensures
            beat == self.position(),
    {
        self.config.beat_at(self.state.pos_idx)
    }
}

} // verus!
