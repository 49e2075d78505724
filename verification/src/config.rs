//! The engine's audio configuration.
use crate::timing::{
    beat_to_sample_idx, sample_idx_to_beat, spec_beat_to_sample_idx, spec_sample_idx_to_beat,
    SUBDIVISION,
};
use vstd::prelude::*;

verus! {

/// The format of the engine's audio and its tempo. One render uses one
/// consistent configuration throughout.
#[derive(Clone, Copy, Debug, PartialEq, Eq)]
pub struct AudioConfig {
    /// Frames per second.
    pub sample_rate: u32,
    /// Interleaved channels per frame.
    pub channels: u8,
    /// Block size of chunked buffering, in samples.
    pub buffer_size: usize,
    /// Tempo, in units of 1/[`crate::timing::BPM_SCALE`] beats per minute.
    pub bpm: u32,
}

impl AudioConfig {
    /// The sample index of the position `beat` under this configuration.
    pub open spec fn spec_sample_idx(self, beat: u64) -> int {
        spec_beat_to_sample_idx(beat, self.bpm, self.sample_rate, SUBDIVISION, self.channels)
    }

    /// The position of the sample index `sample_idx` under this
    /// configuration.
    pub open spec fn spec_beat_at(self, sample_idx: u64) -> int {
        spec_sample_idx_to_beat(sample_idx, self.bpm, self.sample_rate, SUBDIVISION, self.channels)
    }

    /// Converts the position `beat` to its sample index.
    pub fn sample_idx(&self, beat: u64) -> (index: u64)
        ensures
            index == self.spec_sample_idx(beat),
            index % 2 == 0,
    {
        beat_to_sample_idx(beat, self.bpm, self.sample_rate, SUBDIVISION, self.channels)
    }

    /// Converts the sample index `sample_idx` to its position.
    pub fn beat_at(&self, sample_idx: u64) -> (beat: u64)
        ensures
            beat == self.spec_beat_at(sample_idx),
    {
        sample_idx_to_beat(sample_idx, self.bpm, self.sample_rate, SUBDIVISION, self.channels)
    }
}

} // verus!
