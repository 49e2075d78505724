//! Conversion between musical position and sample index.
//!
//! Musical positions are fixed-point: a position is a count of ticks, with
//! [`TICKS_PER_BEAT`] ticks to the beat. Tempo is fixed-point as well, in
//! units of 1/[`BPM_SCALE`] beats per minute. All conversions are exact
//! integer arithmetic, saturated at the ends of `u64`: a sample index is
//! rounded down, a position read from a sample index is rounded up, so that
//! it leads back to the index it was read from.
use vstd::arithmetic::div_mod::{lemma_fundamental_div_mod, lemma_mod_pos_bound};
use vstd::prelude::*;

verus! {

/// Timeline subdivisions per beat, a convention shared with the timeline
/// producer.
pub const SUBDIVISION: u8 = 4;

/// Resolution of a musical position: ticks per beat.
pub const TICKS_PER_BEAT: u64 = 1_048_576;

/// Resolution of a tempo: tempo units per beat-per-minute.
pub const BPM_SCALE: u32 = 1_000;

/// The seconds of a minute in the scale of a tempo: 60 times [`BPM_SCALE`].
pub const TEMPO_UNITS_PER_MINUTE: u64 = 60_000;

/// The factor that multiplies a position in `beat_to_sample_idx`: the
/// seconds of a minute in the scale of a tempo, times the samples of one
/// second, over all subdivisions and channels.
pub open spec fn sample_factor(sample_rate: u32, scale_factor: u8, channels: u8) -> int {
    TEMPO_UNITS_PER_MINUTE as int * sample_rate as int * scale_factor as int * channels as int
}

/// The factor that divides a position in `beat_to_sample_idx`: the ticks of
/// a beat times the tempo.
pub open spec fn tick_factor(bpm: u32) -> int {
    TICKS_PER_BEAT as int * bpm as int
}

/// `num / den` rounded down and saturated at `u64::MAX`. A zero denominator
/// gives 0 for a zero numerator and `u64::MAX` otherwise.
pub open spec fn saturating_quotient(num: int, den: int) -> int {
    if den == 0 {
        if num == 0 {
            0
        } else {
            u64::MAX as int
        }
    } else if num / den > u64::MAX as int {
        u64::MAX as int
    } else {
        num / den
    }
}

/// `x` aligned down to the nearest even number.
pub open spec fn align_even(x: int) -> int {
    x - x % 2
}

/// The sample index of the position `beat` (in ticks) at tempo `bpm`:
/// `beat / bpm * 60 * sample_rate * scale_factor * channels` in beats and
/// beats per minute, rounded down, saturated, then aligned down to an even
/// index.
pub open spec fn spec_beat_to_sample_idx(
    beat: u64,
    bpm: u32,
    sample_rate: u32,
    scale_factor: u8,
    channels: u8,
) -> int {
    align_even(
        saturating_quotient(
            beat as int * sample_factor(sample_rate, scale_factor, channels),
            tick_factor(bpm),
        ),
    )
}

/// The position (in ticks) of the sample index `sample_idx` at tempo `bpm`:
/// the inverse transform, `sample_idx / channels / sample_rate /
/// scale_factor * bpm / 60` in beats and beats per minute, rounded up to a
/// whole tick and saturated. Rounded up, it is the first position whose
/// sample index is not before `sample_idx`.
pub open spec fn spec_sample_idx_to_beat(
    sample_idx: u64,
    bpm: u32,
    sample_rate: u32,
    scale_factor: u8,
    channels: u8,
) -> int {
    let samples = sample_factor(sample_rate, scale_factor, channels);
    let ticks = sample_idx as int * tick_factor(bpm);
    if samples == 0 {
        saturating_quotient(ticks, 0)
    } else {
        saturating_quotient(ticks + samples - 1, samples)
    }
}

/// Whether the position `beat` lies within the range of sample indices, so
/// that its conversion does not saturate.
pub open spec fn in_sample_range(
    beat: u64,
    bpm: u32,
    sample_rate: u32,
    scale_factor: u8,
    channels: u8,
) -> bool {
    bpm > 0 && beat as int * sample_factor(sample_rate, scale_factor, channels) / tick_factor(bpm)
        <= u64::MAX as int
}

/// Round trip of the timing conversion: a position within the range of sample
/// indices, converted to its sample index and back, never moves forward, and
/// moves back by less than two sample periods: what the rounding down of the
/// index and its alignment to an even index take. It comes back as 0 only
/// from the sample index 0.
pub proof fn lemma_timing_round_trip(
    beat: u64,
    bpm: u32,
    sample_rate: u32,
    scale_factor: u8,
    channels: u8,
)
    requires
        in_sample_range(beat, bpm, sample_rate, scale_factor, channels),
    ensures
        ({
            let index = spec_beat_to_sample_idx(beat, bpm, sample_rate, scale_factor, channels);
            let back = spec_sample_idx_to_beat(
                index as u64,
                bpm,
                sample_rate,
                scale_factor,
                channels,
            );
            &&& 0 <= index <= u64::MAX
            &&& 0 <= back <= beat
            &&& (beat - back) * sample_factor(sample_rate, scale_factor, channels) < 2
                * tick_factor(bpm)
            &&& back == 0 <==> index == 0
        }),
{
    let k = sample_factor(sample_rate, scale_factor, channels);
    let d = tick_factor(bpm);
    assert(k >= 0) by (nonlinear_arith)
        requires
            k == 60_000 * (sample_rate as int) * (scale_factor as int) * (channels as int),
    ;
    let num = beat as int * k;
    assert(num >= 0) by (nonlinear_arith)
        requires
            num == beat as int * k,
            k >= 0,
    ;
    let q = num / d;
    lemma_fundamental_div_mod(num, d);
    lemma_mod_pos_bound(num, d);
    assert(q >= 0) by (nonlinear_arith)
        requires
            num == d * q + num % d,
            0 <= num % d < d,
            num >= 0,
    ;
    let index = q - q % 2;
    assert(index * d <= num && index * d > num - 2 * d) by (nonlinear_arith)
        requires
            num == d * q + num % d,
            0 <= num % d < d,
            q - 1 <= index <= q,
    ;
    if k == 0 {
        assert(index == 0);
    } else {
        let up = index * d + k - 1;
        let back = up / k;
        lemma_fundamental_div_mod(up, k);
        lemma_mod_pos_bound(up, k);
        assert(0 <= back <= beat && (beat - back) * k < 2 * d && (back == 0 <==> index == 0))
            by (nonlinear_arith)
            requires
                up == index * d + k - 1,
                up == k * back + up % k,
                0 <= up % k < k,
                index * d <= num,
                index * d > num - 2 * d,
                num == beat as int * k,
                index >= 0,
                d > 0,
                k > 0,
        ;
    }
}

/// The sample index 0 is the position 0, under every configuration.
pub proof fn lemma_position_of_zero(bpm: u32, sample_rate: u32, scale_factor: u8, channels: u8)
    ensures
        spec_sample_idx_to_beat(0, bpm, sample_rate, scale_factor, channels) == 0,
{
    let k = sample_factor(sample_rate, scale_factor, channels);
    assert(0 * tick_factor(bpm) == 0);
    if k != 0 {
        assert(k > 0) by (nonlinear_arith)
            requires
                k == 60_000 * (sample_rate as int) * (scale_factor as int) * (channels as int),
                k != 0,
        ;
        vstd::arithmetic::div_mod::lemma_fundamental_div_mod_converse(k - 1, k, 0, k - 1);
    }
}

/// The position of a sample index is 0 for the sample index 0 alone, and no
/// position is negative.
pub proof fn lemma_position_zero(
    sample_idx: u64,
    bpm: u32,
    sample_rate: u32,
    scale_factor: u8,
    channels: u8,
)
    requires
        bpm > 0,
        sample_factor(sample_rate, scale_factor, channels) > 0,
    ensures
        0 <= spec_sample_idx_to_beat(sample_idx, bpm, sample_rate, scale_factor, channels),
        spec_sample_idx_to_beat(sample_idx, bpm, sample_rate, scale_factor, channels) == 0
            <==> sample_idx == 0,
{
    let k = sample_factor(sample_rate, scale_factor, channels);
    let d = tick_factor(bpm);
    let up = sample_idx as int * d + k - 1;
    lemma_fundamental_div_mod(up, k);
    lemma_mod_pos_bound(up, k);
    assert(up / k >= 0 && (up / k == 0 <==> sample_idx == 0)) by (nonlinear_arith)
        requires
            up == sample_idx as int * d + k - 1,
            up == k * (up / k) + up % k,
            0 <= up % k < k,
            sample_idx >= 0,
            d > 0,
            k > 0,
    ;
}

/// The position does not decrease as the sample index grows.
pub proof fn lemma_position_is_monotonic(
    earlier: u64,
    later: u64,
    bpm: u32,
    sample_rate: u32,
    scale_factor: u8,
    channels: u8,
)
    requires
        earlier <= later,
        sample_factor(sample_rate, scale_factor, channels) > 0,
    ensures
        spec_sample_idx_to_beat(earlier, bpm, sample_rate, scale_factor, channels)
            <= spec_sample_idx_to_beat(later, bpm, sample_rate, scale_factor, channels),
{
    let k = sample_factor(sample_rate, scale_factor, channels);
    let d = tick_factor(bpm);
    assert(earlier as int * d <= later as int * d) by (nonlinear_arith)
        requires
            earlier <= later,
            d >= 0,
    ;
    vstd::arithmetic::div_mod::lemma_div_is_ordered(
        earlier as int * d + k - 1,
        later as int * d + k - 1,
        k,
    );
}

/// The timing conversion is an inverse on sample indices: the position of an
/// even sample index leads back to that index, wherever a tick is no longer
/// than two sample periods and the position does not saturate.
pub proof fn lemma_position_leads_back(
    sample_idx: u64,
    bpm: u32,
    sample_rate: u32,
    scale_factor: u8,
    channels: u8,
)
    requires
        sample_idx % 2 == 0,
        bpm > 0,
        0 < sample_factor(sample_rate, scale_factor, channels) <= 2 * tick_factor(bpm),
        spec_sample_idx_to_beat(sample_idx, bpm, sample_rate, scale_factor, channels) < u64::MAX,
    ensures
        spec_beat_to_sample_idx(
            spec_sample_idx_to_beat(sample_idx, bpm, sample_rate, scale_factor, channels) as u64,
            bpm,
            sample_rate,
            scale_factor,
            channels,
        ) == sample_idx,
{
    let k = sample_factor(sample_rate, scale_factor, channels);
    let d = tick_factor(bpm);
    let up = sample_idx as int * d + k - 1;
    let beat = up / k;
    lemma_fundamental_div_mod(up, k);
    lemma_mod_pos_bound(up, k);
    assert(beat >= 0 && sample_idx as int * d <= beat * k < sample_idx as int * d + k)
        by (nonlinear_arith)
        requires
            up == sample_idx as int * d + k - 1,
            up == k * beat + up % k,
            0 <= up % k < k,
            sample_idx >= 0,
            d > 0,
            k > 0,
    ;
    let num = beat * k;
    let q = num / d;
    lemma_fundamental_div_mod(num, d);
    lemma_mod_pos_bound(num, d);
    assert(sample_idx as int <= q < sample_idx as int + 2) by (nonlinear_arith)
        requires
            num == d * q + num % d,
            0 <= num % d < d,
            sample_idx as int * d <= num < sample_idx as int * d + k,
            k <= 2 * d,
            d > 0,
    ;
}

/// Whether the position `beat` falls exactly on an even sample index: on a
/// frame boundary of interleaved stereo.
pub open spec fn on_frame_boundary(
    beat: u64,
    bpm: u32,
    sample_rate: u32,
    scale_factor: u8,
    channels: u8,
) -> bool {
    let samples = sample_factor(sample_rate, scale_factor, channels);
    let ticks = tick_factor(bpm);
    &&& samples > 0
    &&& ticks > 0
    &&& (beat as int * samples) % (2 * ticks) == 0
    &&& beat as int * samples / ticks <= u64::MAX as int
}

/// Exact round trip: a position on a frame boundary, converted to its sample
/// index and back, is the position itself.
pub proof fn lemma_timing_round_trip_exact(
    beat: u64,
    bpm: u32,
    sample_rate: u32,
    scale_factor: u8,
    channels: u8,
)
    requires
        on_frame_boundary(beat, bpm, sample_rate, scale_factor, channels),
    ensures
        ({
            let index = spec_beat_to_sample_idx(beat, bpm, sample_rate, scale_factor, channels);
            &&& 0 <= index <= u64::MAX
            &&& index * tick_factor(bpm) == beat * sample_factor(
                sample_rate,
                scale_factor,
                channels,
            )
            &&& spec_sample_idx_to_beat(index as u64, bpm, sample_rate, scale_factor, channels)
                == beat
        }),
{
    let k = sample_factor(sample_rate, scale_factor, channels);
    let d = tick_factor(bpm);
    let num = beat as int * k;
    let m = num / (2 * d);
    lemma_fundamental_div_mod(num, 2 * d);
    assert(num == d * (2 * m)) by (nonlinear_arith)
        requires
            num == (2 * d) * m + num % (2 * d),
            num % (2 * d) == 0,
    ;
    assert(num / d == 2 * m) by {
        vstd::arithmetic::div_mod::lemma_div_multiples_vanish(2 * m, d);
    }
    assert(num >= 0) by (nonlinear_arith)
        requires
            num == beat as int * k,
            k > 0,
    ;
    assert((2 * m) * d == k * (beat as int)) by (nonlinear_arith)
        requires
            num == d * (2 * m),
            num == beat as int * k,
    ;
    vstd::arithmetic::div_mod::lemma_fundamental_div_mod_converse(
        (2 * m) * d + k - 1,
        k,
        beat as int,
        k - 1,
    );
}

/// Computes [`sample_factor`], which always fits in 64 bits.
fn sample_factor_of(sample_rate: u32, scale_factor: u8, channels: u8) -> (factor: u64)
    ensures
        factor == sample_factor(sample_rate, scale_factor, channels),
{
    let per_channel: u64 = TEMPO_UNITS_PER_MINUTE * (sample_rate as u64);
    assert(0 <= scale_factor * channels <= 255 * 255) by (nonlinear_arith);
    let layout: u64 = (scale_factor as u64) * (channels as u64);
    assert(0 <= per_channel * layout <= (60_000 * 0xFFFF_FFFF) * (255 * 255))
        by (nonlinear_arith)
        requires
            0 <= per_channel <= 60_000 * 0xFFFF_FFFF,
            0 <= layout <= 255 * 255,
    ;
    assert(per_channel * layout == sample_factor(sample_rate, scale_factor, channels))
        by (nonlinear_arith)
        requires
            per_channel == 60_000 * (sample_rate as int),
            layout == (scale_factor as int) * (channels as int),
            sample_factor(sample_rate, scale_factor, channels) == 60_000 * (sample_rate as int)
                * (scale_factor as int) * (channels as int),
    ;
    per_channel * layout
}

/// Computes [`saturating_quotient`].
fn saturating_div(num: u128, den: u64) -> (q: u64)
    ensures
        q == saturating_quotient(num as int, den as int),
{
    if den == 0 {
        if num == 0 {
            0
        } else {
            u64::MAX
        }
    } else {
        let wide: u128 = num / (den as u128);
        if wide > u64::MAX as u128 {
            u64::MAX
        } else {
            wide as u64
        }
    }
}

/// Converts a position in ticks to the index of its sample.
pub fn beat_to_sample_idx(
    beat: u64,
    bpm: u32,
    sample_rate: u32,
    scale_factor: u8,
    channels: u8,
) -> (index: u64)
    ensures
        index == spec_beat_to_sample_idx(beat, bpm, sample_rate, scale_factor, channels),
        index % 2 == 0,
{
    let factor: u64 = sample_factor_of(sample_rate, scale_factor, channels);
    assert(0 <= beat * factor <= 0xFFFF_FFFF_FFFF_FFFF * 0xFFFF_FFFF_FFFF_FFFF)
        by (nonlinear_arith)
        requires
            0 <= beat <= 0xFFFF_FFFF_FFFF_FFFF,
            0 <= factor <= 0xFFFF_FFFF_FFFF_FFFF,
    ;
    let num: u128 = (beat as u128) * (factor as u128);
    let den: u64 = TICKS_PER_BEAT * (bpm as u64);
    let span: u64 = saturating_div(num, den);
    span - span % 2
}

/// Converts a sample index to its position in ticks.
pub fn sample_idx_to_beat(
    sample_idx: u64,
    bpm: u32,
    sample_rate: u32,
    scale_factor: u8,
    channels: u8,
) -> (beat: u64)
    ensures
        beat == spec_sample_idx_to_beat(sample_idx, bpm, sample_rate, scale_factor, channels),
{
    let den: u64 = sample_factor_of(sample_rate, scale_factor, channels);
    let ticks: u64 = TICKS_PER_BEAT * (bpm as u64);
    assert(0 <= sample_idx * ticks <= 0xFFFF_FFFF_FFFF_FFFF * 0x000F_FFFF_FFF0_0000)
        by (nonlinear_arith)
        requires
            0 <= sample_idx <= 0xFFFF_FFFF_FFFF_FFFF,
            0 <= ticks <= 0x000F_FFFF_FFF0_0000,
    ;
    let num: u128 = (sample_idx as u128) * (ticks as u128);
    if den == 0 {
        saturating_div(num, den)
    } else {
        saturating_div(num + (den as u128 - 1), den)
    }
}

} // verus!
