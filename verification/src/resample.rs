//! The rate adapter: a mix buffer converted from one sample rate to another
//! by linear interpolation.
use crate::render::MixSample;
use vstd::arithmetic::div_mod::{
    lemma_div_is_ordered, lemma_div_multiples_vanish, lemma_fundamental_div_mod,
    lemma_fundamental_div_mod_converse, lemma_mod_pos_bound,
};
use vstd::prelude::*;

verus! {

/// Channels of the interleaved audio that the adapter converts.
pub const STEREO: usize = 2;

/// The length of a sequence of `len` samples after conversion from
/// `from_rate` to `to_rate`: `len * to_rate / from_rate`, rounded to the
/// nearest whole number, halves up.
pub open spec fn resampled_len(len: int, from_rate: u32, to_rate: u32) -> int {
    (2 * len * to_rate + from_rate) / (2 * from_rate)
}

/// Sample `k` of one channel of the interleaved stereo sequence `samples`,
/// or silence where the channel has no such sample.
pub open spec fn channel_sample(samples: Seq<MixSample>, channel: int, k: int) -> int {
    if 0 <= k && 2 * k + channel < samples.len() {
        samples[2 * k + channel] as int
    } else {
        0
    }
}

/// The value `rem / den` of the way from `s0` to `s1`:
/// `s0 * (1 - frac) + s1 * frac` for `frac = rem / den`, rounded down.
pub open spec fn interpolated(s0: int, s1: int, rem: int, den: int) -> int {
    (s0 * (den - rem) + s1 * rem) / den
}

/// Sample `i` of the conversion of `samples`. It belongs to channel `i % 2`
/// and is that channel's destination sample `i / 2`, read at the source
/// position `(i / 2) * from_rate / to_rate` of the same channel:
/// interpolated between the source samples below and above that position.
pub open spec fn resampled_sample(samples: Seq<MixSample>, from_rate: u32, to_rate: u32, i: int)
    -> int {
    let channel = i % 2;
    let position = (i / 2) * from_rate;
    let below = position / (to_rate as int);
    interpolated(
        channel_sample(samples, channel, below),
        channel_sample(samples, channel, below + 1),
        position % (to_rate as int),
        to_rate as int,
    )
}

/// Whether `output` is the conversion of `samples` from `from_rate` to
/// `to_rate`: `samples` itself where the rates are equal, and otherwise of
/// the converted length, each sample interpolated within its own channel.
pub open spec fn is_resampled(
    output: Seq<MixSample>,
    samples: Seq<MixSample>,
    from_rate: u32,
    to_rate: u32,
) -> bool {
    if from_rate == to_rate {
        output == samples
    } else {
        &&& output.len() == resampled_len(samples.len() as int, from_rate, to_rate)
        &&& forall|i: int|
            0 <= i < output.len() ==> output[i] as int == resampled_sample(
                samples,
                from_rate,
                to_rate,
                i,
            )
    }
}

/// Whether `samples` can be converted from `from_rate` to `to_rate`: always
/// where the rates are equal; otherwise the source rate must not be zero and
/// the converted length must be one that can be allocated.
pub open spec fn resamplable(len: int, from_rate: u32, to_rate: u32) -> bool {
    from_rate != to_rate ==> from_rate > 0 && resampled_len(len, from_rate, to_rate) <= usize::MAX
}

/// Says whether a sequence of `len` samples can be converted from
/// `from_rate` to `to_rate`.
pub fn can_resample(len: usize, from_rate: u32, to_rate: u32) -> (ok: bool)
    ensures
        ok == resamplable(len as int, from_rate, to_rate),
{
    if from_rate == to_rate {
        true
    } else if from_rate == 0 {
        false
    } else {
        assert(0 <= 2 * len * to_rate <= 2 * 0xFFFF_FFFF_FFFF_FFFF * 0xFFFF_FFFF)
            by (nonlinear_arith)
            requires
                0 <= len <= 0xFFFF_FFFF_FFFF_FFFF,
                0 <= to_rate <= 0xFFFF_FFFF,
        ;
        let doubled: u128 = 2 * (len as u128) * (to_rate as u128) + from_rate as u128;
        doubled / (2 * (from_rate as u128)) <= usize::MAX as u128
    }
}

/// An interpolated value lies between the two values it is taken from.
pub proof fn lemma_interpolated_between(s0: int, s1: int, rem: int, den: int)
    requires
        0 <= rem < den,
    ensures
        s0 <= s1 ==> s0 <= interpolated(s0, s1, rem, den) <= s1,
        s1 <= s0 ==> s1 <= interpolated(s0, s1, rem, den) <= s0,
        rem == 0 ==> interpolated(s0, s1, rem, den) == s0,
{
    let num = s0 * (den - rem) + s1 * rem;
    let low = if s0 <= s1 {
        s0
    } else {
        s1
    };
    let high = if s0 <= s1 {
        s1
    } else {
        s0
    };
    assert(den * low <= num <= den * high) by (nonlinear_arith)
        requires
            num == s0 * (den - rem) + s1 * rem,
            0 <= rem < den,
            low <= s0 <= high,
            low <= s1 <= high,
    ;
    lemma_div_is_ordered(den * low, num, den);
    lemma_div_is_ordered(num, den * high, den);
    lemma_div_multiples_vanish(low, den);
    lemma_div_multiples_vanish(high, den);
    if rem == 0 {
        assert(num == den * s0) by (nonlinear_arith)
            requires
                num == s0 * (den - rem) + s1 * rem,
                rem == 0,
        ;
        lemma_div_multiples_vanish(s0, den);
    }
}

/// `num / den` rounded down, for a positive `den`.
fn floor_div(num: i128, den: i128) -> (quotient: i128)
    requires
        den > 0,
        num > i128::MIN,
    ensures
        quotient == num / den,
{
    if num >= 0 {
        num / den
    } else {
        let positive: i128 = -num;
        let q: i128 = positive / den;
        let r: i128 = positive % den;
        proof {
            lemma_fundamental_div_mod(positive as int, den as int);
            lemma_mod_pos_bound(positive as int, den as int);
        }
        if r == 0 {
            proof {
                assert(num as int == (-q) * den + 0) by (nonlinear_arith)
                    requires
                        -num == den * q + r,
                        r == 0,
                ;
                lemma_fundamental_div_mod_converse(num as int, den as int, -q as int, 0);
            }
            -q
        } else {
            proof {
                assert(num as int == (-q - 1) * den + (den - r)) by (nonlinear_arith)
                    requires
                        -num == den * q + r,
                ;
                lemma_fundamental_div_mod_converse(
                    num as int,
                    den as int,
                    -q - 1,
                    den as int - r as int,
                );
            }
            -q - 1
        }
    }
}

/// Reads sample `k` of one channel, silence where the channel has none.
fn channel_at(samples: &Vec<MixSample>, channel: usize, k: u128) -> (sample: MixSample)
    requires
        channel < STEREO,
    ensures
        sample == channel_sample(samples@, channel as int, k as int),
{
    let len: usize = samples.len();
    if k < len as u128 {
        let at: u128 = 2 * k + channel as u128;
        if at < len as u128 {
            samples[at as usize]
        } else {
            0
        }
    } else {
        0
    }
}

/// Converts the interleaved stereo sequence `samples` from `from_rate` to
/// `to_rate`. Equal rates give `samples` back unchanged. Otherwise each
/// channel is converted on its own: destination sample `k` of a channel is
/// read at the source position `k * from_rate / to_rate` of that channel,
/// as the linear interpolation between the source samples below and above
/// it, a missing neighbour counting as silence; the result is interleaved
/// again, `samples.len() * to_rate / from_rate` samples long after rounding.
pub fn resample(samples: &Vec<MixSample>, from_rate: u32, to_rate: u32) -> (output: Vec<
    MixSample,
>)
    requires
        resamplable(samples@.len() as int, from_rate, to_rate),
    ensures
        is_resampled(output@, samples@, from_rate, to_rate),
{
    if from_rate == to_rate {
        return samples.clone();
    }
    let len: usize = samples.len();
    assert(0 <= 2 * len * to_rate <= 2 * 0xFFFF_FFFF_FFFF_FFFF * 0xFFFF_FFFF) by (nonlinear_arith)
        requires
            0 <= len <= 0xFFFF_FFFF_FFFF_FFFF,
            0 <= to_rate <= 0xFFFF_FFFF,
    ;
    let doubled: u128 = 2 * (len as u128) * (to_rate as u128) + from_rate as u128;
    let target: usize = (doubled / (2 * (from_rate as u128))) as usize;
    let mut output: Vec<MixSample> = Vec::new();
    let mut i: usize = 0;
    while i < target
        invariant
            i <= target,
            from_rate != to_rate,
            target == resampled_len(samples@.len() as int, from_rate, to_rate),
            output@.len() == i,
            forall|j: int|
                0 <= j < i ==> output@[j] as int == resampled_sample(
                    samples@,
                    from_rate,
                    to_rate,
                    j,
                ),
        decreases target - i,
    {
        proof {
            if to_rate == 0 {
                assert(resampled_len(samples@.len() as int, from_rate, to_rate) == 0) by {
                    assert(2 * (samples@.len() as int) * 0 + from_rate == from_rate as int);
                    assert((from_rate as int) / (2 * from_rate) == 0) by (nonlinear_arith)
                        requires
                            from_rate > 0,
                    ;
                }
            }
        }
        let channel: usize = i % STEREO;
        let frame: usize = i / STEREO;
        assert(0 <= frame * from_rate <= 0xFFFF_FFFF_FFFF_FFFF * 0xFFFF_FFFF) by (nonlinear_arith)
            requires
                0 <= frame <= 0xFFFF_FFFF_FFFF_FFFF,
                0 <= from_rate <= 0xFFFF_FFFF,
        ;
        let position: u128 = (frame as u128) * (from_rate as u128);
        let below: u128 = position / (to_rate as u128);
        let rem: u128 = position % (to_rate as u128);
        proof {
            lemma_fundamental_div_mod(position as int, to_rate as int);
            lemma_mod_pos_bound(position as int, to_rate as int);
            assert(0 <= below <= position) by (nonlinear_arith)
                requires
                    position == to_rate * below + rem,
                    0 <= rem,
                    to_rate >= 1,
                    below >= 0,
            ;
        }
        let s0: MixSample = channel_at(samples, channel, below);
        let s1: MixSample = channel_at(samples, channel, below + 1);
        let den: i128 = to_rate as i128;
        let up: i128 = rem as i128;
        let down: i128 = den - up;
        assert(-0x8000_0000_0000_0000 * 0xFFFF_FFFF <= s0 * down <= 0x8000_0000_0000_0000
            * 0xFFFF_FFFF) by (nonlinear_arith)
            requires
                -0x8000_0000_0000_0000 <= s0 <= 0x8000_0000_0000_0000,
                0 <= down <= 0xFFFF_FFFF,
        ;
        assert(-0x8000_0000_0000_0000 * 0xFFFF_FFFF <= s1 * up <= 0x8000_0000_0000_0000
            * 0xFFFF_FFFF) by (nonlinear_arith)
            requires
                -0x8000_0000_0000_0000 <= s1 <= 0x8000_0000_0000_0000,
                0 <= up <= 0xFFFF_FFFF,
        ;
        let num: i128 = (s0 as i128) * down + (s1 as i128) * up;
        let value: i128 = floor_div(num, den);
        proof {
            lemma_interpolated_between(s0 as int, s1 as int, rem as int, to_rate as int);
        }
        output.push(value as MixSample);
        i = i + 1;
    }
    output
}

} // verus!
