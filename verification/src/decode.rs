//! The choice of decoder for an audio file, from the bytes at its start.
use vstd::prelude::*;

verus! {

/// The decoders that read audio files.
#[derive(Clone, Copy, Debug, PartialEq, Eq, Structural)]
pub enum Decoder {
    /// The MP3 decoder.
    Minimp3,
    /// The general decoder, for every other format.
    Symphonia,
}

/// Whether `buf` starts as MP3 data does: with an ID3v2 tag, or with one of
/// the frame sync words `FF FB`, `FF F3`, `FF F2`. Three bytes at least are
/// needed to tell.
pub open spec fn starts_as_mp3(buf: Seq<u8>) -> bool {
    buf.len() > 2 && ((buf[0] == 0x49 && buf[1] == 0x44 && buf[2] == 0x33) || (buf[0] == 0xFF
        && buf[1] == 0xFB) || (buf[0] == 0xFF && buf[1] == 0xF3) || (buf[0] == 0xFF && buf[1]
        == 0xF2))
}

/// `infer::audio::is_mp3` tests the first bytes of a buffer against the
/// signatures of MP3 data, and nothing else: it says yes exactly where
/// [`starts_as_mp3`] does.
pub assume_specification[ infer::audio::is_mp3 ](buf: &[u8]) -> (yes: bool)
    ensures
        yes == starts_as_mp3(buf@),
;

/// Chooses the decoder for a file whose first bytes are `header`: the MP3
/// decoder where they start as MP3 data does, the general decoder
/// otherwise.
pub fn select_decoder(header: &[u8]) -> (decoder: Decoder)
    ensures
        decoder == if starts_as_mp3(header@) {
            Decoder::Minimp3
        } else {
            Decoder::Symphonia
        },
{
    if infer::audio::is_mp3(header) {
        Decoder::Minimp3
    } else {
        Decoder::Symphonia
    }
}

/// The channel count of a stream without frames.
pub const DEFAULT_CHANNELS: usize = 1;

/// The sample rate of a stream without frames.
pub const DEFAULT_SAMPLE_RATE: u32 = 44100;

/// The format of a decoded stream, as channel count and sample rate: that of
/// its first frame, whatever later frames say, and the defaults for a stream
/// without frames.
pub fn stream_format(first: Option<(usize, u32)>) -> (format: (usize, u32))
    ensures
        format == match first {
            Some(found) => found,
            None => (DEFAULT_CHANNELS, DEFAULT_SAMPLE_RATE),
        },
{
    match first {
        Some(found) => found,
        None => (DEFAULT_CHANNELS, DEFAULT_SAMPLE_RATE),
    }
}

} // verus!
