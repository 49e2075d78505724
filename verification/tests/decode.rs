use muek_engine::decode::{
    select_decoder, stream_format, Decoder, DEFAULT_CHANNELS, DEFAULT_SAMPLE_RATE,
};

#[test]
fn id3_tag_is_mp3() {
    assert_eq!(select_decoder(&[0x49, 0x44, 0x33, 0x04, 0x00]), Decoder::Minimp3);
    assert_eq!(select_decoder(&[0x49, 0x44, 0x33]), Decoder::Minimp3);
}

#[test]
fn frame_sync_is_mp3() {
    assert_eq!(select_decoder(&[0xFF, 0xFB, 0x90]), Decoder::Minimp3);
    assert_eq!(select_decoder(&[0xFF, 0xF3, 0x00]), Decoder::Minimp3);
    assert_eq!(select_decoder(&[0xFF, 0xF2, 0x00, 0x01]), Decoder::Minimp3);
}

#[test]
fn other_formats_go_to_the_general_decoder() {
    assert_eq!(select_decoder(b"RIFF\x24\x08\x00\x00WAVEfmt "), Decoder::Symphonia);
    assert_eq!(select_decoder(b"fLaC\x00\x00\x00\x22"), Decoder::Symphonia);
    assert_eq!(select_decoder(b"OggS\x00\x02"), Decoder::Symphonia);
    assert_eq!(select_decoder(&[0xFF, 0xFA, 0x90]), Decoder::Symphonia);
    assert_eq!(select_decoder(&[0xFF, 0xF1, 0x90]), Decoder::Symphonia);
    assert_eq!(select_decoder(&[0x49, 0x44, 0x32, 0x33]), Decoder::Symphonia);
    assert_eq!(select_decoder(&[0x00, 0xFF, 0xFB]), Decoder::Symphonia);
}

#[test]
fn short_headers_go_to_the_general_decoder() {
    assert_eq!(select_decoder(&[]), Decoder::Symphonia);
    assert_eq!(select_decoder(&[0xFF]), Decoder::Symphonia);
    assert_eq!(select_decoder(&[0xFF, 0xFB]), Decoder::Symphonia);
    assert_eq!(select_decoder(&[0x49, 0x44]), Decoder::Symphonia);
}

#[test]
fn zero_padded_read_buffer() {
    let mut buf = [0u8; 8192];
    assert_eq!(select_decoder(&buf), Decoder::Symphonia);
    buf[0] = 0xFF;
    buf[1] = 0xFB;
    assert_eq!(select_decoder(&buf), Decoder::Minimp3);
}

#[test]
fn first_frame_gives_the_format() {
    assert_eq!(stream_format(Some((2, 48000))), (2, 48000));
    assert_eq!(stream_format(Some((6, 8000))), (6, 8000));
    assert_eq!(stream_format(Some((0, 0))), (0, 0));
}

#[test]
fn stream_without_frames_has_the_defaults() {
    assert_eq!(stream_format(None), (1, 44100));
    assert_eq!((DEFAULT_CHANNELS, DEFAULT_SAMPLE_RATE), (1, 44100));
}
