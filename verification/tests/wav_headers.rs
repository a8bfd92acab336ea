use notes_cf::wav::{build_chunk_wav, parse_wav_header, WavError, WavHeaders};

fn le32(v: u32) -> [u8; 4] {
    v.to_le_bytes()
}

fn fmt_chunk(channels: u16, bits: u16) -> Vec<u8> {
    let mut c = Vec::new();
    c.extend_from_slice(b"fmt ");
    c.extend_from_slice(&le32(16));
    c.extend_from_slice(&1u16.to_le_bytes());
    c.extend_from_slice(&channels.to_le_bytes());
    c.extend_from_slice(&16000u32.to_le_bytes());
    c.extend_from_slice(&(16000u32 * 2).to_le_bytes());
    c.extend_from_slice(&2u16.to_le_bytes());
    c.extend_from_slice(&bits.to_le_bytes());
    c
}

fn simple_wav(audio: &[u8]) -> Vec<u8> {
    let mut w = Vec::new();
    w.extend_from_slice(b"RIFF");
    w.extend_from_slice(&le32((36 + audio.len()) as u32));
    w.extend_from_slice(b"WAVE");
    w.extend_from_slice(&fmt_chunk(1, 16));
    w.extend_from_slice(b"data");
    w.extend_from_slice(&le32(audio.len() as u32));
    w.extend_from_slice(audio);
    w
}

#[test]
fn parses_canonical_header() {
    let w = simple_wav(&[1, 2, 3, 4]);
    let h = parse_wav_header(&w).unwrap();
    assert_eq!(h.offset, 44);
    assert_eq!(h.size, 4);
    assert_eq!(h.data_size_pos, 40);
    assert_eq!(h.num_channels, 1);
    assert_eq!(h.bits_per_sample, 16);
    assert_eq!(h.headers, w[..44].to_vec());
}

#[test]
fn skips_other_chunks_and_zero_padding() {
    let mut w = Vec::new();
    w.extend_from_slice(b"RIFF");
    w.extend_from_slice(&le32(0));
    w.extend_from_slice(b"WAVE");
    w.extend_from_slice(b"LIST");
    w.extend_from_slice(&le32(3));
    w.extend_from_slice(&[7, 8, 9, 0, 0, 0]);
    w.extend_from_slice(&fmt_chunk(2, 24));
    w.extend_from_slice(b"data");
    w.extend_from_slice(&le32(100));
    w.extend_from_slice(&[5; 10]);
    let h = parse_wav_header(&w).unwrap();
    assert_eq!(h.offset, 12 + 8 + 3 + 3 + 24 + 8);
    assert_eq!(h.size, 100);
    assert_eq!(h.num_channels, 2);
    assert_eq!(h.bits_per_sample, 24);
}

#[test]
fn odd_fmt_chunk_skips_one_pad_byte() {
    let mut w = Vec::new();
    w.extend_from_slice(b"RIFF");
    w.extend_from_slice(&le32(0));
    w.extend_from_slice(b"WAVE");
    let mut f = fmt_chunk(1, 8);
    f[4] = 17;
    w.extend_from_slice(&f);
    w.push(0xAA);
    w.push(0x00);
    w.extend_from_slice(b"data");
    w.extend_from_slice(&le32(0));
    let h = parse_wav_header(&w).unwrap();
    assert_eq!(h.offset, 12 + 8 + 17 + 1 + 8);
    assert_eq!(h.size, 0);
}

#[test]
fn wav_errors() {
    assert_eq!(parse_wav_header(b"RIF"), Err(WavError::RiffStart));
    assert_eq!(parse_wav_header(b"RIFX\0\0\0\0WAVE"), Err(WavError::NotRiff));
    assert_eq!(parse_wav_header(b"RIFF\0\0\0\0WAVE"), Err(WavError::ReadId));
    assert_eq!(parse_wav_header(b"RIFF\0\0\0\0WAVEdata\x04\0"), Err(WavError::ReadSize));
    let mut w = Vec::new();
    w.extend_from_slice(b"RIFF\0\0\0\0WAVE");
    w.extend_from_slice(&fmt_chunk(1, 16)[..20]);
    assert_eq!(parse_wav_header(&w), Err(WavError::FmtChunk));
    let mut f = fmt_chunk(1, 16);
    f[8] = 3;
    let mut w = Vec::new();
    w.extend_from_slice(b"RIFF\0\0\0\0WAVE");
    w.extend_from_slice(&f);
    assert_eq!(parse_wav_header(&w), Err(WavError::NotPcm));
    let mut w = Vec::new();
    w.extend_from_slice(b"RIFF\0\0\0\0WAVEfmt ");
    w.extend_from_slice(&le32(4));
    w.extend_from_slice(&[1, 0, 1, 0]);
    assert_eq!(parse_wav_header(&w), Err(WavError::FmtTooShort));
    let mut w = Vec::new();
    w.extend_from_slice(b"RIFF\0\0\0\0WAVEfmt ");
    w.extend_from_slice(&le32(1));
    w.extend_from_slice(&[1, 0]);
    assert_eq!(parse_wav_header(&w), Err(WavError::FmtTooShort));
    let mut w = Vec::new();
    w.extend_from_slice(b"RIFF\0\0\0\0WAVEJUNK");
    w.extend_from_slice(&le32(1000));
    assert_eq!(parse_wav_header(&w), Err(WavError::ReadId));
}

#[test]
fn chunk_wav_sets_both_sizes() {
    let w = simple_wav(&[0; 8]);
    let h: WavHeaders = parse_wav_header(&w).unwrap();
    let audio = [9u8, 8, 7, 6, 5, 4];
    let out = build_chunk_wav(&h.headers, h.data_size_pos, &audio);
    assert_eq!(out.len(), 44 + 6);
    assert_eq!(&out[4..8], &le32(44 + 6 - 8));
    assert_eq!(&out[40..44], &le32(6));
    assert_eq!(&out[44..], &audio);
    assert_eq!(&out[..4], b"RIFF");
    let again = parse_wav_header(&out).unwrap();
    assert_eq!(again.offset, h.offset);
    assert_eq!(again.size, 6);
    assert_eq!(again.num_channels, h.num_channels);
    assert_eq!(again.bits_per_sample, h.bits_per_sample);
}

#[test]
fn chunk_wav_without_room_for_data_size() {
    let header = [82u8, 73, 70, 70, 0, 0, 0, 0, 1, 2];
    let out = build_chunk_wav(&header, 8, &[3]);
    assert_eq!(out, vec![82, 73, 70, 70, 3, 0, 0, 0, 1, 2, 3]);
}

#[test]
fn error_messages() {
    assert_eq!(WavError::RiffStart.message(), "Failed to get riff start.");
    assert_eq!(WavError::NotRiff.message(), "Not a riff file");
    assert_eq!(WavError::ReadId.message(), "Failed to read id: failed to fill whole buffer");
    assert_eq!(WavError::ReadSize.message(), "Failed to read size.");
    assert_eq!(WavError::FmtChunk.message(), "Failed to get fmt chunk.");
    assert_eq!(WavError::NotPcm.message(), "Only PCM WAV is supported");
}
