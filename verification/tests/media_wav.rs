use j2me_kit::media::wav::decode_pcm16;

fn wav(fmt: &[u8], data: &[u8]) -> Vec<u8> {
    let mut bytes = b"RIFF".to_vec();
    bytes.extend_from_slice(&(4 + 8 + fmt.len() as u32 + 8 + data.len() as u32).to_le_bytes());
    bytes.extend_from_slice(b"WAVE");
    bytes.extend_from_slice(b"fmt ");
    bytes.extend_from_slice(&(fmt.len() as u32).to_le_bytes());
    bytes.extend_from_slice(fmt);
    bytes.extend_from_slice(b"data");
    bytes.extend_from_slice(&(data.len() as u32).to_le_bytes());
    bytes.extend_from_slice(data);
    bytes
}

fn format(encoding: u16, channels: u16, rate: u32, bits: u16) -> Vec<u8> {
    let mut f = Vec::new();
    f.extend_from_slice(&encoding.to_le_bytes());
    f.extend_from_slice(&channels.to_le_bytes());
    f.extend_from_slice(&rate.to_le_bytes());
    f.extend_from_slice(&(rate * 2).to_le_bytes());
    f.extend_from_slice(&2u16.to_le_bytes());
    f.extend_from_slice(&bits.to_le_bytes());
    f
}

#[test]
fn malformed_wav_is_rejected() {
    assert!(decode_pcm16(b"not a wave", "test asset").is_err());
}

#[test]
fn mono_pcm16_decodes_to_signed_samples() {
    let bytes = wav(&format(1, 1, 8000, 16), &[0x00, 0x80, 0xff, 0x7f, 0x01, 0x00]);
    assert_eq!(decode_pcm16(&bytes, "tone"), Ok((vec![-32768, 32767, 1], 8000)));
}

#[test]
fn wav_refusals_name_the_problem() {
    assert_eq!(decode_pcm16(b"RIFF0000WAVX", "a").unwrap_err(), "a is not a RIFF/WAVE file");
    assert_eq!(
        decode_pcm16(&wav(&format(1, 2, 8000, 16), &[0, 0]), "b").unwrap_err(),
        "b WAV must be mono PCM16, got encoding 1, channels 2, 16 bits"
    );
    assert_eq!(decode_pcm16(&wav(&format(1, 1, 8000, 16), &[0]), "c").unwrap_err(), "c WAV data has a partial PCM16 sample");
    assert_eq!(decode_pcm16(&wav(&[1, 0, 1, 0], &[]), "d").unwrap_err(), "d WAV fmt chunk is truncated");
    let mut no_data = b"RIFF\0\0\0\0WAVE".to_vec();
    no_data.extend_from_slice(b"fmt ");
    no_data.extend_from_slice(&16u32.to_le_bytes());
    no_data.extend_from_slice(&format(1, 1, 8000, 16));
    assert_eq!(decode_pcm16(&no_data, "e").unwrap_err(), "e WAV has no data chunk");
    let mut truncated = b"RIFF\0\0\0\0WAVE".to_vec();
    truncated.extend_from_slice(b"data");
    truncated.extend_from_slice(&100u32.to_le_bytes());
    assert_eq!(decode_pcm16(&truncated, "f").unwrap_err(), "f WAV chunk is truncated");
    assert_eq!(decode_pcm16(b"RIFF\0\0\0\0WAVE", "g").unwrap_err(), "g WAV has no fmt chunk");
}
