use j2me_kit::media::amr::fixed::{
    add, div_s, l_add, l_mac, l_msu, l_mult, l_shl, l_shr, l_shr_r, l_sub, mult, mult_r, negate, norm_l, norm_s,
    round16, shl, shr, sub,
};
use j2me_kit::media::amr::{parse, AmrError};

const MAGIC: &[u8] = b"#!AMR\n";

fn frame(frame_type: u8, payload: &[u8]) -> Vec<u8> {
    let mut bytes = vec![(frame_type << 3) | 0x04];
    bytes.extend_from_slice(payload);
    bytes
}

fn blob(frames: &[Vec<u8>]) -> Vec<u8> {
    let mut bytes = MAGIC.to_vec();
    for frame in frames {
        bytes.extend_from_slice(frame);
    }
    bytes
}

#[test]
fn saturation_follows_the_reference_and_never_panics() {
    assert_eq!(add(32767, 1), 32767);
    assert_eq!(add(-32768, -1), -32768);
    assert_eq!(sub(-32768, 1), -32768);
    assert_eq!(negate(-32768), 32767);
    assert_eq!(mult(-32768, -32768), 32767);
    assert_eq!(mult(-32768, 32767), -32767);
    assert_eq!(l_mult(-32768, -32768), i32::MAX);
    assert_eq!(l_mult(16384, 16384), 0x2000_0000);
    assert_eq!(l_add(i32::MAX, 1), i32::MAX);
    assert_eq!(l_sub(i32::MIN, 1), i32::MIN);
}

#[test]
fn the_shift_operators_keep_the_references_edge_cases() {
    assert_eq!(l_shr(-1, 31), 0);
    assert_eq!(l_shr(-1, 30), -1);
    assert_eq!(l_shr(-4, 1), -2);
    assert_eq!(l_shl(1 << 30, 2), i32::MAX);
    assert_eq!(l_shl(-(1 << 30), 2), i32::MIN);
    assert_eq!(l_shl(8, -2), 2);
    assert_eq!(shl(16384, 2), i16::MAX);
    assert_eq!(shl(-16384, 2), i16::MIN);
    assert_eq!(shr(-8, 2), -2);
    assert_eq!(l_shr_r(3, 1), 2);
    assert_eq!(l_shr_r(1, 1), 1);
    assert_eq!(l_shr_r(1, 32), 0);
}

#[test]
fn normalisation_and_division_match_the_reference_loops() {
    assert_eq!(norm_l(0), 0);
    assert_eq!(norm_l(1), 30);
    assert_eq!(norm_l(-1), 30);
    assert_eq!(norm_l(1 << 30), 0);
    assert_eq!(norm_s(0), 0);
    assert_eq!(norm_s(1), 14);
    assert_eq!(norm_s(1 << 14), 0);
    assert_eq!(div_s(0, 1), 0);
    assert_eq!(div_s(5, 5), i16::MAX);
    assert_eq!(div_s(6, 5), 0);
    assert_eq!(div_s(-1, 5), 0);
    assert_eq!(div_s(1, 2), 16384);
}

#[test]
fn rounding_operators_round_half_up() {
    assert_eq!(mult_r(16384, 16384), 8192);
    assert_eq!(mult_r(-32768, -32768), 32767);
    assert_eq!(mult_r(1, 16384), 1);
    assert_eq!(mult_r(-1, 16384), 0);
    assert_eq!(round16(0x0001_8000), 2);
    assert_eq!(round16(0x0001_7fff), 1);
    assert_eq!(round16(i32::MAX), 32767);
    assert_eq!(round16(-0x0001_8000), -1);
    assert_eq!(l_mac(1, 2, 3), 13);
    assert_eq!(l_msu(1, 2, 3), -11);
    assert_eq!(l_mac(i32::MAX, 1, 1), i32::MAX);
    assert_eq!(l_shr_r(-3, 1), -1);
    assert_eq!(l_shr_r(-1, 31), 1);
    assert_eq!(l_shr(5, -40), i32::MAX);
    assert_eq!(l_shl(0, 40), 0);
    assert_eq!(l_shl(-5, -31), 0);
    assert_eq!(shr(1, -20), i16::MAX);
    assert_eq!(shl(-32768, -40), -1);
    assert_eq!(div_s(1, 3), 10922);
    assert_eq!(norm_l(-(1 << 30)), 0);
    assert_eq!(norm_s(-16384), 0);
}

#[test]
fn a_synthetic_mr122_stream_parses_with_exact_timing() {
    let bytes = blob(&[frame(7, &[0u8; 31]), frame(7, &[1u8; 31])]);
    let track = parse(&bytes).unwrap();
    assert_eq!(track.frames.len(), 2);
    assert_eq!(track.duration_millis(), 40);
    assert_eq!(track.uniform_mode(), Some(7));
    assert!(track.frames.iter().all(|frame| frame.quality_ok));
}

#[test]
fn every_speech_mode_and_no_data_parse() {
    let sizes = [12, 13, 15, 17, 19, 20, 26, 31, 5, 0];
    let types = [0u8, 1, 2, 3, 4, 5, 6, 7, 8, 15];
    let frames: Vec<Vec<u8>> =
        types.iter().zip(sizes).map(|(&frame_type, size)| frame(frame_type, &vec![0u8; size])).collect();
    let track = parse(&blob(&frames)).unwrap();
    assert_eq!(track.frames.len(), 10);
    assert_eq!(track.uniform_mode(), None);
}

#[test]
fn mod_malformed_input_is_rejected_without_panicking() {
    assert_eq!(parse(b""), Err(AmrError::BadMagic));
    assert_eq!(parse(b"#!AMR"), Err(AmrError::BadMagic));
    assert_eq!(parse(b"RIFF...."), Err(AmrError::BadMagic));
    assert_eq!(parse(MAGIC), Err(AmrError::Empty));
    assert_eq!(
        parse(&blob(&[frame(9, &[0u8; 4])])),
        Err(AmrError::BadFrameHeader { offset: 6, octet: (9 << 3) | 0x04 })
    );
    let mut padded = MAGIC.to_vec();
    padded.push(0x81);
    assert_eq!(parse(&padded), Err(AmrError::BadFrameHeader { offset: 6, octet: 0x81 }));
    assert_eq!(parse(&blob(&[frame(7, &[0u8; 30])])), Err(AmrError::Truncated { offset: 6, frame_type: 7 }));
}

#[test]
fn amr_frames_keep_payload_and_quality_bits() {
    let mut bytes = MAGIC.to_vec();
    bytes.push(8 << 3);
    bytes.extend_from_slice(&[1, 2, 3, 4, 5]);
    bytes.push((15 << 3) | 0x04);
    let track = parse(&bytes).unwrap();
    assert_eq!(track.frames[0].frame_type, 8);
    assert!(!track.frames[0].quality_ok);
    assert_eq!(track.frames[0].payload, vec![1, 2, 3, 4, 5]);
    assert_eq!(track.frames[1].frame_type, 15);
    assert!(track.frames[1].payload.is_empty());
    assert_eq!(track.duration_millis(), 40);
    assert_eq!(parse(&blob(&[frame(7, &[0u8; 31]), vec![0x3c]])), Err(AmrError::Truncated { offset: 38, frame_type: 7 }));
}

#[test]
fn amr_error_messages_name_the_problem() {
    assert_eq!(AmrError::BadMagic.message(), "not an AMR-NB storage blob (bad magic)");
    assert_eq!(AmrError::Empty.message(), "AMR-NB blob has no frames");
    assert_eq!(AmrError::BadFrameHeader { offset: 6, octet: 0x4c }.message(), "invalid AMR frame header 0x4c at offset 6");
    assert_eq!(AmrError::BadFrameHeader { offset: 9, octet: 0x01 }.message(), "invalid AMR frame header 0x01 at offset 9");
    assert_eq!(
        AmrError::Truncated { offset: 38, frame_type: 7 }.message(),
        "AMR frame (type 7) at offset 38 is truncated"
    );
    assert_eq!(
        AmrError::UnsupportedMode { frame: 2, frame_type: 0 }.message(),
        "AMR frame 2 uses frame type 0; only MR122 (type 7, 12.2 kbit/s) is decoded"
    );
}

#[test]
fn decoding_refuses_other_rates_by_name() {
    let track = parse(&blob(&[frame(7, &[0; 31]), frame(7, &[0; 31])])).unwrap();
    assert_eq!(track.unsupported_frame(), None);
    let track = parse(&blob(&[frame(7, &[0; 31]), frame(0, &[0; 12]), frame(4, &[0; 19])])).unwrap();
    assert_eq!(track.unsupported_frame(), Some(AmrError::UnsupportedMode { frame: 1, frame_type: 0 }));
}
