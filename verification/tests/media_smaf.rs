use j2me_kit::media::error::Error;
use j2me_kit::media::smaf::{
    crc16, initial_percussion, parse, parse_sequence, time_base_ms, to_approximate_smf, write_event, Controller, EventKind,
};

fn sample_file() -> Vec<u8> {
    let sequence = [
        0x00, 0x00, 0x30, 0x28, // program 40
        0x00, 0x34, 0x20, // note, gate 32
        0x10, 0x00, 0x00, 0x00, // end after 16 units
    ];
    let mut track = vec![0, 0, 2, 2, 0x80, 0x80];
    track.extend_from_slice(b"Mtsq");
    track.extend_from_slice(&(sequence.len() as u32).to_be_bytes());
    track.extend_from_slice(&sequence);
    let contents = [0, 0, 1, 0, 0, b'S', b'T', b':', b'T', b'e', b's', b't', b','];
    let mut file = b"MMMD\0\0\0\0".to_vec();
    file.extend_from_slice(b"CNTI");
    file.extend_from_slice(&(contents.len() as u32).to_be_bytes());
    file.extend_from_slice(&contents);
    file.extend_from_slice(b"MTR\x01");
    file.extend_from_slice(&(track.len() as u32).to_be_bytes());
    file.extend_from_slice(&track);
    let declared = (file.len() + 2 - 8) as u32;
    file[4..8].copy_from_slice(&declared.to_be_bytes());
    let checksum = crc16(&file);
    file.extend_from_slice(&checksum.to_be_bytes());
    file.extend_from_slice(&[0x1d, 0x0f]);
    file
}

#[test]
fn crc16_is_the_complemented_ccitt_register() {
    assert_eq!(crc16(b""), 0x0000);
    assert_eq!(crc16(b"123456789"), 0xd64e);
    assert_ne!(crc16(b"123456789"), crc16(b"123456788"));
}

#[test]
fn time_base_codes_map_to_milliseconds() {
    assert_eq!(time_base_ms(0x00), Some(1));
    assert_eq!(time_base_ms(0x03), Some(5));
    assert_eq!(time_base_ms(0x10), Some(10));
    assert_eq!(time_base_ms(0x13), Some(50));
    assert_eq!(time_base_ms(0x04), None);
    assert_eq!(time_base_ms(0xff), None);
}

#[test]
fn parses_handset_score_and_metadata() {
    let file = parse(&sample_file()).unwrap();
    assert_eq!(file.trailer, [0x1d, 0x0f]);
    assert_eq!(file.contents.unwrap().tags[0].value, "Test");
    assert_eq!(file.tracks.len(), 1);
    assert_eq!(file.tracks[0].note_count(), 1);
    assert_eq!(file.tracks[0].duration_ms(), Some(128));
}

#[test]
fn rejects_checksum_damage() {
    let mut data = sample_file();
    data[20] ^= 1;
    assert!(matches!(parse(&data), Err(Error::ChecksumMismatch { .. })));
}

#[test]
fn emits_standard_midi_container() {
    let file = parse(&sample_file()).unwrap();
    let midi = file.to_approximate_smf().unwrap();
    assert_eq!(&midi[..4], b"MThd");
    assert_eq!(u16::from_be_bytes(midi[10..12].try_into().unwrap()), 2);
    assert!(midi.windows(4).any(|bytes| bytes == b"MTrk"));
    assert!(midi.windows(3).any(|bytes| bytes == [0x90, 76, 127]));
}

#[test]
fn approximation_needs_a_handset_track() {
    let mut file = parse(&sample_file()).unwrap();
    file.tracks[0].format_type = 1;
    assert_eq!(
        to_approximate_smf(&file),
        Err(Error::InvalidValue { offset: 0, field: "convertible SMAF score track count", value: 0 })
    );
    let mut file = parse(&sample_file()).unwrap();
    file.tracks[0].duration_time_base_ms = None;
    let offset = file.tracks[0].offset;
    assert_eq!(
        file.to_approximate_smf(),
        Err(Error::InvalidValue { offset: offset + 10, field: "SMAF duration time base", value: 2 })
    );
}

#[test]
fn approximation_tracks_carry_notes_at_millisecond_ticks() {
    let file = parse(&sample_file()).unwrap();
    let midi = to_approximate_smf(&file).unwrap();
    assert_eq!(&midi[12..14], &[0x03, 0xe8]);
    // Score pitch 40 (octave 3, note 4) sounds 36 semitones up, on MIDI channel 0.
    assert!(midi.windows(3).any(|bytes| bytes == [0x80, 76, 0]));
    assert!(midi.windows(2).any(|bytes| bytes == [0xc0, 40]));
    assert!(midi.ends_with(&[0xff, 0x2f, 0x00]));
}

#[test]
fn recovers_default_and_explicit_rhythm_channels() {
    assert!(!initial_percussion(0, &[0x80, 0x80], 1));
    assert!(initial_percussion(2, &[0x80, 0x80], 1));
    assert!(initial_percussion(0, &[0xb0, 0x80], 0));
    assert!(!initial_percussion(2, &[0x90, 0x80], 0));
}

#[test]
fn sequence_events_decode_with_their_offsets() {
    let events = parse_sequence(&[0x00, 0x00, 0x30, 0x28, 0x00, 0x34, 0x20, 0x81, 0x05, 0x00, 0x24, 0x00, 0x00, 0x01], 100).unwrap();
    assert_eq!(events.len(), 4);
    assert_eq!(events[0].offset, 100);
    assert_eq!(events[0].kind, EventKind::ProgramChange { channel: 0, program: 0x28 });
    assert_eq!(events[1].kind, EventKind::Note { channel: 0, octave: 3, note: 4, pitch: 40, gate: 32 });
    assert_eq!(events[2].delta, 256 | 5);
    assert_eq!(events[2].offset, 107);
    assert_eq!(
        events[2].kind,
        EventKind::ControlChange { channel: 0, controller: Controller::Modulation, value: 24, compact_selector: Some(4) }
    );
    assert_eq!(events[3].kind, EventKind::ControlChange {
        channel: 0,
        controller: Controller::Expression,
        value: 0,
        compact_selector: Some(1)
    });
    assert!(matches!(events[3].kind.channel(), Some(0)));
}

#[test]
fn sequence_refusals_name_offsets() {
    assert_eq!(
        parse_sequence(&[0x00, 0xff, 0x7e], 10),
        Err(Error::InvalidValue { offset: 12, field: "Handy Phone 0xff event", value: 0x7e })
    );
    assert_eq!(parse_sequence(&[0x85], 0), Err(Error::UnexpectedEof { offset: 1, needed: 1, remaining: 0 }));
    assert_eq!(
        parse_sequence(&[0x00, 0xff, 0xf0, 0x05, 1, 2], 0),
        Err(Error::UnexpectedEof { offset: 4, needed: 5, remaining: 2 })
    );
}

#[test]
fn written_events_read_back() {
    let bytes = [0x00, 0x00, 0x30, 0x28, 0x00, 0x34, 0x20, 0x81, 0x05, 0x00, 0x24, 0x10, 0x00, 0x00, 0x00];
    let events = parse_sequence(&bytes, 0).unwrap();
    let mut out = Vec::new();
    for event in &events {
        write_event(&mut out, event);
    }
    assert_eq!(out, bytes);
}

#[test]
fn bad_header_and_short_files_are_refused() {
    assert_eq!(parse(b"MMM"), Err(Error::UnexpectedEof { offset: 0, needed: 4, remaining: 3 }));
    assert_eq!(parse(b"RIFF\0\0\0\0"), Err(Error::InvalidMagic { format: "SMAF" }));
    assert_eq!(
        parse(b"MMMD\0\0\0\x01"),
        Err(Error::InvalidValue { offset: 4, field: "MMMD length", value: 1 })
    );
}

#[test]
fn writes_parsed_files_back_byte_for_byte() {
    let data = sample_file();
    let file = parse(&data).unwrap();
    assert_eq!(j2me_kit::media::smaf::write(&file), data);
}
