use j2me_kit::media::midi::{parse, MidiError};

fn header(format: u16, tracks: u16, division: u16) -> Vec<u8> {
    let mut bytes = b"MThd".to_vec();
    bytes.extend_from_slice(&6u32.to_be_bytes());
    bytes.extend_from_slice(&format.to_be_bytes());
    bytes.extend_from_slice(&tracks.to_be_bytes());
    bytes.extend_from_slice(&division.to_be_bytes());
    bytes
}

fn track(events: &[u8]) -> Vec<u8> {
    let mut bytes = b"MTrk".to_vec();
    bytes.extend_from_slice(&(events.len() as u32).to_be_bytes());
    bytes.extend_from_slice(events);
    bytes
}

#[test]
fn a_minimal_song_recovers_exact_microsecond_timing() {
    let mut events = vec![
        0x00, 0xff, 0x51, 0x03, 0x07, 0xa1, 0x20, // tempo 500000
        0x00, 0xc0, 42, // program 42
        0x00, 0x90, 60, 100, // note on
    ];
    events.extend_from_slice(&[0x83, 0x60, 0x80, 60, 0]);
    events.extend_from_slice(&[0x00, 0xff, 0x2f, 0x00]);
    let mut bytes = header(0, 1, 480);
    bytes.extend_from_slice(&track(&events));
    let song = parse(&bytes).unwrap();
    assert_eq!(song.notes.len(), 1);
    let note = &song.notes[0];
    assert_eq!(note.key, 60);
    assert_eq!(note.velocity, 100);
    assert_eq!(note.program, 42);
    assert_eq!(note.start_us, 0);
    assert_eq!(note.duration_us, 500_000);
    assert_eq!(song.duration_us, 500_000);
}

#[test]
fn running_status_and_velocity_zero_note_off_work() {
    let events = vec![
        0x00, 0x90, 60, 100, // note on (explicit status)
        0x10, 62, 100, // running status: second note on
        0x10, 60, 0, // running status: velocity-0 off
        0x10, 62, 0, // running status: velocity-0 off
        0x00, 0xff, 0x2f, 0x00,
    ];
    let mut bytes = header(0, 1, 96);
    bytes.extend_from_slice(&track(&events));
    let song = parse(&bytes).unwrap();
    assert_eq!(song.notes.len(), 2);
    assert!(song.notes.iter().all(|note| note.duration_us > 0));
}

#[test]
fn midi_malformed_input_is_rejected_without_panicking() {
    assert_eq!(parse(b""), Err(MidiError::BadHeader));
    assert_eq!(parse(b"RIFFxxxx"), Err(MidiError::BadHeader));
    assert_eq!(parse(&header(2, 0, 96)), Err(MidiError::UnsupportedFormat(2)));
    assert_eq!(parse(&header(1, 0, 0x8000)), Err(MidiError::SmpteDivision));
    assert_eq!(parse(&header(1, 1, 96)), Err(MidiError::BadTrackChunk { track: 0 }));
    let mut overrun = header(1, 1, 96);
    overrun.extend_from_slice(b"MTrk");
    overrun.extend_from_slice(&100u32.to_be_bytes());
    overrun.push(0x00);
    assert_eq!(parse(&overrun), Err(MidiError::BadTrackChunk { track: 0 }));
    let mut truncated = header(1, 1, 96);
    truncated.extend_from_slice(&track(&[0x00, 0x90, 60]));
    assert_eq!(parse(&truncated), Err(MidiError::Truncated { track: 0 }));
    let mut bad_data = header(1, 1, 96);
    bad_data.extend_from_slice(&track(&[0x00, 0x90, 0x90, 0x40]));
    assert!(matches!(parse(&bad_data), Err(MidiError::BadEvent { track: 0, .. })));
    let mut orphan = header(1, 1, 96);
    orphan.extend_from_slice(&track(&[0x00, 0x40, 0x40]));
    assert!(matches!(parse(&orphan), Err(MidiError::BadEvent { track: 0, .. })));
}

#[test]
fn tempo_changes_split_the_time_map_and_notes_sort_by_start() {
    // Two tracks at 100 ticks per quarter. Track 0 doubles the tempo at tick
    // 100; track 1 holds two notes on channel 1 and one on channel 0.
    let tempo_track = vec![
        0x00, 0xff, 0x51, 0x03, 0x07, 0xa1, 0x20, // 500000 us per quarter at tick 0
        0x64, 0xff, 0x51, 0x03, 0x03, 0xd0, 0x90, // 250000 us per quarter at tick 100
        0x00, 0xff, 0x2f, 0x00,
    ];
    let note_track = vec![
        0x00, 0xc1, 5, // program 5 on channel 1
        0x00, 0x91, 64, 90, // channel 1 note on at tick 0
        0x00, 0x90, 40, 80, // channel 0 note on at tick 0
        0x81, 0x48, 0x81, 64, 0, // channel 1 note off at tick 200
        0x00, 0x80, 40, 0, // channel 0 note off at tick 200
    ];
    let mut bytes = header(1, 2, 100);
    bytes.extend_from_slice(&track(&tempo_track));
    bytes.extend_from_slice(&track(&note_track));
    let song = parse(&bytes).unwrap();
    assert_eq!(song.format, 1);
    assert_eq!(song.track_count, 2);
    assert_eq!(song.ticks_per_quarter, 100);
    assert_eq!(song.notes.len(), 2);
    // 100 ticks at 500000 us, then 100 ticks at 250000 us.
    assert_eq!(song.notes[0].channel, 0);
    assert_eq!(song.notes[0].program, 0);
    assert_eq!(song.notes[0].duration_us, 750_000);
    assert_eq!(song.notes[1].channel, 1);
    assert_eq!(song.notes[1].program, 5);
    assert_eq!(song.notes[1].velocity, 90);
    assert_eq!(song.duration_us, 750_000);
}

#[test]
fn unterminated_notes_end_with_the_song() {
    let events = vec![
        0x00, 0x90, 60, 100, // note on at 0
        0x60, 0x90, 62, 100, // note on at 96
        0x60, 0xb0, 7, 100, // controller at 192: not an event the notes read
    ];
    let mut bytes = header(0, 1, 96);
    bytes.extend_from_slice(&track(&events));
    let song = parse(&bytes).unwrap();
    assert_eq!(song.notes.len(), 2);
    // Open notes end at the last note-list event's tick, 96.
    assert_eq!(song.notes[0].start_us, 0);
    assert_eq!(song.notes[0].duration_us, 500_000);
    assert_eq!(song.notes[1].start_us, 500_000);
    assert_eq!(song.notes[1].duration_us, 0);
    assert_eq!(song.duration_us, 500_000);
}

#[test]
fn midi_error_messages_name_the_track() {
    assert_eq!(MidiError::BadHeader.message(), "not a standard MIDI file (bad MThd)");
    assert_eq!(MidiError::UnsupportedFormat(2).message(), "SMF format 2 is not supported");
    assert_eq!(MidiError::SmpteDivision.message(), "SMPTE division is not supported");
    assert_eq!(MidiError::BadTrackChunk { track: 3 }.message(), "track 3 has a malformed chunk");
    assert_eq!(MidiError::Truncated { track: 0 }.message(), "track 0 is truncated");
    assert_eq!(MidiError::BadEvent { track: 1, offset: 40 }.message(), "track 1 has a malformed event at 40");
    let mut long = header(0, 1, 96);
    long.extend_from_slice(&track(&[0xff, 0xff, 0xff, 0xff, 0x00]));
    assert_eq!(parse(&long), Err(MidiError::BadEvent { track: 0, offset: 26 }));
}
