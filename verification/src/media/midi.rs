//! Bounded Standard MIDI File parsing.
//!
//! The parser recovers what Java ME playback adapters need: an
//! absolute-microsecond note list with per-note program numbers and the
//! tempo map applied. Malformed or truncated input is rejected; SMPTE
//! divisions and format 2 are refused rather than guessed at.
//!
//! Reading goes in stages, each stated as a spec function: the byte-level
//! scan of the tracks into timed events, a stable sort of the events by
//! tick, the tempo map, the pairing of note-ons with note-offs, and a stable
//! sort of the notes by start time, channel and key.

use vstd::prelude::*;
use crate::codec::{be16, be32};
use crate::text::{decimal_spec, with_count};

verus! {

/// One sounding note, in absolute microseconds from the song start.
#[derive(Debug, Clone, PartialEq, Eq)]
pub struct MidiNote {
    pub start_us: u64,
    pub duration_us: u64,
    /// MIDI channel 0..=15; channel 9 is percussion.
    pub channel: u8,
    /// Key number 0..=127.
    pub key: u8,
    /// Note-on velocity 1..=127.
    pub velocity: u8,
    /// The General MIDI program active on the channel at note-on (0 when
    /// none was set).
    pub program: u8,
}

/// A parsed song: the note list plus its structural timing facts.
#[derive(Debug, Clone, PartialEq, Eq)]
pub struct MidiSong {
    pub format: u16,
    pub track_count: u16,
    pub ticks_per_quarter: u16,
    /// Notes ordered by start time, then channel, then key.
    pub notes: Vec<MidiNote>,
    /// The end of the last note.
    pub duration_us: u64,
}

#[derive(Debug, Clone, PartialEq, Eq, Structural)]
pub enum MidiError {
    /// Missing or malformed `MThd` header (including zero divisions).
    BadHeader,
    /// Format 2 (independent patterns) is refused.
    UnsupportedFormat(u16),
    /// SMPTE divisions are refused.
    SmpteDivision,
    /// A track chunk is missing its `MTrk` magic or its length overruns.
    BadTrackChunk { track: u16 },
    /// An event ran past the end of its track chunk.
    Truncated { track: u16 },
    /// A data byte carried the status bit, or an event had no running
    /// status to inherit.
    BadEvent { track: u16, offset: usize },
}

/// The text of an error.
pub open spec fn midi_error_text(e: MidiError) -> Seq<char> {
    match e {
        MidiError::BadHeader => "not a standard MIDI file (bad MThd)"@,
        MidiError::UnsupportedFormat(format) => "SMF format "@ + decimal_spec(format as int) + " is not supported"@,
        MidiError::SmpteDivision => "SMPTE division is not supported"@,
        MidiError::BadTrackChunk { track } => "track "@ + decimal_spec(track as int) + " has a malformed chunk"@,
        MidiError::Truncated { track } => "track "@ + decimal_spec(track as int) + " is truncated"@,
        MidiError::BadEvent { track, offset } => "track "@ + decimal_spec(track as int)
            + " has a malformed event at "@ + decimal_spec(offset as int),
    }
}

impl MidiError {
    /// The error's text, as its display form gives it.
    pub fn message(&self) -> (r: String)
        ensures
            r@ == midi_error_text(*self),
    {
        match self {
            MidiError::BadHeader => String::from_str("not a standard MIDI file (bad MThd)"),
            MidiError::UnsupportedFormat(format) => {
                let mut m = with_count("SMF format ", *format as u64);
                m.append(" is not supported");
                m
            },
            MidiError::SmpteDivision => String::from_str("SMPTE division is not supported"),
            MidiError::BadTrackChunk { track } => {
                let mut m = with_count("track ", *track as u64);
                m.append(" has a malformed chunk");
                m
            },
            MidiError::Truncated { track } => {
                let mut m = with_count("track ", *track as u64);
                m.append(" is truncated");
                m
            },
            MidiError::BadEvent { track, offset } => {
                let mut m = with_count("track ", *track as u64);
                let tail = with_count(" has a malformed event at ", *offset as u64);
                m.append(tail.as_str());
                assert(m@ =~= midi_error_text(*self));
                m
            },
        }
    }
}

/// The events the note list is built from.
#[derive(Debug, Clone, Copy, PartialEq, Eq, Structural)]
pub enum TrackEvent {
    NoteOn { channel: u8, key: u8, velocity: u8 },
    NoteOff { channel: u8, key: u8 },
    Program { channel: u8, program: u8 },
    Tempo { us_per_quarter: u32 },
}

/// An event at its absolute tick.
pub type Timed = (int, TrackEvent);

// ---------------------------------------------------------------- the byte level

/// A variable-length quantity read from `pos`, continuing `value` after
/// `count` bytes: its value and where it ends. More than four bytes is a
/// bad event; running into `end` is a truncation.
pub open spec fn vlq_from(b: Seq<u8>, end: int, pos: int, value: int, count: nat, track: u16) -> Result<
    (int, int),
    MidiError,
>
    decreases 4 - count,
{
    if count >= 4 {
        Err(MidiError::BadEvent { track, offset: pos as usize })
    } else if pos < 0 || pos >= end {
        Err(MidiError::Truncated { track })
    } else {
        let byte = b[pos];
        let v = value * 128 + byte % 128;
        if byte < 128 {
            Ok((v, pos + 1))
        } else {
            vlq_from(b, end, pos + 1, v, count + 1, track)
        }
    }
}

/// A data byte at `pos`: one without the status bit.
pub open spec fn data_at(b: Seq<u8>, end: int, pos: int, track: u16) -> Result<u8, MidiError> {
    if pos < 0 || pos >= end {
        Err(MidiError::Truncated { track })
    } else if b[pos] >= 128 {
        Err(MidiError::BadEvent { track, offset: pos as usize })
    } else {
        Ok(b[pos])
    }
}

/// What one event leaves: where the next one starts, the tick, the running
/// status, and the event the note list needs, if it is one.
pub type Step = (int, int, Option<u8>, Option<TrackEvent>);

/// The channel message with status `status`, its data starting at `p`.
pub open spec fn channel_message(b: Seq<u8>, end: int, p: int, tick: int, status: u8, track: u16) -> Result<
    Step,
    MidiError,
> {
    let channel = (status % 16) as u8;
    let kind = status / 16;
    if kind == 0x8 || kind == 0x9 || kind == 0xa || kind == 0xb || kind == 0xe {
        match data_at(b, end, p, track) {
            Err(e) => Err(e),
            Ok(first) => match data_at(b, end, p + 1, track) {
                Err(e) => Err(e),
                Ok(second) => {
                    let event = if kind == 0x8 || (kind == 0x9 && second == 0) {
                        Some(TrackEvent::NoteOff { channel, key: first })
                    } else if kind == 0x9 {
                        Some(TrackEvent::NoteOn { channel, key: first, velocity: second })
                    } else {
                        None
                    };
                    Ok((p + 2, tick, Some(status), event))
                },
            },
        }
    } else {
        match data_at(b, end, p, track) {
            Err(e) => Err(e),
            Ok(first) => Ok(
                (
                    p + 1,
                    tick,
                    Some(status),
                    if kind == 0xc {
                        Some(TrackEvent::Program { channel, program: first })
                    } else {
                        None
                    },
                ),
            ),
        }
    }
}

/// The event at `pos`, after `tick` and with running status `running`.
pub open spec fn event_at(b: Seq<u8>, end: int, pos: int, tick: int, running: Option<u8>, track: u16) -> Result<
    Step,
    MidiError,
> {
    match vlq_from(b, end, pos, 0, 0, track) {
        Err(e) => Err(e),
        Ok((delta, p1)) => {
            let t = tick + delta;
            if p1 >= end {
                Err(MidiError::Truncated { track })
            } else {
                let lead = b[p1];
                if lead < 128 && running is None {
                    Err(MidiError::BadEvent { track, offset: p1 as usize })
                } else {
                    let status = if lead >= 128 { lead } else { running->0 };
                    let p2 = if lead >= 128 { p1 + 1 } else { p1 };
                    if status == 0xff {
                        if p2 >= end {
                            Err(MidiError::Truncated { track })
                        } else {
                            let meta = b[p2];
                            match vlq_from(b, end, p2 + 1, 0, 0, track) {
                                Err(e) => Err(e),
                                Ok((len, p3)) => if p3 + len > end {
                                    Err(MidiError::Truncated { track })
                                } else if meta == 0x51 && len == 3 {
                                    Ok(
                                        (
                                            p3 + 3,
                                            t,
                                            None,
                                            Some(
                                                TrackEvent::Tempo {
                                                    us_per_quarter: (b[p3] * 0x10000 + b[p3 + 1] * 0x100 + b[p3
                                                        + 2]) as u32,
                                                },
                                            ),
                                        ),
                                    )
                                } else {
                                    Ok((p3 + len, t, None, None))
                                },
                            }
                        }
                    } else if status == 0xf0 || status == 0xf7 {
                        match vlq_from(b, end, p2, 0, 0, track) {
                            Err(e) => Err(e),
                            Ok((len, p3)) => if p3 + len > end {
                                Err(MidiError::Truncated { track })
                            } else {
                                Ok((p3 + len, t, None, None))
                            },
                        }
                    } else if status >= 0xf0 {
                        Err(MidiError::BadEvent { track, offset: p1 as usize })
                    } else {
                        channel_message(b, end, p2, t, status, track)
                    }
                }
            }
        }
    }
}

pub proof fn lemma_vlq_advances(b: Seq<u8>, end: int, pos: int, value: int, count: nat, track: u16)
    requires
        0 <= value < vlq_bound(count),
    ensures
        vlq_from(b, end, pos, value, count, track) matches Ok((v, p)) ==> pos < p <= end && p <= pos + 4 - count
            && 0 <= v < 0x1000_0000,
    decreases 4 - count,
{
    if count < 4 && 0 <= pos < end {
        let byte = b[pos];
        let v = value * 128 + byte % 128;
        if byte >= 128 {
            lemma_vlq_advances(b, end, pos + 1, v, count + 1, track);
        }
    }
}

/// A bound on the value a quantity holds after `count` bytes.
pub open spec fn vlq_bound(count: nat) -> int {
    if count == 0 {
        1
    } else if count == 1 {
        0x80
    } else if count == 2 {
        0x4000
    } else if count == 3 {
        0x20_0000
    } else {
        0x1000_0000
    }
}

pub proof fn lemma_event_advances(b: Seq<u8>, end: int, pos: int, tick: int, running: Option<u8>, track: u16)
    requires
        0 <= pos,
        0 <= tick,
    ensures
        event_at(b, end, pos, tick, running, track) matches Ok((p, t, _, _)) ==> pos < p <= end && tick <= t
            < tick + 0x1000_0000,
{
    lemma_vlq_advances(b, end, pos, 0, 0, track);
    if let Ok((delta, p1)) = vlq_from(b, end, pos, 0, 0, track) {
        if p1 < end {
            let lead = b[p1];
            let p2 = if lead >= 128 { p1 + 1 } else { p1 };
            lemma_vlq_advances(b, end, p2 + 1, 0, 0, track);
            lemma_vlq_advances(b, end, p2, 0, 0, track);
        }
    }
}

/// The timed events of one track body `b[pos..end]`, in encounter order.
pub open spec fn track_events(b: Seq<u8>, end: int, pos: int, tick: int, running: Option<u8>, track: u16) -> Result<
    Seq<Timed>,
    MidiError,
>
    decreases end - pos,
{
    if pos < 0 || pos >= end || tick < 0 {
        Ok(Seq::empty())
    } else {
        match event_at(b, end, pos, tick, running, track) {
            Err(e) => Err(e),
            Ok((p, t, r, event)) => {
                proof {
                    lemma_event_advances(b, end, pos, tick, running, track);
                }
                match track_events(b, end, p, t, r, track) {
                    Err(e) => Err(e),
                    Ok(rest) => Ok(
                        match event {
                            Some(e) => seq![(t, e)] + rest,
                            None => rest,
                        },
                    ),
                }
            },
        }
    }
}

/// The bytes `MTrk`.
pub open spec fn track_magic() -> Seq<u8> {
    seq![0x4du8, 0x54u8, 0x72u8, 0x6bu8]
}

/// The track chunk at `position`: its timed events and where it ends.
#[verifier::opaque]
pub open spec fn chunk_spec(b: Seq<u8>, position: int, track: u16) -> Result<(Seq<Timed>, int), MidiError> {
    if position < 0 || position + 8 > b.len() || b.subrange(position, position + 4) != track_magic() {
        Err(MidiError::BadTrackChunk { track })
    } else {
        let body_end = position + 8 + be32(b[position + 4], b[position + 5], b[position + 6], b[position + 7]);
        if body_end > b.len() {
            Err(MidiError::BadTrackChunk { track })
        } else {
            match track_events(b, body_end, position + 8, 0, None, track) {
                Err(e) => Err(e),
                Ok(events) => Ok((events, body_end)),
            }
        }
    }
}

/// The events of the tracks numbered `track..count`, the first chunk
/// starting at `position`.
pub open spec fn tracks_from(b: Seq<u8>, position: int, track: int, count: int) -> Result<Seq<Timed>, MidiError>
    decreases count - track,
{
    if track >= count || track < 0 {
        Ok(Seq::empty())
    } else {
        match chunk_spec(b, position, track as u16) {
            Err(e) => Err(e),
            Ok((events, body_end)) => match tracks_from(b, body_end, track + 1, count) {
                Err(e) => Err(e),
                Ok(rest) => Ok(events + rest),
            },
        }
    }
}

/// The bytes `MThd`.
pub open spec fn header_magic() -> Seq<u8> {
    seq![0x4du8, 0x54u8, 0x68u8, 0x64u8]
}

/// The header's format, track count and division, and where the first
/// track chunk starts.
pub open spec fn header_spec(b: Seq<u8>) -> Result<(u16, u16, u16, int), MidiError> {
    if b.len() < 8 || b.subrange(0, 4) != header_magic() {
        Err(MidiError::BadHeader)
    } else {
        let header_len = be32(b[4], b[5], b[6], b[7]);
        if header_len < 6 || b.len() < 14 {
            Err(MidiError::BadHeader)
        } else {
            let format = be16(b[8], b[9]) as u16;
            let tracks = be16(b[10], b[11]) as u16;
            let division = be16(b[12], b[13]) as u16;
            if format > 1 {
                Err(MidiError::UnsupportedFormat(format))
            } else if division >= 0x8000 {
                Err(MidiError::SmpteDivision)
            } else if division == 0 {
                Err(MidiError::BadHeader)
            } else {
                Ok((format, tracks, division, 8 + header_len))
            }
        }
    }
}

/// The header facts and the timed events of all tracks, in encounter order.
pub open spec fn scan_spec(b: Seq<u8>) -> Result<(u16, u16, u16, Seq<Timed>), MidiError> {
    match header_spec(b) {
        Err(e) => Err(e),
        Ok((format, tracks, division, position)) => match tracks_from(b, position, 0, tracks as int) {
            Err(e) => Err(e),
            Ok(events) => Ok((format, tracks, division, events)),
        },
    }
}

/// Events with their ticks as plain values.
pub open spec fn timed_view(v: Seq<(u64, TrackEvent)>) -> Seq<Timed> {
    v.map_values(|e: (u64, TrackEvent)| (e.0 as int, e.1))
}

fn read_vlq(b: &[u8], end: usize, pos: usize, track: u16) -> (r: Result<(u32, usize), MidiError>)
    requires
        end <= b@.len(),
    ensures
        match vlq_from(b@, end as int, pos as int, 0, 0, track) {
            Ok((v, p)) => r matches Ok((x, q)) && x == v && q == p,
            Err(e) => r == Err::<(u32, usize), MidiError>(e),
        },
{
    let mut value: u32 = 0;
    let mut p = pos;
    let mut count: u32 = 0;
    proof {
        lemma_vlq_advances(b@, end as int, pos as int, 0, 0, track);
    }
    while count < 4
        invariant
            end <= b@.len(),
            count <= 4,
            0 <= value < vlq_bound(count as nat),
            p == pos + count,
            vlq_from(b@, end as int, pos as int, 0, 0, track) == vlq_from(
                b@,
                end as int,
                p as int,
                value as int,
                count as nat,
                track,
            ),
        decreases 4 - count,
    {
        if p >= end {
            return Err(MidiError::Truncated { track });
        }
        let byte = b[p];
        let v = value * 128 + (byte % 128) as u32;
        p += 1;
        count += 1;
        if byte < 128 {
            return Ok((v, p));
        }
        value = v;
    }
    Err(MidiError::BadEvent { track, offset: p })
}

fn read_data(b: &[u8], end: usize, pos: usize, track: u16) -> (r: Result<u8, MidiError>)
    requires
        end <= b@.len(),
    ensures
        r == data_at(b@, end as int, pos as int, track),
{
    if pos >= end {
        Err(MidiError::Truncated { track })
    } else if b[pos] >= 128 {
        Err(MidiError::BadEvent { track, offset: pos })
    } else {
        Ok(b[pos])
    }
}

/// A step with its position and tick as plain values.
pub open spec fn step_view(s: (usize, u64, Option<u8>, Option<TrackEvent>)) -> Step {
    (s.0 as int, s.1 as int, s.2, s.3)
}

fn read_channel_message(b: &[u8], end: usize, p: usize, tick: u64, status: u8, track: u16) -> (r: Result<
    (usize, u64, Option<u8>, Option<TrackEvent>),
    MidiError,
>)
    requires
        end <= b@.len(),
        p <= end,
        0x80 <= status < 0xf0,
    ensures
        match channel_message(b@, end as int, p as int, tick as int, status, track) {
            Ok(st) => r matches Ok(x) && step_view(x) == st,
            Err(e) => r == Err::<(usize, u64, Option<u8>, Option<TrackEvent>), MidiError>(e),
        },
{
    let channel = status % 16;
    let kind = status / 16;
    if kind == 0x8 || kind == 0x9 || kind == 0xa || kind == 0xb || kind == 0xe {
        let first = match read_data(b, end, p, track) {
            Ok(x) => x,
            Err(e) => return Err(e),
        };
        let second = match read_data(b, end, p + 1, track) {
            Ok(x) => x,
            Err(e) => return Err(e),
        };
        let event = if kind == 0x8 || (kind == 0x9 && second == 0) {
            Some(TrackEvent::NoteOff { channel, key: first })
        } else if kind == 0x9 {
            Some(TrackEvent::NoteOn { channel, key: first, velocity: second })
        } else {
            None
        };
        Ok((p + 2, tick, Some(status), event))
    } else {
        let first = match read_data(b, end, p, track) {
            Ok(x) => x,
            Err(e) => return Err(e),
        };
        let event = if kind == 0xc {
            Some(TrackEvent::Program { channel, program: first })
        } else {
            None
        };
        Ok((p + 1, tick, Some(status), event))
    }
}

fn read_event(b: &[u8], end: usize, pos: usize, tick: u64, running: Option<u8>, track: u16) -> (r: Result<
    (usize, u64, Option<u8>, Option<TrackEvent>),
    MidiError,
>)
    requires
        end <= b@.len(),
        pos < end,
        tick + 0x1000_0000 <= u64::MAX,
        running matches Some(s) ==> 0x80 <= s < 0xf0,
    ensures
        match event_at(b@, end as int, pos as int, tick as int, running, track) {
            Ok(st) => r matches Ok(x) && step_view(x) == st && (x.2 matches Some(s) ==> 0x80 <= s < 0xf0),
            Err(e) => r == Err::<(usize, u64, Option<u8>, Option<TrackEvent>), MidiError>(e),
        },
{
    proof {
        lemma_vlq_advances(b@, end as int, pos as int, 0, 0, track);
    }
    let (delta, p1) = match read_vlq(b, end, pos, track) {
        Ok(x) => x,
        Err(e) => return Err(e),
    };
    let t = tick + delta as u64;
    if p1 >= end {
        return Err(MidiError::Truncated { track });
    }
    let lead = b[p1];
    if lead < 128 && running.is_none() {
        return Err(MidiError::BadEvent { track, offset: p1 });
    }
    let status = if lead >= 128 {
        lead
    } else {
        match running {
            Some(s) => s,
            None => lead,
        }
    };
    let p2 = if lead >= 128 { p1 + 1 } else { p1 };
    if status == 0xff {
        if p2 >= end {
            return Err(MidiError::Truncated { track });
        }
        let meta = b[p2];
        proof {
            lemma_vlq_advances(b@, end as int, p2 + 1, 0, 0, track);
        }
        let (len, p3) = match read_vlq(b, end, p2 + 1, track) {
            Ok(x) => x,
            Err(e) => return Err(e),
        };
        if len as usize > end - p3 {
            return Err(MidiError::Truncated { track });
        }
        if meta == 0x51 && len == 3 {
            let tempo = b[p3] as u32 * 0x10000 + b[p3 + 1] as u32 * 0x100 + b[p3 + 2] as u32;
            return Ok((p3 + 3, t, None, Some(TrackEvent::Tempo { us_per_quarter: tempo })));
        }
        return Ok((p3 + len as usize, t, None, None));
    }
    if status == 0xf0 || status == 0xf7 {
        proof {
            lemma_vlq_advances(b@, end as int, p2 as int, 0, 0, track);
        }
        let (len, p3) = match read_vlq(b, end, p2, track) {
            Ok(x) => x,
            Err(e) => return Err(e),
        };
        if len as usize > end - p3 {
            return Err(MidiError::Truncated { track });
        }
        return Ok((p3 + len as usize, t, None, None));
    }
    if status >= 0xf0 {
        return Err(MidiError::BadEvent { track, offset: p1 });
    }
    read_channel_message(b, end, p2, t, status, track)
}

/// The timed events of the track body `b[start..end]`.
fn read_track(b: &[u8], start: usize, end: usize, track: u16) -> (r: Result<Vec<(u64, TrackEvent)>, MidiError>)
    requires
        start <= end <= b@.len(),
        b@.len() < 0x8_0000_0000,
    ensures
        match track_events(b@, end as int, start as int, 0, None, track) {
            Ok(evs) => r matches Ok(v) && timed_view(v@) == evs && forall|i: int|
                0 <= i < v@.len() ==> (#[trigger] v@[i]).0 <= end * 0x1000_0000,
            Err(e) => r == Err::<Vec<(u64, TrackEvent)>, MidiError>(e),
        },
{
    let mut events: Vec<(u64, TrackEvent)> = Vec::new();
    let mut pos = start;
    let mut tick: u64 = 0;
    let mut running: Option<u8> = None;
    while pos < end
        invariant
            start <= pos <= end,
            end <= b@.len() < 0x8_0000_0000,
            tick <= pos * 0x1000_0000,
            running matches Some(s) ==> 0x80 <= s < 0xf0,
            forall|i: int| 0 <= i < events@.len() ==> (#[trigger] events@[i]).0 <= pos * 0x1000_0000,
            track_events(b@, end as int, start as int, 0, None, track) == match track_events(
                b@,
                end as int,
                pos as int,
                tick as int,
                running,
                track,
            ) {
                Ok(rest) => Ok(timed_view(events@) + rest),
                Err(e) => Err::<Seq<Timed>, MidiError>(e),
            },
        decreases end - pos,
    {
        proof {
            lemma_event_advances(b@, end as int, pos as int, tick as int, running, track);
        }
        let step = read_event(b, end, pos, tick, running, track);
        let (p, t, r, event) = match step {
            Ok(x) => x,
            Err(e) => return Err(e),
        };
        let ghost before = events@;
        match event {
            Some(e) => {
                events.push((t, e));
            },
            None => {},
        }
        proof {
            match track_events(b@, end as int, p as int, t as int, r, track) {
                Ok(rest) => {
                    match event {
                        Some(e) => {
                            assert(timed_view(events@) =~= timed_view(before).push((t as int, e)));
                            assert(timed_view(before) + (seq![(t as int, e)] + rest) =~= timed_view(events@)
                                + rest);
                        },
                        None => {},
                    }
                },
                Err(_) => {},
            }
            assert forall|i: int| 0 <= i < events@.len() implies (#[trigger] events@[i]).0 <= p * 0x1000_0000 by {
                if i < before.len() {
                    assert(events@[i] == before[i]);
                }
            }
        }
        pos = p;
        tick = t;
        running = r;
    }
    proof {
        assert(timed_view(events@) + Seq::<Timed>::empty() =~= timed_view(events@));
    }
    Ok(events)
}

fn be32_at(b: &[u8], p: usize) -> (r: u64)
    requires
        p + 4 <= b@.len(),
    ensures
        r == be32(b@[p as int], b@[p + 1], b@[p + 2], b@[p + 3]),
{
    b[p] as u64 * 0x100_0000 + b[p + 1] as u64 * 0x1_0000 + b[p + 2] as u64 * 0x100 + b[p + 3] as u64
}

/// The track chunk at `position`.
fn read_chunk(bytes: &[u8], position: u64, track: u16) -> (r: Result<(Vec<(u64, TrackEvent)>, u64), MidiError>)
    requires
        bytes@.len() < 0x8_0000_0000,
        position <= 8 + 0xffff_ffff + bytes@.len(),
    ensures
        match chunk_spec(bytes@, position as int, track) {
            Ok((evs, end)) => r matches Ok((v, e)) && timed_view(v@) == evs && e == end && e <= bytes@.len()
                && forall|i: int| 0 <= i < v@.len() ==> (#[trigger] v@[i]).0 <= bytes@.len() * 0x1000_0000,
            Err(e) => r == Err::<(Vec<(u64, TrackEvent)>, u64), MidiError>(e),
        },
{
    reveal(chunk_spec);
    let len = bytes.len();
    if position + 8 > len as u64 || !(bytes[position as usize] == 0x4d && bytes[position as usize + 1] == 0x54
        && bytes[position as usize + 2] == 0x72 && bytes[position as usize + 3] == 0x6b) {
        proof {
            let p = position as int;
            if p + 8 <= len && bytes@.subrange(p, p + 4) == track_magic() {
                assert(bytes@.subrange(p, p + 4)[0] == bytes@[p] && bytes@.subrange(p, p + 4)[1] == bytes@[p + 1]);
                assert(bytes@.subrange(p, p + 4)[2] == bytes@[p + 2] && bytes@.subrange(p, p + 4)[3] == bytes@[p + 3]);
            }
        }
        return Err(MidiError::BadTrackChunk { track });
    }
    let p = position as usize;
    assert(bytes@.subrange(p as int, p + 4) =~= track_magic());
    let body_end = position + 8 + be32_at(bytes, p + 4);
    if body_end > len as u64 {
        return Err(MidiError::BadTrackChunk { track });
    }
    match read_track(bytes, p + 8, body_end as usize, track) {
        Ok(v) => {
            proof {
                assert forall|i: int| 0 <= i < v@.len() implies (#[trigger] v@[i]).0 <= len * 0x1000_0000 by {
                    assert(v@[i].0 <= body_end * 0x1000_0000);
                    assert(body_end * 0x1000_0000 <= len * 0x1000_0000) by (nonlinear_arith)
                        requires
                            body_end <= len,
                    ;
                }
            }
            Ok((v, body_end))
        },
        Err(e) => Err(e),
    }
}

/// The header facts and the timed events of all tracks.
fn scan(bytes: &[u8]) -> (r: Result<(u16, u16, u16, Vec<(u64, TrackEvent)>), MidiError>)
    requires
        bytes@.len() < 0x8_0000_0000,
    ensures
        match scan_spec(bytes@) {
            Ok((f, t, d, evs)) => r matches Ok((a, b, c, v)) && a == f && b == t && c == d && timed_view(v@) == evs
                && forall|i: int| 0 <= i < v@.len() ==> (#[trigger] v@[i]).0 <= bytes@.len() * 0x1000_0000,
            Err(e) => r == Err::<(u16, u16, u16, Vec<(u64, TrackEvent)>), MidiError>(e),
        },
{
    let len = bytes.len();
    if len < 8 || !(bytes[0] == 0x4d && bytes[1] == 0x54 && bytes[2] == 0x68 && bytes[3] == 0x64) {
        proof {
            if len >= 8 && bytes@.subrange(0, 4) == header_magic() {
                assert(bytes@.subrange(0, 4)[0] == bytes@[0] && bytes@.subrange(0, 4)[1] == bytes@[1]);
                assert(bytes@.subrange(0, 4)[2] == bytes@[2] && bytes@.subrange(0, 4)[3] == bytes@[3]);
            }
        }
        return Err(MidiError::BadHeader);
    }
    assert(bytes@.subrange(0, 4) =~= header_magic());
    let header_len = be32_at(bytes, 4);
    if header_len < 6 || len < 14 {
        return Err(MidiError::BadHeader);
    }
    let format = bytes[8] as u16 * 256 + bytes[9] as u16;
    let track_count = bytes[10] as u16 * 256 + bytes[11] as u16;
    let division = bytes[12] as u16 * 256 + bytes[13] as u16;
    if format > 1 {
        return Err(MidiError::UnsupportedFormat(format));
    }
    if division >= 0x8000 {
        return Err(MidiError::SmpteDivision);
    }
    if division == 0 {
        return Err(MidiError::BadHeader);
    }
    let ghost start = 8 + header_len as int;
    let mut position: u64 = 8 + header_len;
    let mut events: Vec<(u64, TrackEvent)> = Vec::new();
    let mut track: u32 = 0;
    while track < track_count as u32
        invariant
            len == bytes@.len() < 0x8_0000_0000,
            track <= track_count,
            header_len <= 0xffff_ffff,
            position <= 8 + 0xffff_ffff + len,
            forall|i: int| 0 <= i < events@.len() ==> (#[trigger] events@[i]).0 <= len * 0x1000_0000,
            start == 8 + header_len,
            header_spec(bytes@) == Ok::<(u16, u16, u16, int), MidiError>((format, track_count, division, start)),
            tracks_from(bytes@, start, 0, track_count as int) == match tracks_from(
                bytes@,
                position as int,
                track as int,
                track_count as int,
            ) {
                Ok(rest) => Ok(timed_view(events@) + rest),
                Err(e) => Err::<Seq<Timed>, MidiError>(e),
            },
        decreases track_count - track,
    {
        let t = track as u16;
        let (part, body_end) = match read_chunk(bytes, position, t) {
            Ok(x) => x,
            Err(e) => return Err(e),
        };
        let ghost before = events@;
        let ghost pv = part@;
        let mut part = part;
        events.append(&mut part);
        proof {
            assert(timed_view(events@) =~= timed_view(before) + timed_view(pv));
            assert forall|k: int| 0 <= k < events@.len() implies (#[trigger] events@[k]).0 <= len * 0x1000_0000 by {
                if k < before.len() {
                    assert(events@[k] == before[k]);
                } else {
                    assert(events@[k] == pv[k - before.len()]);
                }
            }
            match tracks_from(bytes@, body_end as int, track + 1, track_count as int) {
                Ok(rest) => {
                    assert(timed_view(before) + (timed_view(pv) + rest) =~= timed_view(events@) + rest);
                },
                Err(_) => {},
            }
        }
        position = body_end;
        track += 1;
    }
    proof {
        assert(timed_view(events@) + Seq::<Timed>::empty() =~= timed_view(events@));
    }
    Ok((format, track_count, division, events))
}

// ---------------------------------------------------------------- time order

/// The first index from `i` on whose tick is after `t`, or the end.
pub open spec fn after_tick(s: Seq<Timed>, t: int, i: int) -> int
    decreases s.len() - i,
{
    if i < 0 || i >= s.len() {
        s.len() as int
    } else if s[i].0 > t {
        i
    } else {
        after_tick(s, t, i + 1)
    }
}

/// The events in tick order, encounter order kept among equal ticks: each
/// event goes after every earlier one whose tick is not later than its own.
pub open spec fn sort_by_tick(evs: Seq<Timed>) -> Seq<Timed>
    decreases evs.len(),
{
    if evs.len() == 0 {
        evs
    } else {
        let s = sort_by_tick(evs.drop_last());
        s.insert(after_tick(s, evs.last().0, 0), evs.last())
    }
}

/// A tempo-map segment: its start tick, the microseconds at that tick, and
/// the microseconds per quarter note from there on.
pub type Segment = (int, int, int);

/// The tempo map of events in tick order: 500000 us per quarter from tick
/// 0, and each tempo event starts a new segment.
pub open spec fn segments(sorted: Seq<Timed>, division: int) -> Seq<Segment>
    decreases sorted.len(),
{
    if sorted.len() == 0 {
        seq![(0, 0, 500000)]
    } else {
        let prev = segments(sorted.drop_last(), division);
        match sorted.last().1 {
            TrackEvent::Tempo { us_per_quarter } => {
                let (tick, last) = (sorted.last().0, prev.last());
                prev.push((tick, last.1 + (tick - last.0) * last.2 / division, us_per_quarter as int))
            },
            _ => prev,
        }
    }
}

/// The last segment at or before `i` that starts no later than `t`.
pub open spec fn segment_for(segs: Seq<Segment>, t: int, i: int) -> int
    decreases i,
{
    if i <= 0 {
        0
    } else if segs[i].0 <= t {
        i
    } else {
        segment_for(segs, t, i - 1)
    }
}

/// The microseconds at tick `t`.
pub open spec fn tick_us(segs: Seq<Segment>, t: int, division: int) -> int {
    let k = segment_for(segs, t, segs.len() - 1);
    segs[k].1 + (t - segs[k].0) * segs[k].2 / division
}

// ---------------------------------------------------------------- notes

/// A sounding note waiting for its note-off: channel, key, start tick,
/// velocity, program.
pub type Open = (u8, u8, int, u8, u8);

/// A note as plain values: start, duration, channel, key, velocity, program.
pub type NoteModel = (int, int, u8, u8, u8, u8);

/// The last open note in `open[..i]` on `channel` with `key`.
pub open spec fn last_open(open: Seq<Open>, channel: u8, key: u8, i: int) -> Option<int>
    decreases i,
{
    if i <= 0 {
        None
    } else if open[i - 1].0 == channel && open[i - 1].1 == key {
        Some(i - 1)
    } else {
        last_open(open, channel, key, i - 1)
    }
}

/// Ending the last open note on `channel` with `key` at `end_tick` (or at
/// its start, if that is later); nothing happens when none is open.
pub open spec fn close_note(
    open: Seq<Open>,
    notes: Seq<NoteModel>,
    channel: u8,
    key: u8,
    end_tick: int,
    segs: Seq<Segment>,
    division: int,
) -> (Seq<Open>, Seq<NoteModel>) {
    match last_open(open, channel, key, open.len() as int) {
        None => (open, notes),
        Some(k) => {
            let o = open[k];
            let start = tick_us(segs, o.2, division);
            let end = tick_us(segs, if end_tick > o.2 { end_tick } else { o.2 }, division);
            (open.remove(k), notes.push((start, end - start, channel, key, o.3, o.4)))
        },
    }
}

/// Playing the events from `i` on: program changes set the channel's
/// program, note-ons open notes with it, note-offs close them. The result
/// holds the notes still open, the notes ended, and the latest tick seen.
pub open spec fn pair_notes(
    sorted: Seq<Timed>,
    i: int,
    programs: Seq<u8>,
    open: Seq<Open>,
    notes: Seq<NoteModel>,
    max_tick: int,
    segs: Seq<Segment>,
    division: int,
) -> (Seq<Open>, Seq<NoteModel>, int)
    decreases sorted.len() - i,
{
    if i < 0 || i >= sorted.len() {
        (open, notes, max_tick)
    } else {
        let (t, e) = sorted[i];
        let m = if t > max_tick { t } else { max_tick };
        match e {
            TrackEvent::Program { channel, program } => pair_notes(
                sorted,
                i + 1,
                programs.update(channel as int, program),
                open,
                notes,
                m,
                segs,
                division,
            ),
            TrackEvent::NoteOn { channel, key, velocity } => pair_notes(
                sorted,
                i + 1,
                programs,
                open.push((channel, key, t, velocity, programs[channel as int])),
                notes,
                m,
                segs,
                division,
            ),
            TrackEvent::NoteOff { channel, key } => {
                let (o, n) = close_note(open, notes, channel, key, t, segs, division);
                pair_notes(sorted, i + 1, programs, o, n, m, segs, division)
            },
            TrackEvent::Tempo { .. } => pair_notes(sorted, i + 1, programs, open, notes, m, segs, division),
        }
    }
}

pub proof fn lemma_last_open(open: Seq<Open>, channel: u8, key: u8, i: int)
    requires
        0 <= i <= open.len(),
    ensures
        last_open(open, channel, key, i) matches Some(k) ==> 0 <= k < i && open[k].0 == channel && open[k].1 == key,
        last_open(open, channel, key, i) is None ==> forall|j: int|
            0 <= j < i ==> !(open[j].0 == channel && open[j].1 == key),
    decreases i,
{
    if i > 0 {
        lemma_last_open(open, channel, key, i - 1);
    }
}

/// Closing every note still open at the end of the song, first-opened
/// first, at `end_tick`.
pub open spec fn drain(
    open: Seq<Open>,
    notes: Seq<NoteModel>,
    end_tick: int,
    segs: Seq<Segment>,
    division: int,
) -> Seq<NoteModel>
    decreases open.len(),
{
    if open.len() == 0 {
        notes
    } else {
        proof {
            lemma_last_open(open, open[0].0, open[0].1, open.len() as int);
        }
        let (o, n) = close_note(open, notes, open[0].0, open[0].1, end_tick, segs, division);
        drain(o, n, end_tick, segs, division)
    }
}

/// Whether note `a` sorts no later than note `b`: by start, then channel,
/// then key.
pub open spec fn note_le(a: NoteModel, b: NoteModel) -> bool {
    a.0 < b.0 || (a.0 == b.0 && (a.2 < b.2 || (a.2 == b.2 && a.3 <= b.3)))
}

/// The first index from `i` on whose note sorts after `n`, or the end.
pub open spec fn after_note(s: Seq<NoteModel>, n: NoteModel, i: int) -> int
    decreases s.len() - i,
{
    if i < 0 || i >= s.len() {
        s.len() as int
    } else if !note_le(s[i], n) {
        i
    } else {
        after_note(s, n, i + 1)
    }
}

/// The notes by start, channel and key, their order kept among equals.
pub open spec fn sort_notes(ns: Seq<NoteModel>) -> Seq<NoteModel>
    decreases ns.len(),
{
    if ns.len() == 0 {
        ns
    } else {
        let s = sort_notes(ns.drop_last());
        s.insert(after_note(s, ns.last(), 0), ns.last())
    }
}

/// The latest end of the notes, 0 for none.
pub open spec fn last_end(ns: Seq<NoteModel>) -> int
    decreases ns.len(),
{
    if ns.len() == 0 {
        0
    } else {
        let e = ns.last().0 + ns.last().1;
        let rest = last_end(ns.drop_last());
        if e > rest {
            e
        } else {
            rest
        }
    }
}

/// The song's notes, in order, from its events.
#[verifier::opaque]
pub open spec fn notes_of(events: Seq<Timed>, division: int) -> Seq<NoteModel> {
    let sorted = sort_by_tick(events);
    let segs = segments(sorted, division);
    let (open, notes, max_tick) = pair_notes(
        sorted,
        0,
        Seq::new(256, |i: int| 0u8),
        Seq::empty(),
        Seq::empty(),
        0,
        segs,
        division,
    );
    sort_notes(drain(open, notes, max_tick, segs, division))
}

/// What parsing gives: format, track count, division, the notes and the
/// song's duration, or the first problem.
pub open spec fn song_spec(b: Seq<u8>) -> Result<(u16, u16, u16, Seq<NoteModel>, int), MidiError> {
    match scan_spec(b) {
        Err(e) => Err(e),
        Ok((format, tracks, division, events)) => {
            let notes = notes_of(events, division as int);
            Ok((format, tracks, division, notes, last_end(notes)))
        },
    }
}

/// Whether the tempo map fits in 64 bits: each segment's start time and
/// the product that gives it.
pub open spec fn map_fits(segs: Seq<Segment>) -> bool {
    forall|i: int|
        1 <= i < segs.len() ==> (segs[i].0 - segs[i - 1].0) * segs[i - 1].2 <= u64::MAX && #[trigger] segs[i].1
            <= u64::MAX
}

/// Whether the time of tick `t`, and the product that gives it, fit in 64
/// bits.
pub open spec fn time_fits(segs: Seq<Segment>, t: int, division: int) -> bool {
    let k = segment_for(segs, t, segs.len() - 1);
    (t - segs[k].0) * segs[k].2 <= u64::MAX && tick_us(segs, t, division) <= u64::MAX
}

/// Whether the tempo map and every event's time fit in 64 bits.
pub open spec fn timing_fits(b: Seq<u8>) -> bool {
    match scan_spec(b) {
        Err(_) => true,
        Ok((_, _, division, events)) => {
            let sorted = sort_by_tick(events);
            let segs = segments(sorted, division as int);
            &&& map_fits(segs)
            &&& forall|j: int| 0 <= j < sorted.len() ==> time_fits(segs, (#[trigger] sorted[j]).0, division as int)
        },
    }
}

pub open spec fn note_view(n: MidiNote) -> NoteModel {
    (n.start_us as int, n.duration_us as int, n.channel, n.key, n.velocity, n.program)
}

// ---------------------------------------------------------------- time order, executed

/// Ticks that never decrease.
pub open spec fn ticks_ascend(s: Seq<Timed>) -> bool {
    forall|i: int, j: int| 0 <= i < j < s.len() ==> (#[trigger] s[i]).0 <= (#[trigger] s[j]).0
}

proof fn lemma_after_tick(s: Seq<Timed>, t: int, i: int)
    requires
        0 <= i <= s.len(),
    ensures
        i <= after_tick(s, t, i) <= s.len(),
        forall|k: int| i <= k < after_tick(s, t, i) ==> (#[trigger] s[k]).0 <= t,
        after_tick(s, t, i) < s.len() ==> s[after_tick(s, t, i)].0 > t,
    decreases s.len() - i,
{
    if i < s.len() && s[i].0 <= t {
        lemma_after_tick(s, t, i + 1);
    }
}

/// Sorting by tick gives ascending ticks, each the tick of an event sorted.
pub proof fn lemma_sort_by_tick(evs: Seq<Timed>)
    ensures
        ticks_ascend(sort_by_tick(evs)),
        sort_by_tick(evs).len() == evs.len(),
        forall|k: int| 0 <= k < evs.len() ==> exists|j: int| 0 <= j < evs.len() && #[trigger] sort_by_tick(evs)[k] == evs[j],
    decreases evs.len(),
{
    if evs.len() > 0 {
        let prev = evs.drop_last();
        lemma_sort_by_tick(prev);
        let s = sort_by_tick(prev);
        let e = evs.last();
        let p = after_tick(s, e.0, 0);
        lemma_after_tick(s, e.0, 0);
        let r = s.insert(p, e);
        assert(r == sort_by_tick(evs));
        assert forall|i: int, j: int| 0 <= i < j < r.len() implies (#[trigger] r[i]).0 <= (#[trigger] r[j]).0 by {
            if j < p {
                assert(r[i] == s[i] && r[j] == s[j]);
            } else if j == p {
                assert(r[i] == s[i]);
            } else if i == p {
                assert(r[j] == s[j - 1]);
                if p < s.len() {
                    assert(s[p].0 <= s[j - 1].0);
                }
            } else if i < p {
                assert(r[i] == s[i] && r[j] == s[j - 1]);
            } else {
                assert(r[i] == s[i - 1] && r[j] == s[j - 1]);
            }
        }
        assert forall|k: int| 0 <= k < evs.len() implies exists|j: int| 0 <= j < evs.len() && #[trigger] r[k]
            == evs[j] by {
            if k < p {
                let j = choose|j: int| 0 <= j < prev.len() && #[trigger] s[k] == prev[j];
                assert(r[k] == evs[j]);
            } else if k == p {
                assert(r[k] == evs[evs.len() - 1]);
            } else {
                let j = choose|j: int| 0 <= j < prev.len() && #[trigger] s[k - 1] == prev[j];
                assert(r[k] == evs[j]);
            }
        }
    }
}

/// The events in tick order, encounter order kept among equal ticks.
fn sort_events(events: &Vec<(u64, TrackEvent)>) -> (r: Vec<(u64, TrackEvent)>)
    ensures
        timed_view(r@) == sort_by_tick(timed_view(events@)),
{
    let ghost tv = timed_view(events@);
    let mut sorted: Vec<(u64, TrackEvent)> = Vec::new();
    let mut i: usize = 0;
    while i < events.len()
        invariant
            i <= events@.len(),
            tv == timed_view(events@),
            timed_view(sorted@) == sort_by_tick(tv.subrange(0, i as int)),
        decreases events@.len() - i,
    {
        let (t, e) = events[i];
        let ghost sv = timed_view(sorted@);
        let mut p: usize = 0;
        while p < sorted.len() && sorted[p].0 <= t
            invariant
                p <= sorted@.len(),
                sv == timed_view(sorted@),
                after_tick(sv, t as int, 0) == after_tick(sv, t as int, p as int),
            decreases sorted@.len() - p,
        {
            p += 1;
        }
        sorted.insert(p, (t, e));
        proof {
            let pre = tv.subrange(0, i + 1);
            assert(pre.drop_last() =~= tv.subrange(0, i as int));
            assert(pre.last() == (t as int, e));
            assert(timed_view(sorted@) =~= sv.insert(p as int, (t as int, e)));
        }
        i += 1;
    }
    proof {
        assert(tv.subrange(0, i as int) =~= tv);
    }
    sorted
}

// ---------------------------------------------------------------- tempo map, executed

/// Segments as plain values.
pub open spec fn seg_view(v: Seq<(u64, u64, u32)>) -> Seq<Segment> {
    v.map_values(|g: (u64, u64, u32)| (g.0 as int, g.1 as int, g.2 as int))
}

/// The shape of a tempo map built from events in tick order.
#[verifier::opaque]
pub open spec fn map_shape(g: Seq<Segment>, division: int) -> bool {
    &&& g.len() >= 1
    &&& g[0] == (0int, 0int, 500000int)
    &&& forall|k: int| 0 <= k < g.len() ==> 0 <= (#[trigger] g[k]).0 && g[k].1 >= 0 && g[k].2 >= 0
    &&& forall|k: int|
        1 <= k < g.len() ==> g[k - 1].0 <= (#[trigger] g[k]).0 && g[k].1 == g[k - 1].1 + (g[k].0 - g[k - 1].0)
            * g[k - 1].2 / division
}

/// The tick of the last event, 0 for none.
pub open spec fn last_tick(s: Seq<Timed>) -> int {
    if s.len() == 0 {
        0
    } else {
        s.last().0
    }
}

pub proof fn lemma_segments(s: Seq<Timed>, division: int)
    requires
        ticks_ascend(s),
        forall|k: int| 0 <= k < s.len() ==> (#[trigger] s[k]).0 >= 0,
        division > 0,
    ensures
        map_shape(segments(s, division), division),
        forall|k: int| 0 <= k < segments(s, division).len() ==> (#[trigger] segments(s, division)[k]).0 <= last_tick(s),
        segments(s, division).len() >= 1,
    decreases s.len(),
{
    reveal(map_shape);
    if s.len() > 0 {
        let prev = s.drop_last();
        assert forall|i: int, j: int| 0 <= i < j < prev.len() implies (#[trigger] prev[i]).0 <= (#[trigger] prev[j]).0 by {
            assert(prev[i] == s[i] && prev[j] == s[j]);
        }
        assert forall|k: int| 0 <= k < prev.len() implies (#[trigger] prev[k]).0 >= 0 by {
            assert(prev[k] == s[k]);
        }
        lemma_segments(prev, division);
        let g = segments(prev, division);
        if prev.len() > 0 {
            assert(last_tick(prev) == s[s.len() - 2].0);
            assert(s[s.len() - 2].0 <= s[s.len() - 1].0);
        }
        let last = g.last();
        let t = s.last().0;
        assert(last.0 <= t);
        match s.last().1 {
            TrackEvent::Tempo { us_per_quarter } => {
                let n = g.push((t, last.1 + (t - last.0) * last.2 / division, us_per_quarter as int));
                assert(n == segments(s, division));
                assert((t - last.0) * last.2 >= 0) by (nonlinear_arith)
                    requires
                        t - last.0 >= 0,
                        last.2 >= 0,
                ;
                assert((t - last.0) * last.2 / division >= 0) by (nonlinear_arith)
                    requires
                        (t - last.0) * last.2 >= 0,
                        division > 0,
                ;
                assert forall|k: int| 1 <= k < n.len() implies n[k - 1].0 <= (#[trigger] n[k]).0 && n[k].1 == n[k
                    - 1].1 + (n[k].0 - n[k - 1].0) * n[k - 1].2 / division by {
                    if k < g.len() {
                        assert(n[k] == g[k] && n[k - 1] == g[k - 1]);
                    }
                }
            },
            _ => {},
        }
    }
}

pub proof fn lemma_segments_prefix(s: Seq<Timed>, division: int, j: int)
    requires
        0 <= j <= s.len(),
    ensures
        segments(s.subrange(0, j), division).len() <= segments(s, division).len(),
        forall|k: int|
            0 <= k < segments(s.subrange(0, j), division).len() ==> #[trigger] segments(s.subrange(0, j), division)[k]
                == segments(s, division)[k],
    decreases s.len() - j,
{
    if j == s.len() {
        assert(s.subrange(0, j) =~= s);
    } else {
        lemma_segments_prefix(s, division, j + 1);
        let a = s.subrange(0, j + 1);
        assert(a.drop_last() =~= s.subrange(0, j));
        let small = segments(s.subrange(0, j), division);
        let big = segments(a, division);
        assert(big == segments(a.drop_last(), division) || big == segments(a.drop_last(), division).push(big.last()));
        assert forall|k: int| 0 <= k < small.len() implies #[trigger] small[k] == segments(s, division)[k] by {
            assert(small[k] == big[k]);
        }
    }
}

fn build_segments(sorted: &Vec<(u64, TrackEvent)>, division: u16) -> (r: Vec<(u64, u64, u32)>)
    requires
        division > 0,
        ticks_ascend(timed_view(sorted@)),
        map_fits(segments(timed_view(sorted@), division as int)),
    ensures
        seg_view(r@) == segments(timed_view(sorted@), division as int),
{
    let ghost tv = timed_view(sorted@);
    let ghost d = division as int;
    let ghost g = segments(tv, d);
    let mut segs: Vec<(u64, u64, u32)> = Vec::new();
    segs.push((0, 0, 500000));
    proof {
        assert(seg_view(segs@) =~= segments(tv.subrange(0, 0), d));
    }
    let mut j: usize = 0;
    while j < sorted.len()
        invariant
            j <= sorted@.len(),
            tv == timed_view(sorted@),
            d == division as int,
            division > 0,
            g == segments(tv, d),
            ticks_ascend(tv),
            map_fits(g),
            seg_view(segs@) == segments(tv.subrange(0, j as int), d),
        decreases sorted@.len() - j,
    {
        let (t, e) = sorted[j];
        let ghost pre = tv.subrange(0, j as int);
        let ghost next = tv.subrange(0, j + 1);
        proof {
            assert(next.drop_last() =~= pre);
            assert(next.last() == tv[j as int]);
            assert forall|i: int, k: int| 0 <= i < k < pre.len() implies (#[trigger] pre[i]).0 <= (#[trigger] pre[k]).0 by {
                assert(pre[i] == tv[i] && pre[k] == tv[k]);
            }
            assert forall|k: int| 0 <= k < pre.len() implies (#[trigger] pre[k]).0 >= 0 by {
                assert(pre[k] == tv[k]);
            }
            lemma_segments(pre, d);
            if j > 0 {
                assert(last_tick(pre) == tv[j - 1].0);
                assert(tv[j - 1].0 <= tv[j as int].0);
            }
            lemma_segments_prefix(tv, d, j + 1);
        }
        match e {
            TrackEvent::Tempo { us_per_quarter } => {
                let last = segs[segs.len() - 1];
                let ghost m = segs@.len() as int;
                proof {
                    let gn = segments(next, d);
                    assert(gn.len() == m + 1);
                    assert(gn[m] == g[m] && gn[m - 1] == g[m - 1]);
                    assert(seg_view(segs@)[m - 1] == (last.0 as int, last.1 as int, last.2 as int));
                    assert(1 <= m < g.len());
                    assert(g[m].1 <= u64::MAX);
                    assert((g[m].0 - g[m - 1].0) * g[m - 1].2 <= u64::MAX);
                }
                let product = (t - last.0) * last.2 as u64;
                let us = last.1 + product / division as u64;
                segs.push((t, us, us_per_quarter));
                proof {
                    assert(seg_view(segs@) =~= segments(next, d));
                }
            },
            _ => {
                proof {
                    assert(seg_view(segs@) =~= segments(next, d));
                }
            },
        }
        j += 1;
    }
    proof {
        assert(tv.subrange(0, j as int) =~= tv);
    }
    segs
}

proof fn lemma_segment_for(g: Seq<Segment>, t: int, i: int)
    requires
        0 <= i < g.len(),
    ensures
        0 <= segment_for(g, t, i) <= i,
        segment_for(g, t, i) > 0 ==> g[segment_for(g, t, i)].0 <= t,
        forall|m: int| segment_for(g, t, i) < m <= i ==> (#[trigger] g[m]).0 > t,
    decreases i,
{
    if i > 0 && g[i].0 > t {
        lemma_segment_for(g, t, i - 1);
    }
}

proof fn lemma_start_times_grow(g: Seq<Segment>, division: int, i: int, j: int)
    requires
        map_shape(g, division),
        division > 0,
        0 <= i <= j < g.len(),
    ensures
        g[i].1 <= g[j].1,
    decreases j - i,
{
    reveal(map_shape);
    if i < j {
        lemma_start_times_grow(g, division, i, j - 1);
        let prev = g[j - 1];
        assert(g[j].1 == prev.1 + (g[j].0 - prev.0) * prev.2 / division);
        assert((g[j].0 - prev.0) * prev.2 / division >= 0) by (nonlinear_arith)
            requires
                g[j].0 - prev.0 >= 0,
                prev.2 >= 0,
                division > 0,
        ;
    }
}

/// Later ticks are never earlier in time.
pub proof fn lemma_tick_us_monotone(g: Seq<Segment>, division: int, t1: int, t2: int)
    requires
        map_shape(g, division),
        division > 0,
        0 <= t1 <= t2,
    ensures
        tick_us(g, t1, division) <= tick_us(g, t2, division),
        tick_us(g, t1, division) >= 0,
{
    reveal(map_shape);
    let n = g.len() - 1;
    lemma_segment_for(g, t1, n);
    lemma_segment_for(g, t2, n);
    let k1 = segment_for(g, t1, n);
    let k2 = segment_for(g, t2, n);
    if k1 > k2 {
        assert(g[k1].0 <= t1);
        assert(g[k1].0 > t2);
    }
    let a1 = g[k1];
    let a2 = g[k2];
    assert(a1.0 <= t1) by {
        if k1 == 0 {
            assert(g[0] == (0int, 0int, 500000int));
        }
    }
    assert(a2.0 <= t2) by {
        if k2 == 0 {
            assert(g[0] == (0int, 0int, 500000int));
        }
    }
    assert((t1 - a1.0) * a1.2 / division >= 0) by (nonlinear_arith)
        requires
            t1 - a1.0 >= 0,
            a1.2 >= 0,
            division > 0,
    ;
    if k1 == k2 {
        assert((t1 - a1.0) * a1.2 / division <= (t2 - a1.0) * a1.2 / division) by (nonlinear_arith)
            requires
                0 <= t1 - a1.0 <= t2 - a1.0,
                a1.2 >= 0,
                division > 0,
        ;
    } else {
        let b = g[k1 + 1];
        assert(b.0 > t1);
        assert(b.1 == a1.1 + (b.0 - a1.0) * a1.2 / division);
        assert((t1 - a1.0) * a1.2 / division <= (b.0 - a1.0) * a1.2 / division) by (nonlinear_arith)
            requires
                0 <= t1 - a1.0 <= b.0 - a1.0,
                a1.2 >= 0,
                division > 0,
        ;
        lemma_start_times_grow(g, division, k1 + 1, k2);
        assert((t2 - a2.0) * a2.2 / division >= 0) by (nonlinear_arith)
            requires
                t2 - a2.0 >= 0,
                a2.2 >= 0,
                division > 0,
        ;
    }
}

fn tick_to_us(segs: &Vec<(u64, u64, u32)>, t: u64, division: u16) -> (r: u64)
    requires
        division > 0,
        map_shape(seg_view(segs@), division as int),
        time_fits(seg_view(segs@), t as int, division as int),
    ensures
        r == tick_us(seg_view(segs@), t as int, division as int),
{
    reveal(map_shape);
    let ghost g = seg_view(segs@);
    let mut k = segs.len() - 1;
    proof {
        lemma_segment_for(g, t as int, k as int);
    }
    while k > 0 && segs[k].0 > t
        invariant
            g == seg_view(segs@),
            k < segs@.len(),
            segment_for(g, t as int, g.len() - 1) == segment_for(g, t as int, k as int),
        decreases k,
    {
        k -= 1;
    }
    let (start, us, tempo) = segs[k];
    proof {
        assert(g[k as int] == (start as int, us as int, tempo as int));
        if k == 0 {
            assert(g[0] == (0int, 0int, 500000int));
        }
    }
    us + (t - start) * tempo as u64 / division as u64
}

// ---------------------------------------------------------------- notes, executed

pub open spec fn open_view(v: Seq<(u8, u8, u64, u8, u8)>) -> Seq<Open> {
    v.map_values(|o: (u8, u8, u64, u8, u8)| (o.0, o.1, o.2 as int, o.3, o.4))
}

pub open spec fn notes_view(v: Seq<MidiNote>) -> Seq<NoteModel> {
    v.map_values(|n: MidiNote| note_view(n))
}

/// What the note pairing needs of the tempo map and of the ticks it reads.
pub open spec fn pairing_ready(g: Seq<Segment>, division: int) -> bool {
    &&& division > 0
    &&& map_shape(g, division)
}

fn close(
    open: &mut Vec<(u8, u8, u64, u8, u8)>,
    notes: &mut Vec<MidiNote>,
    channel: u8,
    key: u8,
    end_tick: u64,
    segs: &Vec<(u64, u64, u32)>,
    division: u16,
)
    requires
        pairing_ready(seg_view(segs@), division as int),
        time_fits(seg_view(segs@), end_tick as int, division as int),
        forall|k: int| 0 <= k < old(open)@.len() ==> time_fits(seg_view(segs@), (#[trigger] old(open)@[k]).2 as int, division as int),
    ensures
        (open_view(final(open)@), notes_view(final(notes)@)) == close_note(
            open_view(old(open)@),
            notes_view(old(notes)@),
            channel,
            key,
            end_tick as int,
            seg_view(segs@),
            division as int,
        ),
        forall|k: int| 0 <= k < final(open)@.len() ==> time_fits(seg_view(segs@), (#[trigger] final(open)@[k]).2 as int, division as int),
        forall|k: int| 0 <= k < final(notes)@.len() ==> (#[trigger] final(notes)@[k]).start_us + final(notes)@[k].duration_us <= u64::MAX
            || (k < old(notes)@.len() && final(notes)@[k] == old(notes)@[k]),
        final(notes)@.len() >= old(notes)@.len(),
        forall|k: int| 0 <= k < old(notes)@.len() ==> #[trigger] final(notes)@[k] == old(notes)@[k],
{
    let ghost ov = open_view(open@);
    let ghost g = seg_view(segs@);
    let mut i = open.len();
    proof {
        lemma_last_open(ov, channel, key, i as int);
    }
    while i > 0 && !(open[i - 1].0 == channel && open[i - 1].1 == key)
        invariant
            i <= open@.len(),
            ov == open_view(open@),
            last_open(ov, channel, key, ov.len() as int) == last_open(ov, channel, key, i as int),
        decreases i,
    {
        i -= 1;
    }
    if i == 0 {
        return;
    }
    let k = i - 1;
    let ghost before_notes = notes@;
    let o = open.remove(k);
    let start = tick_to_us(segs, o.2, division);
    let end_tick = if end_tick > o.2 { end_tick } else { o.2 };
    let end = tick_to_us(segs, end_tick, division);
    proof {
        lemma_tick_us_monotone(g, division as int, o.2 as int, end_tick as int);
    }
    notes.push(MidiNote { start_us: start, duration_us: end - start, channel, key, velocity: o.3, program: o.4 });
    proof {
        assert(open_view(open@) =~= ov.remove(k as int));
        assert(notes_view(notes@) =~= notes_view(before_notes).push(
            (start as int, (end - start) as int, channel, key, o.3, o.4),
        ));
    }
}

/// The state after playing all events in order: notes still open, notes
/// ended, the latest tick.
fn pair_events(sorted: &Vec<(u64, TrackEvent)>, segs: &Vec<(u64, u64, u32)>, division: u16) -> (r: (
    Vec<(u8, u8, u64, u8, u8)>,
    Vec<MidiNote>,
    u64,
))
    requires
        pairing_ready(seg_view(segs@), division as int),
        forall|j: int| 0 <= j < sorted@.len() ==> time_fits(seg_view(segs@), (#[trigger] sorted@[j]).0 as int, division as int),
    ensures
        (open_view(r.0@), notes_view(r.1@), r.2 as int) == pair_notes(
            timed_view(sorted@),
            0,
            Seq::new(256, |i: int| 0u8),
            Seq::empty(),
            Seq::empty(),
            0,
            seg_view(segs@),
            division as int,
        ),
        forall|k: int| 0 <= k < r.0@.len() ==> time_fits(seg_view(segs@), (#[trigger] r.0@[k]).2 as int, division as int),
        r.0@.len() > 0 ==> time_fits(seg_view(segs@), r.2 as int, division as int),
        forall|k: int| 0 <= k < r.1@.len() ==> (#[trigger] r.1@[k]).start_us + r.1@[k].duration_us <= u64::MAX,
{
    let ghost tv = timed_view(sorted@);
    let ghost g = seg_view(segs@);
    let ghost d = division as int;
    let mut programs: Vec<u8> = Vec::new();
    let mut c: usize = 0;
    while c < 256
        invariant
            c <= 256,
            programs@ == Seq::new(c as nat, |i: int| 0u8),
        decreases 256 - c,
    {
        programs.push(0);
        c += 1;
        assert(programs@ =~= Seq::new(c as nat, |i: int| 0u8));
    }
    let mut open: Vec<(u8, u8, u64, u8, u8)> = Vec::new();
    let mut notes: Vec<MidiNote> = Vec::new();
    let mut max_tick: u64 = 0;
    let mut i: usize = 0;
    proof {
        assert(open_view(open@) =~= Seq::<Open>::empty());
        assert(notes_view(notes@) =~= Seq::<NoteModel>::empty());
    }
    while i < sorted.len()
        invariant
            i <= sorted@.len(),
            tv == timed_view(sorted@),
            g == seg_view(segs@),
            d == division as int,
            pairing_ready(g, d),
            forall|j: int| 0 <= j < sorted@.len() ==> time_fits(g, (#[trigger] sorted@[j]).0 as int, d),
            programs@.len() == 256,
            pair_notes(tv, 0, Seq::new(256, |i: int| 0u8), Seq::empty(), Seq::empty(), 0, g, d) == pair_notes(
                tv,
                i as int,
                programs@,
                open_view(open@),
                notes_view(notes@),
                max_tick as int,
                g,
                d,
            ),
            forall|k: int| 0 <= k < open@.len() ==> time_fits(g, (#[trigger] open@[k]).2 as int, d),
            open@.len() > 0 ==> i > 0,
            i == 0 ==> max_tick == 0,
            i > 0 ==> time_fits(g, max_tick as int, d),
            forall|k: int| 0 <= k < notes@.len() ==> (#[trigger] notes@[k]).start_us + notes@[k].duration_us <= u64::MAX,
        decreases sorted@.len() - i,
    {
        let (t, e) = sorted[i];
        assert(time_fits(g, sorted@[i as int].0 as int, d));
        let new_max = if t > max_tick { t } else { max_tick };
        match e {
            TrackEvent::Program { channel, program } => {
                programs.set(channel as usize, program);
            },
            TrackEvent::NoteOn { channel, key, velocity } => {
                let ghost before = open@;
                open.push((channel, key, t, velocity, programs[channel as usize]));
                proof {
                    assert(open_view(open@) =~= open_view(before).push((channel, key, t as int, velocity, programs@[channel as int])));
                    assert forall|k: int| 0 <= k < open@.len() implies time_fits(g, (#[trigger] open@[k]).2 as int, d) by {
                        if k < before.len() {
                            assert(open@[k] == before[k]);
                        }
                    }
                }
            },
            TrackEvent::NoteOff { channel, key } => {
                let ghost before_notes = notes@;
                close(&mut open, &mut notes, channel, key, t, segs, division);
                proof {
                    assert forall|k: int| 0 <= k < notes@.len() implies (#[trigger] notes@[k]).start_us + notes@[k].duration_us <= u64::MAX by {
                        if k < before_notes.len() {
                            assert(notes@[k] == before_notes[k]);
                        }
                    }
                }
            },
            TrackEvent::Tempo { .. } => {},
        }
        max_tick = new_max;
        i += 1;
    }
    (open, notes, max_tick)
}

/// Closing what is still open at `end_tick`.
fn drain_open(
    open: Vec<(u8, u8, u64, u8, u8)>,
    notes: Vec<MidiNote>,
    end_tick: u64,
    segs: &Vec<(u64, u64, u32)>,
    division: u16,
) -> (r: Vec<MidiNote>)
    requires
        pairing_ready(seg_view(segs@), division as int),
        open@.len() > 0 ==> time_fits(seg_view(segs@), end_tick as int, division as int),
        forall|k: int| 0 <= k < open@.len() ==> time_fits(seg_view(segs@), (#[trigger] open@[k]).2 as int, division as int),
        forall|k: int| 0 <= k < notes@.len() ==> (#[trigger] notes@[k]).start_us + notes@[k].duration_us <= u64::MAX,
    ensures
        notes_view(r@) == drain(open_view(open@), notes_view(notes@), end_tick as int, seg_view(segs@), division as int),
        forall|k: int| 0 <= k < r@.len() ==> (#[trigger] r@[k]).start_us + r@[k].duration_us <= u64::MAX,
{
    let ghost g = seg_view(segs@);
    let ghost d = division as int;
    let ghost goal = drain(open_view(open@), notes_view(notes@), end_tick as int, g, d);
    let mut open = open;
    let mut notes = notes;
    while open.len() > 0
        invariant
            g == seg_view(segs@),
            d == division as int,
            pairing_ready(g, d),
            open@.len() > 0 ==> time_fits(g, end_tick as int, d),
            forall|k: int| 0 <= k < open@.len() ==> time_fits(g, (#[trigger] open@[k]).2 as int, d),
            forall|k: int| 0 <= k < notes@.len() ==> (#[trigger] notes@[k]).start_us + notes@[k].duration_us <= u64::MAX,
            goal == drain(open_view(open@), notes_view(notes@), end_tick as int, g, d),
        decreases open@.len(),
    {
        let channel = open[0].0;
        let key = open[0].1;
        let ghost ov = open_view(open@);
        let ghost before_notes = notes@;
        proof {
            lemma_last_open(ov, channel, key, ov.len() as int);
            assert(ov[0].0 == channel && ov[0].1 == key);
        }
        close(&mut open, &mut notes, channel, key, end_tick, segs, division);
        proof {
            assert forall|k: int| 0 <= k < notes@.len() implies (#[trigger] notes@[k]).start_us + notes@[k].duration_us <= u64::MAX by {
                if k < before_notes.len() {
                    assert(notes@[k] == before_notes[k]);
                }
            }
        }
    }
    proof {
        assert(open_view(open@) =~= Seq::<Open>::empty());
    }
    notes
}

/// The notes by start, channel and key, their order kept among equals.
fn sort_midi_notes(notes: Vec<MidiNote>) -> (r: Vec<MidiNote>)
    requires
        forall|k: int| 0 <= k < notes@.len() ==> (#[trigger] notes@[k]).start_us + notes@[k].duration_us <= u64::MAX,
    ensures
        notes_view(r@) == sort_notes(notes_view(notes@)),
        forall|k: int| 0 <= k < r@.len() ==> (#[trigger] r@[k]).start_us + r@[k].duration_us <= u64::MAX,
{
    let ghost nv = notes_view(notes@);
    let mut sorted: Vec<MidiNote> = Vec::new();
    let mut i: usize = 0;
    while i < notes.len()
        invariant
            i <= notes@.len(),
            nv == notes_view(notes@),
            forall|k: int| 0 <= k < notes@.len() ==> (#[trigger] notes@[k]).start_us + notes@[k].duration_us <= u64::MAX,
            notes_view(sorted@) == sort_notes(nv.subrange(0, i as int)),
            forall|k: int| 0 <= k < sorted@.len() ==> (#[trigger] sorted@[k]).start_us + sorted@[k].duration_us <= u64::MAX,
        decreases notes@.len() - i,
    {
        let n = MidiNote {
            start_us: notes[i].start_us,
            duration_us: notes[i].duration_us,
            channel: notes[i].channel,
            key: notes[i].key,
            velocity: notes[i].velocity,
            program: notes[i].program,
        };
        let ghost sv = notes_view(sorted@);
        let mut p: usize = 0;
        while p < sorted.len() && (sorted[p].start_us < n.start_us || (sorted[p].start_us == n.start_us && (
        sorted[p].channel < n.channel || (sorted[p].channel == n.channel && sorted[p].key <= n.key))))
            invariant
                p <= sorted@.len(),
                sv == notes_view(sorted@),
                after_note(sv, note_view(n), 0) == after_note(sv, note_view(n), p as int),
            decreases sorted@.len() - p,
        {
            p += 1;
        }
        let ghost before = sorted@;
        sorted.insert(p, n);
        proof {
            let pre = nv.subrange(0, i + 1);
            assert(pre.drop_last() =~= nv.subrange(0, i as int));
            assert(pre.last() == note_view(n));
            assert(notes_view(sorted@) =~= sv.insert(p as int, note_view(n)));
            assert forall|k: int| 0 <= k < sorted@.len() implies (#[trigger] sorted@[k]).start_us + sorted@[k].duration_us <= u64::MAX by {
                if k < p {
                    assert(sorted@[k] == before[k]);
                } else if k > p {
                    assert(sorted@[k] == before[k - 1]);
                }
            }
        }
        i += 1;
    }
    proof {
        assert(nv.subrange(0, i as int) =~= nv);
    }
    sorted
}

/// The latest end of the notes, 0 for none.
fn latest_end(notes: &Vec<MidiNote>) -> (r: u64)
    requires
        forall|k: int| 0 <= k < notes@.len() ==> (#[trigger] notes@[k]).start_us + notes@[k].duration_us <= u64::MAX,
    ensures
        r == last_end(notes_view(notes@)),
{
    let ghost nv = notes_view(notes@);
    let mut best: u64 = 0;
    let mut i: usize = 0;
    while i < notes.len()
        invariant
            i <= notes@.len(),
            nv == notes_view(notes@),
            forall|k: int| 0 <= k < notes@.len() ==> (#[trigger] notes@[k]).start_us + notes@[k].duration_us <= u64::MAX,
            best == last_end(nv.subrange(0, i as int)),
        decreases notes@.len() - i,
    {
        let e = notes[i].start_us + notes[i].duration_us;
        proof {
            let pre = nv.subrange(0, i + 1);
            assert(pre.drop_last() =~= nv.subrange(0, i as int));
            assert(pre.last() == nv[i as int]);
        }
        if e > best {
            best = e;
        }
        i += 1;
    }
    proof {
        assert(nv.subrange(0, i as int) =~= nv);
    }
    best
}

pub open spec fn song_view(s: MidiSong) -> (u16, u16, u16, Seq<NoteModel>, int) {
    (s.format, s.track_count, s.ticks_per_quarter, notes_view(s.notes@), s.duration_us as int)
}

/// The notes of the events, in order, and the song's duration.
fn build_notes(events: &Vec<(u64, TrackEvent)>, division: u16) -> (r: (Vec<MidiNote>, u64))
    requires
        division > 0,
        ({
            let sorted = sort_by_tick(timed_view(events@));
            let segs = segments(sorted, division as int);
            &&& map_fits(segs)
            &&& forall|j: int| 0 <= j < sorted.len() ==> time_fits(segs, (#[trigger] sorted[j]).0, division as int)
        }),
    ensures
        notes_view(r.0@) == notes_of(timed_view(events@), division as int),
        r.1 == last_end(notes_of(timed_view(events@), division as int)),
{
    reveal(notes_of);
    let sorted = sort_events(events);
    let ghost tv = timed_view(sorted@);
    let ghost d = division as int;
    proof {
        lemma_sort_by_tick(timed_view(events@));
        assert forall|k: int| 0 <= k < tv.len() implies (#[trigger] tv[k]).0 >= 0 by {}
        lemma_segments(tv, d);
    }
    let segs = build_segments(&sorted, division);
    proof {
        assert forall|j: int| 0 <= j < sorted@.len() implies time_fits(seg_view(segs@), (#[trigger] sorted@[j]).0 as int, d) by {
            assert(tv[j].0 == sorted@[j].0 as int);
            assert(time_fits(seg_view(segs@), tv[j].0, d));
        }
    }
    let (open, notes, max_tick) = pair_events(&sorted, &segs, division);
    let all = drain_open(open, notes, max_tick, &segs, division);
    let ordered = sort_midi_notes(all);
    let duration_us = latest_end(&ordered);
    (ordered, duration_us)
}

/// Parse one Standard MIDI File into an absolute-time note list. Inputs
/// whose times do not fit in 64 bits are outside the contract, as are
/// blobs of 32 GiB or more.
pub fn parse(bytes: &[u8]) -> (r: Result<MidiSong, MidiError>)
    requires
        bytes@.len() < 0x8_0000_0000,
        timing_fits(bytes@),
    ensures
        match song_spec(bytes@) {
            Ok(song) => r matches Ok(s) && song_view(s) == song,
            Err(e) => r == Err::<MidiSong, MidiError>(e),
        },
{
    let (format, track_count, division, events) = match scan(bytes) {
        Ok(x) => x,
        Err(e) => return Err(e),
    };
    let (notes, duration_us) = build_notes(&events, division);
    Ok(MidiSong { format, track_count, ticks_per_quarter: division, notes, duration_us })
}


/// A system-exclusive event (status `F0` or `F7`) with a one-byte delta and
/// a one-byte length `L` skips its `L` payload bytes: the next event starts
/// right after them, the tick advances by the delta, the running status is
/// cleared and no note event comes of it.
pub proof fn lemma_sysex_skips_payload(b: Seq<u8>, end: int, pos: int, tick: int, running: Option<u8>, track: u16)
    requires
        0 <= pos,
        pos + 3 <= end <= b.len(),
        b[pos] < 128,
        b[pos + 1] == 0xf0 || b[pos + 1] == 0xf7,
        b[pos + 2] < 128,
        pos + 3 + b[pos + 2] <= end,
    ensures
        event_at(b, end, pos, tick, running, track) == Ok::<Step, MidiError>(
            (pos + 3 + b[pos + 2], tick + b[pos], None, None),
        ),
{
    assert(vlq_from(b, end, pos, 0, 0, track) == Ok::<(int, int), MidiError>((b[pos] as int, pos + 1)));
    assert(vlq_from(b, end, pos + 2, 0, 0, track) == Ok::<(int, int), MidiError>((b[pos + 2] as int, pos + 3)));
}

/// A system-exclusive event is transparent to the rest of the track: the
/// events read from it on are the events read from just past its payload,
/// at the tick its delta reaches. So a track that opens with a SysEx holds
/// the same notes as the track without it.
pub proof fn lemma_sysex_transparent(b: Seq<u8>, end: int, pos: int, tick: int, running: Option<u8>, track: u16)
    requires
        0 <= pos,
        0 <= tick,
        pos + 3 <= end <= b.len(),
        b[pos] < 128,
        b[pos + 1] == 0xf0 || b[pos + 1] == 0xf7,
        b[pos + 2] < 128,
        pos + 3 + b[pos + 2] <= end,
    ensures
        track_events(b, end, pos, tick, running, track) == track_events(
            b,
            end,
            pos + 3 + b[pos + 2],
            tick + b[pos],
            None,
            track,
        ),
{
    lemma_sysex_skips_payload(b, end, pos, tick, running, track);
}


/// A meta event (status `FF`) with a one-byte delta and a one-byte length
/// `L` also skips its payload: the next event starts right after it. Only a
/// three-byte tempo (`FF 51 03`) yields an event, carrying the payload read
/// as a big-endian count of microseconds per quarter note.
pub proof fn lemma_meta_skips_payload(b: Seq<u8>, end: int, pos: int, tick: int, running: Option<u8>, track: u16)
    requires
        0 <= pos,
        pos + 4 <= end <= b.len(),
        b[pos] < 128,
        b[pos + 1] == 0xff,
        b[pos + 3] < 128,
        pos + 4 + b[pos + 3] <= end,
    ensures
        !(b[pos + 2] == 0x51 && b[pos + 3] == 3) ==> event_at(b, end, pos, tick, running, track) == Ok::<
            Step,
            MidiError,
        >((pos + 4 + b[pos + 3], tick + b[pos], None, None)),
        (b[pos + 2] == 0x51 && b[pos + 3] == 3) ==> event_at(b, end, pos, tick, running, track) == Ok::<
            Step,
            MidiError,
        >(
            (
                pos + 7,
                tick + b[pos],
                None,
                Some(
                    TrackEvent::Tempo {
                        us_per_quarter: (b[pos + 4] * 0x10000 + b[pos + 5] * 0x100 + b[pos + 6]) as u32,
                    },
                ),
            ),
        ),
{
    assert(vlq_from(b, end, pos, 0, 0, track) == Ok::<(int, int), MidiError>((b[pos] as int, pos + 1)));
    assert(vlq_from(b, end, pos + 3, 0, 0, track) == Ok::<(int, int), MidiError>((b[pos + 3] as int, pos + 4)));
}

} // verus!
