//! Yamaha SMAF/MMF: a bounded reader for Handy Phone Standard score tracks
//! that keeps every chunk it does not interpret, a writer that re-encodes
//! what it read, and a deterministic approximation as a standard MIDI file.

use vstd::prelude::*;
use crate::media::error::Error;
use crate::platform::resources::{lossy_text, utf8_lossy};
use crate::text::text_of;
use vstd::string::StringSliceAdditionalSpecFns;

verus! {

/// One bit of the CRC-16/CCITT shift register (polynomial `0x1021`).
pub open spec fn crc_bit(crc: u16) -> u16 {
    if crc & 0x8000u16 != 0 {
        (crc << 1u16) ^ 0x1021u16
    } else {
        crc << 1u16
    }
}

/// `n` bits of the register.
pub open spec fn crc_bits(crc: u16, n: nat) -> u16
    decreases n,
{
    if n == 0 {
        crc
    } else {
        crc_bits(crc_bit(crc), (n - 1) as nat)
    }
}

/// The register after one byte, fed most significant bit first.
pub open spec fn crc_byte(crc: u16, byte: u8) -> u16 {
    crc_bits(crc ^ ((byte as u16) << 8u16), 8)
}

/// The register after all of `data`, starting from `0xffff`.
pub open spec fn crc_register(data: Seq<u8>) -> u16
    decreases data.len(),
{
    if data.len() == 0 {
        0xffff
    } else {
        crc_byte(crc_register(data.drop_last()), data.last())
    }
}

/// The SMAF checksum: CRC-16/CCITT from `0xffff`, complemented.
pub fn crc16(data: &[u8]) -> (r: u16)
    ensures
        r == !crc_register(data@),
{
    let mut crc: u16 = 0xffff;
    let mut i: usize = 0;
    while i < data.len()
        invariant
            i <= data@.len(),
            crc == crc_register(data@.subrange(0, i as int)),
        decreases data@.len() - i,
    {
        let ghost start = crc ^ ((data[i as int] as u16) << 8u16);
        crc = crc ^ ((data[i] as u16) << 8u16);
        let mut bit: u32 = 0;
        while bit < 8
            invariant
                bit <= 8,
                crc_bits(start, 8) == crc_bits(crc, (8 - bit) as nat),
            decreases 8 - bit,
        {
            crc = if crc & 0x8000 != 0 {
                (crc << 1u16) ^ 0x1021
            } else {
                crc << 1u16
            };
            bit += 1;
        }
        proof {
            let pre = data@.subrange(0, i + 1);
            assert(pre.drop_last() =~= data@.subrange(0, i as int));
            assert(pre.last() == data@[i as int]);
        }
        i += 1;
    }
    proof {
        assert(data@.subrange(0, i as int) =~= data@);
    }
    !crc
}

/// The milliseconds of a score track's time-base code, for the codes the
/// format defines.
pub open spec fn time_base_spec(code: u8) -> Option<u16> {
    if code == 0x00 {
        Some(1)
    } else if code == 0x01 {
        Some(2)
    } else if code == 0x02 {
        Some(4)
    } else if code == 0x03 {
        Some(5)
    } else if code == 0x10 {
        Some(10)
    } else if code == 0x11 {
        Some(20)
    } else if code == 0x12 {
        Some(40)
    } else if code == 0x13 {
        Some(50)
    } else {
        None
    }
}

pub fn time_base_ms(code: u8) -> (r: Option<u16>)
    ensures
        r == time_base_spec(code),
{
    match code {
        0x00 => Some(1),
        0x01 => Some(2),
        0x02 => Some(4),
        0x03 => Some(5),
        0x10 => Some(10),
        0x11 => Some(20),
        0x12 => Some(40),
        0x13 => Some(50),
        _ => None,
    }
}

} // verus!

verus! {

#[derive(Debug, Clone, Copy, PartialEq, Eq, Structural)]
pub enum Controller {
    Modulation,
    Volume,
    Pan,
    Expression,
}

impl Controller {
    /// The MIDI controller number this controller maps to.
    pub fn midi_number(self) -> (r: u8)
        ensures
            r == match self {
                Controller::Modulation => 1u8,
                Controller::Volume => 7u8,
                Controller::Pan => 10u8,
                Controller::Expression => 11u8,
            },
    {
        match self {
            Controller::Modulation => 1,
            Controller::Volume => 7,
            Controller::Pan => 10,
            Controller::Expression => 11,
        }
    }
}

#[derive(Debug, Clone, PartialEq, Eq)]
pub enum EventKind {
    Note { channel: u8, octave: u8, note: u8, pitch: u8, gate: u32 },
    ProgramChange { channel: u8, program: u8 },
    BankSelect { channel: u8, bank: u8 },
    OctaveShift { channel: u8, shift: u8 },
    /// `compact_selector` is the selector nibble when the stream used a
    /// one-byte compact form, `None` for the explicit two-byte form.
    ControlChange { channel: u8, controller: Controller, value: u8, compact_selector: Option<u8> },
    PitchBend { channel: u8, value: u16, compact_selector: Option<u8> },
    Meta { kind: u8, data: Vec<u8> },
    SystemExclusive(Vec<u8>),
    Nop,
    EndOfSequence,
    ReservedShort { channel: u8, event: u8, data: u8 },
    UnknownControl { channel: u8, selector: u8, value: u8 },
    Unknown(Vec<u8>),
}

/// An event kind as plain values.
pub enum KindModel {
    Note { channel: u8, octave: u8, note: u8, pitch: u8, gate: u32 },
    ProgramChange { channel: u8, program: u8 },
    BankSelect { channel: u8, bank: u8 },
    OctaveShift { channel: u8, shift: u8 },
    ControlChange { channel: u8, controller: Controller, value: u8, compact_selector: Option<u8> },
    PitchBend { channel: u8, value: u16, compact_selector: Option<u8> },
    Meta { kind: u8, data: Seq<u8> },
    SystemExclusive(Seq<u8>),
    Nop,
    EndOfSequence,
    ReservedShort { channel: u8, event: u8, data: u8 },
    UnknownControl { channel: u8, selector: u8, value: u8 },
    Unknown(Seq<u8>),
}

pub open spec fn kind_view(k: EventKind) -> KindModel {
    match k {
        EventKind::Note { channel, octave, note, pitch, gate } => KindModel::Note { channel, octave, note, pitch, gate },
        EventKind::ProgramChange { channel, program } => KindModel::ProgramChange { channel, program },
        EventKind::BankSelect { channel, bank } => KindModel::BankSelect { channel, bank },
        EventKind::OctaveShift { channel, shift } => KindModel::OctaveShift { channel, shift },
        EventKind::ControlChange { channel, controller, value, compact_selector } => KindModel::ControlChange {
            channel,
            controller,
            value,
            compact_selector,
        },
        EventKind::PitchBend { channel, value, compact_selector } => KindModel::PitchBend {
            channel,
            value,
            compact_selector,
        },
        EventKind::Meta { kind, data } => KindModel::Meta { kind, data: data@ },
        EventKind::SystemExclusive(d) => KindModel::SystemExclusive(d@),
        EventKind::Nop => KindModel::Nop,
        EventKind::EndOfSequence => KindModel::EndOfSequence,
        EventKind::ReservedShort { channel, event, data } => KindModel::ReservedShort { channel, event, data },
        EventKind::UnknownControl { channel, selector, value } => KindModel::UnknownControl { channel, selector, value },
        EventKind::Unknown(d) => KindModel::Unknown(d@),
    }
}

impl EventKind {
    /// The channel of a channel event.
    pub fn channel(&self) -> (r: Option<u8>)
        ensures
            r == match *self {
                EventKind::Note { channel, .. } | EventKind::ProgramChange { channel, .. }
                | EventKind::BankSelect { channel, .. } | EventKind::OctaveShift { channel, .. }
                | EventKind::ControlChange { channel, .. } | EventKind::PitchBend { channel, .. }
                | EventKind::ReservedShort { channel, .. } | EventKind::UnknownControl { channel, .. } => Some(channel),
                _ => None,
            },
    {
        match self {
            EventKind::Note { channel, .. } | EventKind::ProgramChange { channel, .. } | EventKind::BankSelect {
                channel,
                ..
            } | EventKind::OctaveShift { channel, .. } | EventKind::ControlChange { channel, .. }
            | EventKind::PitchBend { channel, .. } | EventKind::ReservedShort { channel, .. }
            | EventKind::UnknownControl { channel, .. } => Some(*channel),
            _ => None,
        }
    }
}

#[derive(Debug, Clone, PartialEq, Eq)]
pub struct Event {
    /// Relative SMAF duration units before this event.
    pub delta: u32,
    pub offset: usize,
    pub kind: EventKind,
}

/// An event as plain values: delta, offset, kind.
pub type EventModel = (u32, int, KindModel);

pub open spec fn event_view(e: Event) -> EventModel {
    (e.delta, e.offset as int, kind_view(e.kind))
}

} // verus!

verus! {

/// The error of a read of `needed` bytes at `pos` that runs past the end.
pub open spec fn eof_at(d: Seq<u8>, base: int, pos: int, needed: int) -> Error {
    Error::UnexpectedEof { offset: (base + pos) as usize, needed: needed as usize, remaining: (d.len() - pos) as usize }
}

/// A Handy Phone duration at `pos`: one byte below 128, else two bytes
/// holding `(high + 1) * 128` or-ed with the second byte; with the position after it.
pub open spec fn handy_at(d: Seq<u8>, base: int, pos: int) -> Result<(u32, int), Error> {
    if pos >= d.len() {
        Err(eof_at(d, base, pos, 1))
    } else if d[pos] < 128 {
        Ok((d[pos] as u32, pos + 1))
    } else if pos + 1 >= d.len() {
        Err(eof_at(d, base, pos + 1, 1))
    } else {
        Ok(((((d[pos] - 127) * 128) as u32) | (d[pos + 1] as u32), pos + 2))
    }
}

/// The modulation depth of a compact modulation selector.
pub open spec fn modulation_value(selector: u8) -> Option<u8> {
    if selector == 0 || selector >= 15 {
        None
    } else if selector <= 11 {
        Some(((selector - 1) * 8) as u8)
    } else if selector == 12 {
        Some(96)
    } else if selector == 13 {
        Some(112)
    } else {
        Some(127)
    }
}

/// The two-byte control event with selector `selector` and data `value`.
pub open spec fn control_kind(channel: u8, selector: u8, value: u8) -> KindModel {
    if selector == 0 {
        KindModel::ProgramChange { channel, program: value }
    } else if selector == 1 {
        KindModel::BankSelect { channel, bank: value }
    } else if selector == 2 {
        KindModel::OctaveShift { channel, shift: value }
    } else if selector == 3 {
        KindModel::ControlChange { channel, controller: Controller::Modulation, value, compact_selector: None }
    } else if selector == 4 {
        KindModel::PitchBend { channel, value: (value * 128) as u16, compact_selector: None }
    } else if selector == 7 {
        KindModel::ControlChange { channel, controller: Controller::Volume, value, compact_selector: None }
    } else if selector == 0x0a {
        KindModel::ControlChange { channel, controller: Controller::Pan, value, compact_selector: None }
    } else if selector == 0x0b {
        KindModel::ControlChange { channel, controller: Controller::Expression, value, compact_selector: None }
    } else {
        KindModel::UnknownControl { channel, selector, value }
    }
}

/// The one-byte compact control event of kind `event` (0 to 2).
pub open spec fn compact_kind(channel: u8, event: u8, selector: u8) -> KindModel {
    if event == 2 {
        match modulation_value(selector) {
            Some(value) => KindModel::ControlChange {
                channel,
                controller: Controller::Modulation,
                value,
                compact_selector: Some(selector),
            },
            None => KindModel::ReservedShort { channel, event, data: selector },
        }
    } else if event == 1 {
        KindModel::PitchBend { channel, value: (selector * 1024) as u16, compact_selector: Some(selector) }
    } else {
        KindModel::ControlChange {
            channel,
            controller: Controller::Expression,
            value: if selector == 1 { 0u8 } else { (selector * 8 + 15) as u8 },
            compact_selector: Some(selector),
        }
    }
}

/// The `0xff`-prefixed event whose second byte sits at `p`.
pub open spec fn escape_at(d: Seq<u8>, base: int, p: int) -> Result<(KindModel, int), Error> {
    if p >= d.len() {
        Err(eof_at(d, base, p, 1))
    } else {
        let second = d[p];
        if second == 0x2f || second == 0x51 || second == 0x58 || second == 0xf0 {
            if p + 1 >= d.len() {
                Err(eof_at(d, base, p + 1, 1))
            } else {
                let n = d[p + 1] as int;
                if p + 2 + n > d.len() {
                    Err(eof_at(d, base, p + 2, n))
                } else {
                    let body = d.subrange(p + 2, p + 2 + n);
                    Ok((
                        if second == 0xf0 {
                            KindModel::SystemExclusive(body)
                        } else {
                            KindModel::Meta { kind: second, data: body }
                        },
                        p + 2 + n,
                    ))
                }
            }
        } else if second == 0 {
            Ok((KindModel::Nop, p + 1))
        } else {
            Err(
                Error::InvalidValue {
                    offset: (base + p) as usize,
                    field: "Handy Phone 0xff event",
                    value: second as u64,
                },
            )
        }
    }
}

/// The event body starting at `p` (after its delta), with the position after it.
pub open spec fn kind_at(d: Seq<u8>, base: int, p: int) -> Result<(KindModel, int), Error> {
    if p >= d.len() {
        Err(eof_at(d, base, p, 1))
    } else {
        let first = d[p];
        if first == 0xff {
            escape_at(d, base, p + 1)
        } else if first != 0 {
            match handy_at(d, base, p + 1) {
                Err(e) => Err(e),
                Ok((gate, q)) => Ok((
                    KindModel::Note {
                        channel: first / 64,
                        octave: (first / 16) % 4,
                        note: first % 16,
                        pitch: (first % 16 + (first / 16) % 4 * 12) as u8,
                        gate,
                    },
                    q,
                )),
            }
        } else if p + 1 >= d.len() {
            Err(eof_at(d, base, p + 1, 1))
        } else {
            let second = d[p + 1];
            if second == 0 {
                if p + 2 >= d.len() {
                    Err(eof_at(d, base, p + 2, 1))
                } else if d[p + 2] == 0 {
                    Ok((KindModel::EndOfSequence, p + 3))
                } else {
                    Ok((KindModel::Unknown(seq![0u8, 0u8, d[p + 2]]), p + 3))
                }
            } else {
                let channel = second / 64;
                let event = (second / 16) % 4;
                let selector = second % 16;
                if event == 3 {
                    if p + 2 >= d.len() {
                        Err(eof_at(d, base, p + 2, 1))
                    } else {
                        Ok((control_kind(channel, selector, d[p + 2]), p + 3))
                    }
                } else {
                    Ok((compact_kind(channel, event, selector), p + 2))
                }
            }
        }
    }
}

/// The events of a score sequence from `pos` on, each with its delta and
/// its offset `base + pos`; the first read that fails ends it with its error.
pub open spec fn events_from(d: Seq<u8>, base: int, pos: int) -> Result<Seq<EventModel>, Error>
    decreases d.len() - pos,
{
    if pos < 0 || pos >= d.len() {
        Ok(seq![])
    } else {
        match handy_at(d, base, pos) {
            Err(e) => Err(e),
            Ok((delta, p1)) => match kind_at(d, base, p1) {
                Err(e) => Err(e),
                Ok((kind, p2)) => if pos < p2 {
                    match events_from(d, base, p2) {
                        Ok(rest) => Ok(seq![(delta, base + pos, kind)] + rest),
                        Err(e) => Err(e),
                    }
                } else {
                    Ok(seq![])
                },
            },
        }
    }
}

/// The events of a whole score sequence that starts at file offset `base`.
#[verifier::opaque]
pub open spec fn sequence_spec(d: Seq<u8>, base: int) -> Result<Seq<EventModel>, Error> {
    events_from(d, base, 0)
}

pub open spec fn events_view(v: Seq<Event>) -> Seq<EventModel> {
    v.map_values(|e: Event| event_view(e))
}

fn read_byte(data: &[u8], base: usize, pos: usize) -> (r: Result<u8, Error>)
    requires
        base + data@.len() <= usize::MAX,
        pos <= data@.len(),
    ensures
        match r {
            Ok(b) => pos < data@.len() && b == data@[pos as int],
            Err(e) => pos >= data@.len() && e == eof_at(data@, base as int, pos as int, 1),
        },
{
    if pos < data.len() {
        Ok(data[pos])
    } else {
        Err(Error::UnexpectedEof { offset: base + pos, needed: 1, remaining: data.len() - pos })
    }
}

fn read_handy(data: &[u8], base: usize, pos: usize) -> (r: Result<(u32, usize), Error>)
    requires
        base + data@.len() <= usize::MAX,
        pos <= data@.len(),
    ensures
        match r {
            Ok((v, q)) => handy_at(data@, base as int, pos as int) == Ok::<(u32, int), Error>((v, q as int)),
            Err(e) => handy_at(data@, base as int, pos as int) == Err::<(u32, int), Error>(e),
        },
{
    let first = read_byte(data, base, pos)?;
    if first < 128 {
        Ok((first as u32, pos + 1))
    } else {
        let second = read_byte(data, base, pos + 1)?;
        let low: u32 = (first & 0x7f) as u32;
        let high: u32 = low + 1;
        let v: u32 = (high << 7u32) | (second as u32);
        assert(low == first - 128) by (bit_vector)
            requires
                first >= 128,
                low == (first & 0x7f) as u32,
        ;
        assert(v == ((high * 128) as u32) | (second as u32)) by (bit_vector)
            requires
                high <= 128,
                v == (high << 7u32) | (second as u32),
        ;
        Ok((v, pos + 2))
    }
}

fn byte_range(data: &[u8], start: usize, end: usize) -> (r: Vec<u8>)
    requires
        start <= end <= data@.len(),
    ensures
        r@ == data@.subrange(start as int, end as int),
{
    let mut out: Vec<u8> = Vec::new();
    let mut i: usize = start;
    while i < end
        invariant
            start <= i <= end <= data@.len(),
            out@ == data@.subrange(start as int, i as int),
        decreases end - i,
    {
        out.push(data[i]);
        i += 1;
    }
    out
}

fn modulation_of(selector: u8) -> (r: Option<u8>)
    ensures
        r == modulation_value(selector),
{
    match selector {
        1 => Some(0),
        2 => Some(8),
        3 => Some(16),
        4 => Some(24),
        5 => Some(32),
        6 => Some(40),
        7 => Some(48),
        8 => Some(56),
        9 => Some(64),
        10 => Some(72),
        11 => Some(80),
        12 => Some(96),
        13 => Some(112),
        14 => Some(127),
        _ => None,
    }
}

fn control_event(channel: u8, selector: u8, value: u8) -> (r: EventKind)
    ensures
        kind_view(r) == control_kind(channel, selector, value),
{
    match selector {
        0 => EventKind::ProgramChange { channel, program: value },
        1 => EventKind::BankSelect { channel, bank: value },
        2 => EventKind::OctaveShift { channel, shift: value },
        3 => EventKind::ControlChange { channel, controller: Controller::Modulation, value, compact_selector: None },
        4 => EventKind::PitchBend { channel, value: (value as u16) * 128, compact_selector: None },
        7 => EventKind::ControlChange { channel, controller: Controller::Volume, value, compact_selector: None },
        0x0a => EventKind::ControlChange { channel, controller: Controller::Pan, value, compact_selector: None },
        0x0b => EventKind::ControlChange { channel, controller: Controller::Expression, value, compact_selector: None },
        _ => EventKind::UnknownControl { channel, selector, value },
    }
}

fn compact_event(channel: u8, event: u8, selector: u8) -> (r: EventKind)
    requires
        event < 3,
        selector < 16,
    ensures
        kind_view(r) == compact_kind(channel, event, selector),
{
    if event == 2 {
        match modulation_of(selector) {
            Some(value) => EventKind::ControlChange {
                channel,
                controller: Controller::Modulation,
                value,
                compact_selector: Some(selector),
            },
            None => EventKind::ReservedShort { channel, event, data: selector },
        }
    } else if event == 1 {
        EventKind::PitchBend { channel, value: (selector as u16) * 1024, compact_selector: Some(selector) }
    } else {
        let value: u8 = if selector == 1 { 0 } else { selector * 8 + 15 };
        EventKind::ControlChange { channel, controller: Controller::Expression, value, compact_selector: Some(selector) }
    }
}

fn read_escape(data: &[u8], base: usize, p: usize) -> (r: Result<(EventKind, usize), Error>)
    requires
        base + data@.len() <= usize::MAX,
        p <= data@.len(),
    ensures
        match r {
            Ok((k, q)) => escape_at(data@, base as int, p as int) == Ok::<(KindModel, int), Error>((kind_view(k), q as int)),
            Err(e) => escape_at(data@, base as int, p as int) == Err::<(KindModel, int), Error>(e),
        },
{
    let second = read_byte(data, base, p)?;
    if second == 0x2f || second == 0x51 || second == 0x58 || second == 0xf0 {
        let n = read_byte(data, base, p + 1)? as usize;
        let start = p + 2;
        if n > data.len() - start {
            return Err(Error::UnexpectedEof { offset: base + start, needed: n, remaining: data.len() - start });
        }
        let body = byte_range(data, start, start + n);
        if second == 0xf0 {
            Ok((EventKind::SystemExclusive(body), start + n))
        } else {
            Ok((EventKind::Meta { kind: second, data: body }, start + n))
        }
    } else if second == 0 {
        Ok((EventKind::Nop, p + 1))
    } else {
        Err(Error::InvalidValue { offset: base + p, field: "Handy Phone 0xff event", value: second as u64 })
    }
}

fn read_kind(data: &[u8], base: usize, p: usize) -> (r: Result<(EventKind, usize), Error>)
    requires
        base + data@.len() <= usize::MAX,
        p <= data@.len(),
    ensures
        match r {
            Ok((k, q)) => kind_at(data@, base as int, p as int) == Ok::<(KindModel, int), Error>((kind_view(k), q as int)),
            Err(e) => kind_at(data@, base as int, p as int) == Err::<(KindModel, int), Error>(e),
        },
{
    let first = read_byte(data, base, p)?;
    if first == 0xff {
        read_escape(data, base, p + 1)
    } else if first != 0 {
        let (gate, q) = read_handy(data, base, p + 1)?;
        let channel = first / 64;
        let octave = (first / 16) % 4;
        let note = first % 16;
        Ok((EventKind::Note { channel, octave, note, pitch: note + octave * 12, gate }, q))
    } else {
        let second = read_byte(data, base, p + 1)?;
        if second == 0 {
            let third = read_byte(data, base, p + 2)?;
            if third == 0 {
                Ok((EventKind::EndOfSequence, p + 3))
            } else {
                let mut raw: Vec<u8> = Vec::new();
                raw.push(0);
                raw.push(0);
                raw.push(third);
                assert(raw@ =~= seq![0u8, 0u8, third]);
                Ok((EventKind::Unknown(raw), p + 3))
            }
        } else {
            let channel = second / 64;
            let event = (second / 16) % 4;
            let selector = second % 16;
            if event == 3 {
                let value = read_byte(data, base, p + 2)?;
                Ok((control_event(channel, selector, value), p + 3))
            } else {
                Ok((compact_event(channel, event, selector), p + 2))
            }
        }
    }
}

/// Reads the events of a Handy Phone score sequence whose first byte sits
/// at file offset `base`.
pub fn parse_sequence(data: &[u8], base: usize) -> (r: Result<Vec<Event>, Error>)
    requires
        base + data@.len() <= usize::MAX,
    ensures
        match r {
            Ok(events) => sequence_spec(data@, base as int) == Ok::<Seq<EventModel>, Error>(events_view(events@)),
            Err(e) => sequence_spec(data@, base as int) == Err::<Seq<EventModel>, Error>(e),
        },
{
    reveal(sequence_spec);
    let mut events: Vec<Event> = Vec::new();
    let mut pos: usize = 0;
    while pos < data.len()
        invariant
            base + data@.len() <= usize::MAX,
            pos <= data@.len(),
            sequence_spec(data@, base as int) == match events_from(data@, base as int, pos as int) {
                Ok(rest) => Ok(events_view(events@) + rest),
                Err(e) => Err::<Seq<EventModel>, Error>(e),
            },
        decreases data@.len() - pos,
    {
        let (delta, p1) = read_handy(data, base, pos)?;
        let (kind, p2) = read_kind(data, base, p1)?;
        proof {
            assert(p1 > pos);
            assert(p2 > p1);
        }
        let ghost old_events = events@;
        events.push(Event { delta, offset: base + pos, kind });
        proof {
            let head = seq![(delta, (base + pos) as int, kind_view(kind))];
            assert(events_view(events@) =~= events_view(old_events) + head);
            match events_from(data@, base as int, p2 as int) {
                Ok(rest) => {
                    assert(events_view(old_events) + (head + rest) =~= events_view(events@) + rest);
                },
                Err(e) => {},
            }
        }
        pos = p2;
    }
    proof {
        assert(events_view(events@) + seq![] =~= events_view(events@));
    }
    Ok(events)
}

} // verus!

verus! {

/// The bytes of a Handy Phone duration: one byte below 128, else the high
/// seven bits of `(value / 128) - 1` behind the 0x80 flag and the low seven bits.
pub open spec fn handy_bytes(value: u32) -> Seq<u8> {
    if value < 128 {
        seq![value as u8]
    } else {
        seq![(128 + (value / 128 - 1) % 128) as u8, (value % 128) as u8]
    }
}

/// The selector nibble of a controller's explicit two-byte form.
pub open spec fn control_selector_spec(controller: Controller) -> u8 {
    match controller {
        Controller::Modulation => 3,
        Controller::Volume => 7,
        Controller::Pan => 0x0a,
        Controller::Expression => 0x0b,
    }
}

/// The event nibble of a controller's compact one-byte form.
pub open spec fn compact_nibble(controller: Controller) -> u8 {
    match controller {
        Controller::Modulation => 2,
        _ => 0,
    }
}

/// The bytes an event body is written as (its delta not included).
pub open spec fn kind_bytes(kind: KindModel) -> Seq<u8> {
    match kind {
        KindModel::Note { channel, octave, note, gate, .. } => seq![
            (channel << 6u8) | (octave << 4u8) | note,
        ] + handy_bytes(gate),
        KindModel::Meta { kind, data } => seq![0xffu8, kind, data.len() as u8] + data,
        KindModel::SystemExclusive(data) => seq![0xffu8, 0xf0u8, data.len() as u8] + data,
        KindModel::Nop => seq![0xffu8, 0u8],
        KindModel::EndOfSequence => seq![0u8, 0u8, 0u8],
        KindModel::Unknown(bytes) => bytes,
        KindModel::ProgramChange { channel, program } => seq![0u8, (channel << 6u8) | 0x30u8, program],
        KindModel::BankSelect { channel, bank } => seq![0u8, (channel << 6u8) | 0x31u8, bank],
        KindModel::OctaveShift { channel, shift } => seq![0u8, (channel << 6u8) | 0x32u8, shift],
        KindModel::ControlChange { channel, controller, value, compact_selector } => match compact_selector {
            Some(selector) => seq![0u8, (channel << 6u8) | (compact_nibble(controller) << 4u8) | selector],
            None => seq![0u8, (channel << 6u8) | 0x30u8 | control_selector_spec(controller), value],
        },
        KindModel::PitchBend { channel, value, compact_selector } => match compact_selector {
            Some(selector) => seq![0u8, (channel << 6u8) | 0x10u8 | selector],
            None => seq![0u8, (channel << 6u8) | 0x34u8, (value / 128) as u8],
        },
        KindModel::ReservedShort { channel, event, data } => seq![0u8, (channel << 6u8) | (event << 4u8) | data],
        KindModel::UnknownControl { channel, selector, value } => seq![0u8, (channel << 6u8) | 0x30u8 | selector, value],
    }
}

/// The bytes an event is written as: its delta, then its body.
pub open spec fn event_bytes(e: EventModel) -> Seq<u8> {
    handy_bytes(e.0) + kind_bytes(e.2)
}

fn push_bytes(out: &mut Vec<u8>, data: &[u8])
    ensures
        final(out)@ == old(out)@ + data@,
{
    let mut i: usize = 0;
    while i < data.len()
        invariant
            i <= data@.len(),
            out@ == old(out)@ + data@.subrange(0, i as int),
        decreases data@.len() - i,
    {
        out.push(data[i]);
        i += 1;
        assert(out@ =~= old(out)@ + data@.subrange(0, i as int));
    }
    assert(data@.subrange(0, i as int) =~= data@);
}

fn write_handy_duration(out: &mut Vec<u8>, value: u32)
    ensures
        final(out)@ == old(out)@ + handy_bytes(value),
{
    if value < 128 {
        out.push(value as u8);
    } else {
        assert(value >> 7u32 >= 1) by (bit_vector)
            requires
                value >= 128,
        ;
        let q: u32 = (value >> 7u32) - 1;
        let high: u8 = 0x80 | ((q & 0x7f) as u8);
        let low: u8 = (value & 0x7f) as u8;
        assert(high == (128 + (value / 128 - 1) % 128) as u8 && low == (value % 128) as u8) by (bit_vector)
            requires
                value >= 128,
                q == ((value >> 7u32) - 1) as u32,
                high == 0x80 | ((q & 0x7f) as u8),
                low == (value & 0x7f) as u8,
        ;
        out.push(high);
        out.push(low);
    }
    assert(out@ =~= old(out)@ + handy_bytes(value));
}

fn control_selector(controller: Controller) -> (r: u8)
    ensures
        r == control_selector_spec(controller),
{
    match controller {
        Controller::Modulation => 3,
        Controller::Volume => 7,
        Controller::Pan => 0x0a,
        Controller::Expression => 0x0b,
    }
}

fn compact_nibble_of(controller: Controller) -> (r: u8)
    ensures
        r == compact_nibble(controller),
{
    match controller {
        Controller::Modulation => 2,
        _ => 0,
    }
}

/// Appends an event as the score sequence stores it.
pub fn write_event(out: &mut Vec<u8>, event: &Event)
    ensures
        final(out)@ == old(out)@ + event_bytes(event_view(*event)),
{
    let ghost start = out@;
    write_handy_duration(out, event.delta);
    let ghost mid = out@;
    match &event.kind {
        EventKind::Note { channel, octave, note, gate, .. } => {
            out.push((*channel << 6u8) | (*octave << 4u8) | *note);
            write_handy_duration(out, *gate);
        },
        EventKind::Meta { kind, data } => {
            out.push(0xff);
            out.push(*kind);
            out.push(data.len() as u8);
            push_bytes(out, data.as_slice());
        },
        EventKind::SystemExclusive(data) => {
            out.push(0xff);
            out.push(0xf0);
            out.push(data.len() as u8);
            push_bytes(out, data.as_slice());
        },
        EventKind::Nop => {
            out.push(0xff);
            out.push(0);
        },
        EventKind::EndOfSequence => {
            out.push(0);
            out.push(0);
            out.push(0);
        },
        EventKind::Unknown(bytes) => {
            push_bytes(out, bytes.as_slice());
        },
        EventKind::ProgramChange { channel, program } => {
            out.push(0);
            out.push((*channel << 6u8) | 0x30);
            out.push(*program);
        },
        EventKind::BankSelect { channel, bank } => {
            out.push(0);
            out.push((*channel << 6u8) | 0x31);
            out.push(*bank);
        },
        EventKind::OctaveShift { channel, shift } => {
            out.push(0);
            out.push((*channel << 6u8) | 0x32);
            out.push(*shift);
        },
        EventKind::ControlChange { channel, controller, value, compact_selector } => match compact_selector {
            Some(selector) => {
                out.push(0);
                out.push((*channel << 6u8) | (compact_nibble_of(*controller) << 4u8) | *selector);
            },
            None => {
                out.push(0);
                out.push((*channel << 6u8) | 0x30 | control_selector(*controller));
                out.push(*value);
            },
        },
        EventKind::PitchBend { channel, value, compact_selector } => match compact_selector {
            Some(selector) => {
                out.push(0);
                out.push((*channel << 6u8) | 0x10 | *selector);
            },
            None => {
                out.push(0);
                out.push((*channel << 6u8) | 0x34);
                out.push((*value / 128) as u8);
            },
        },
        EventKind::ReservedShort { channel, event, data } => {
            out.push(0);
            out.push((*channel << 6u8) | (*event << 4u8) | *data);
        },
        EventKind::UnknownControl { channel, selector, value } => {
            out.push(0);
            out.push((*channel << 6u8) | 0x30 | *selector);
            out.push(*value);
        },
    }
    assert(out@ =~= start + event_bytes(event_view(*event)));
}

/// The MIDI channel a score channel of a track plays on: the fifteen
/// melodic channels, skipping the rhythm channel 9, taken in turn.
pub open spec fn midi_channel_spec(track_index: int, channel: int) -> u8 {
    let i = (track_index * 4 + channel) % 15;
    if i < 9 { i as u8 } else { (i + 1) as u8 }
}

/// The MIDI channel score channel `channel` of the track at `track_index` plays on.
pub fn midi_channel(track_index: usize, channel: u8) -> (r: u8)
    ensures
        r == midi_channel_spec(track_index as int, channel as int),
{
    let i = ((track_index % 15) * 4 + channel as usize) % 15;
    proof {
        let t = track_index as int;
        let c = channel as int;
        vstd::arithmetic::div_mod::lemma_mul_mod_noop_left(t, 4, 15);
        vstd::arithmetic::div_mod::lemma_add_mod_noop((t % 15) * 4, c, 15);
        vstd::arithmetic::div_mod::lemma_add_mod_noop(t * 4, c, 15);
    }
    if i < 9 {
        i as u8
    } else {
        (i + 1) as u8
    }
}

/// Whether a channel starts as a rhythm channel: its two-bit mode in the
/// track's channel status (high nibble for even channels) is 3, or it is 0
/// ("no care") and the channel is the conventional rhythm channel 9 of the file.
pub open spec fn initial_percussion_spec(track_index: int, channel_status: Seq<u8>, channel: u8) -> bool {
    let status: u8 = if (channel / 2) < channel_status.len() { channel_status[(channel / 2) as int] } else { 0 };
    let nibble = if channel % 2 == 0 { status / 16 } else { status % 16 };
    let mode = nibble % 4;
    if mode == 0 {
        track_index * 4 + channel == 9
    } else {
        mode == 3
    }
}

/// Whether a channel starts as a rhythm channel.
pub fn initial_percussion(track_index: usize, channel_status: &[u8], channel: u8) -> (r: bool)
    ensures
        r == initial_percussion_spec(track_index as int, channel_status@, channel),
{
    let index = (channel / 2) as usize;
    let status: u8 = if index < channel_status.len() { channel_status[index] } else { 0 };
    let nibble = if channel % 2 == 0 { status / 16 } else { status % 16 };
    let mode = nibble % 4;
    if mode == 0 {
        track_index <= 2 && track_index * 4 + channel as usize == 9
    } else {
        mode == 3
    }
}

/// The semitone shift of an octave-shift value: up to four octaves up
/// (1 to 4) or down (0x81 to 0x84); anything else shifts nothing.
pub open spec fn octave_semitones_spec(value: u8) -> i16 {
    if 1 <= value <= 4 {
        (value * 12) as i16
    } else if 0x81 <= value <= 0x84 {
        (-(value - 0x80) * 12) as i16
    } else {
        0
    }
}

/// The semitone shift of an octave-shift value.
pub fn octave_semitones(value: u8) -> (r: i16)
    ensures
        r == octave_semitones_spec(value),
{
    if 1 <= value && value <= 4 {
        value as i16 * 12
    } else if 0x81 <= value && value <= 0x84 {
        -((value - 0x80) as i16 * 12)
    } else {
        0
    }
}

} // verus!

verus! {

/// A chunk as read: its four-byte id, the file offset of its header, its body.
#[derive(Debug, Clone, PartialEq, Eq)]
pub struct RawChunk {
    pub id: [u8; 4],
    pub offset: usize,
    pub data: Vec<u8>,
}

/// A chunk as plain values: id, offset, body.
pub type ChunkModel = (Seq<u8>, int, Seq<u8>);

pub open spec fn chunk_view(c: RawChunk) -> ChunkModel {
    (c.id@, c.offset as int, c.data@)
}

/// The big-endian `u32` at `p`.
pub open spec fn be32(d: Seq<u8>, p: int) -> u32 {
    (d[p] as int * 0x1000000 + d[p + 1] as int * 0x10000 + d[p + 2] as int * 0x100 + d[p + 3] as int) as u32
}

/// The chunk whose header starts at `pos`, with the position after it.
pub open spec fn chunk_at(d: Seq<u8>, base: int, pos: int) -> Result<(ChunkModel, int), Error> {
    if pos + 4 > d.len() {
        Err(eof_at(d, base, pos, 4))
    } else if pos + 8 > d.len() {
        Err(eof_at(d, base, pos + 4, 4))
    } else {
        let n = be32(d, pos + 4) as int;
        if pos + 8 + n > d.len() {
            Err(eof_at(d, base, pos + 8, n))
        } else {
            Ok(((d.subrange(pos, pos + 4), base + pos, d.subrange(pos + 8, pos + 8 + n)), pos + 8 + n))
        }
    }
}

fn read_be32(data: &[u8], p: usize) -> (r: u32)
    requires
        p + 4 <= data@.len(),
    ensures
        r == be32(data@, p as int),
{
    (data[p] as u32) * 0x1000000 + (data[p + 1] as u32) * 0x10000 + (data[p + 2] as u32) * 0x100 + (data[p + 3] as u32)
}

fn read_chunk(data: &[u8], base: usize, pos: usize) -> (r: Result<(RawChunk, usize), Error>)
    requires
        base + data@.len() <= usize::MAX,
        pos <= data@.len(),
    ensures
        match r {
            Ok((c, q)) => chunk_at(data@, base as int, pos as int) == Ok::<(ChunkModel, int), Error>((chunk_view(c), q as int)),
            Err(e) => chunk_at(data@, base as int, pos as int) == Err::<(ChunkModel, int), Error>(e),
        },
{
    let len = data.len();
    if len - pos < 4 {
        return Err(Error::UnexpectedEof { offset: base + pos, needed: 4, remaining: len - pos });
    }
    if len - pos < 8 {
        return Err(Error::UnexpectedEof { offset: base + pos + 4, needed: 4, remaining: len - pos - 4 });
    }
    let n = read_be32(data, pos + 4) as usize;
    if n > len - pos - 8 {
        return Err(Error::UnexpectedEof { offset: base + pos + 8, needed: n, remaining: len - pos - 8 });
    }
    let id: [u8; 4] = [data[pos], data[pos + 1], data[pos + 2], data[pos + 3]];
    let body = byte_range(data, pos + 8, pos + 8 + n);
    assert(id@ =~= data@.subrange(pos as int, pos + 4));
    Ok((RawChunk { id, offset: base + pos, data: body }, pos + 8 + n))
}

/// A setup-chunk message.
#[derive(Debug, Clone, PartialEq, Eq)]
pub enum SetupMessage {
    SystemExclusive(Vec<u8>),
    Unknown(Vec<u8>),
}

pub enum SetupModel {
    SystemExclusive(Seq<u8>),
    Unknown(Seq<u8>),
}

pub open spec fn setup_view(m: SetupMessage) -> SetupModel {
    match m {
        SetupMessage::SystemExclusive(d) => SetupModel::SystemExclusive(d@),
        SetupMessage::Unknown(d) => SetupModel::Unknown(d@),
    }
}

pub open spec fn setups_view(v: Seq<SetupMessage>) -> Seq<SetupModel> {
    v.map_values(|m: SetupMessage| setup_view(m))
}

/// The setup message at `pos`: `ff f0 n` and `n` bytes is a system-exclusive
/// message; any other one or two bytes are kept as they are.
pub open spec fn setup_at(d: Seq<u8>, base: int, pos: int) -> Result<(SetupModel, int), Error> {
    if d[pos] != 0xff {
        Ok((SetupModel::Unknown(seq![d[pos]]), pos + 1))
    } else if pos + 1 >= d.len() {
        Err(eof_at(d, base, pos + 1, 1))
    } else if d[pos + 1] != 0xf0 {
        Ok((SetupModel::Unknown(seq![d[pos], d[pos + 1]]), pos + 2))
    } else if pos + 2 >= d.len() {
        Err(eof_at(d, base, pos + 2, 1))
    } else {
        let n = d[pos + 2] as int;
        if pos + 3 + n > d.len() {
            Err(eof_at(d, base, pos + 3, n))
        } else {
            Ok((SetupModel::SystemExclusive(d.subrange(pos + 3, pos + 3 + n)), pos + 3 + n))
        }
    }
}

pub open spec fn setups_from(d: Seq<u8>, base: int, pos: int) -> Result<Seq<SetupModel>, Error>
    decreases d.len() - pos,
{
    if pos < 0 || pos >= d.len() {
        Ok(seq![])
    } else {
        match setup_at(d, base, pos) {
            Err(e) => Err(e),
            Ok((m, q)) => if pos < q {
                match setups_from(d, base, q) {
                    Ok(rest) => Ok(seq![m] + rest),
                    Err(e) => Err(e),
                }
            } else {
                Ok(seq![])
            },
        }
    }
}

/// Reads the messages of a setup chunk body whose first byte sits at file offset `base`.
pub fn parse_setup(data: &[u8], base: usize) -> (r: Result<Vec<SetupMessage>, Error>)
    requires
        base + data@.len() <= usize::MAX,
    ensures
        match r {
            Ok(v) => setups_from(data@, base as int, 0) == Ok::<Seq<SetupModel>, Error>(setups_view(v@)),
            Err(e) => setups_from(data@, base as int, 0) == Err::<Seq<SetupModel>, Error>(e),
        },
{
    let mut out: Vec<SetupMessage> = Vec::new();
    let mut pos: usize = 0;
    while pos < data.len()
        invariant
            base + data@.len() <= usize::MAX,
            pos <= data@.len(),
            setups_from(data@, base as int, 0) == match setups_from(data@, base as int, pos as int) {
                Ok(rest) => Ok(setups_view(out@) + rest),
                Err(e) => Err::<Seq<SetupModel>, Error>(e),
            },
        decreases data@.len() - pos,
    {
        let first = data[pos];
        let m: SetupMessage;
        let q: usize;
        if first != 0xff {
            let mut raw: Vec<u8> = Vec::new();
            raw.push(first);
            assert(raw@ =~= seq![first]);
            m = SetupMessage::Unknown(raw);
            q = pos + 1;
        } else {
            let second = read_byte(data, base, pos + 1)?;
            if second != 0xf0 {
                let mut raw: Vec<u8> = Vec::new();
                raw.push(first);
                raw.push(second);
                assert(raw@ =~= seq![first, second]);
                m = SetupMessage::Unknown(raw);
                q = pos + 2;
            } else {
                let n = read_byte(data, base, pos + 2)? as usize;
                let start = pos + 3;
                if n > data.len() - start {
                    return Err(Error::UnexpectedEof { offset: base + start, needed: n, remaining: data.len() - start });
                }
                m = SetupMessage::SystemExclusive(byte_range(data, start, start + n));
                q = start + n;
            }
        }
        assert(setup_at(data@, base as int, pos as int) == Ok::<(SetupModel, int), Error>((setup_view(m), q as int)));
        let ghost before = out@;
        out.push(m);
        proof {
            let head = seq![setup_view(m)];
            assert(setups_view(out@) =~= setups_view(before) + head);
            match setups_from(data@, base as int, q as int) {
                Ok(rest) => {
                    assert(setups_view(before) + (head + rest) =~= setups_view(out@) + rest);
                },
                Err(e) => {},
            }
        }
        pos = q;
    }
    assert(setups_view(out@) + seq![] =~= setups_view(out@));
    Ok(out)
}

} // verus!

verus! {

/// One tag of a contents-info chunk: its name, its decoded value and the
/// value's bytes.
#[derive(Debug, Clone, PartialEq, Eq)]
pub struct ContentTag {
    pub tag: String,
    pub value: String,
    pub raw_value: Vec<u8>,
}

pub type TagModel = (Seq<char>, Seq<char>, Seq<u8>);

pub open spec fn tag_view(t: ContentTag) -> TagModel {
    (t.tag@, t.value@, t.raw_value@)
}

pub open spec fn tags_view(v: Seq<ContentTag>) -> Seq<TagModel> {
    v.map_values(|t: ContentTag| tag_view(t))
}

/// Bytes read as ISO-8859-1: each byte is the character of that code.
pub open spec fn latin1_spec(bytes: Seq<u8>) -> Seq<char> {
    bytes.map_values(|b: u8| b as char)
}

/// A tag value as text: UTF-8 (with replacement) under code type 0x23,
/// ISO-8859-1 otherwise.
pub open spec fn decode_text_spec(bytes: Seq<u8>, code_type: u8) -> Seq<char> {
    if code_type == 0x23 {
        lossy_text(bytes)
    } else {
        latin1_spec(bytes)
    }
}

/// The split of the option data after its first `i` bytes: the finished
/// fields, the field being read, and whether a backslash escapes the next byte.
pub open spec fn split_state(option: Seq<u8>, i: nat) -> (Seq<Seq<u8>>, Seq<u8>, bool)
    decreases i,
{
    if i == 0 || i > option.len() {
        (seq![], seq![], false)
    } else {
        let (fields, field, escaped) = split_state(option, (i - 1) as nat);
        let b = option[i - 1];
        if escaped {
            (fields, field.push(b), false)
        } else if b == 0x5c {
            (fields, field, true)
        } else if b == 0x2c {
            (fields.push(field), seq![], false)
        } else {
            (fields, field.push(b), false)
        }
    }
}

/// The comma-separated fields of the option data; a trailing empty field is dropped.
pub open spec fn option_fields(option: Seq<u8>) -> Seq<Seq<u8>> {
    let (fields, field, _) = split_state(option, option.len());
    if field.len() > 0 {
        fields.push(field)
    } else {
        fields
    }
}

/// The index of the first `:` in `f` at or after `i`.
pub open spec fn colon_from(f: Seq<u8>, i: int) -> Option<int>
    decreases f.len() - i,
{
    if i < 0 || i >= f.len() {
        None
    } else if f[i] == 0x3a {
        Some(i)
    } else {
        colon_from(f, i + 1)
    }
}

/// The tag a field names, when it holds a `:`.
pub open spec fn field_tag(f: Seq<u8>, code_type: u8) -> Seq<TagModel> {
    match colon_from(f, 0) {
        Some(s) => {
            let raw = f.subrange(s + 1, f.len() as int);
            seq![(latin1_spec(f.subrange(0, s)), decode_text_spec(raw, code_type), raw)]
        },
        None => seq![],
    }
}

pub open spec fn tags_of(fields: Seq<Seq<u8>>, code_type: u8) -> Seq<TagModel>
    decreases fields.len(),
{
    if fields.len() == 0 {
        seq![]
    } else {
        tags_of(fields.drop_last(), code_type) + field_tag(fields.last(), code_type)
    }
}

pub open spec fn content_tags_spec(option: Seq<u8>, code_type: u8) -> Seq<TagModel> {
    tags_of(option_fields(option), code_type)
}

fn latin1(bytes: &[u8]) -> (r: String)
    ensures
        r@ == latin1_spec(bytes@),
{
    let mut chars: Vec<char> = Vec::new();
    let mut i: usize = 0;
    while i < bytes.len()
        invariant
            i <= bytes@.len(),
            chars@ == latin1_spec(bytes@.subrange(0, i as int)),
        decreases bytes@.len() - i,
    {
        chars.push(bytes[i] as char);
        i += 1;
        assert(chars@ =~= latin1_spec(bytes@.subrange(0, i as int)));
    }
    assert(bytes@.subrange(0, i as int) =~= bytes@);
    text_of(&chars)
}

fn decode_text(bytes: &[u8], code_type: u8) -> (r: String)
    ensures
        r@ == decode_text_spec(bytes@, code_type),
{
    if code_type == 0x23 {
        utf8_lossy(bytes)
    } else {
        latin1(bytes)
    }
}

pub open spec fn fields_view(v: Seq<Vec<u8>>) -> Seq<Seq<u8>> {
    v.map_values(|f: Vec<u8>| f@)
}

fn split_fields(option: &[u8]) -> (r: Vec<Vec<u8>>)
    ensures
        fields_view(r@) == option_fields(option@),
{
    let mut fields: Vec<Vec<u8>> = Vec::new();
    let mut field: Vec<u8> = Vec::new();
    let mut escaped = false;
    let mut i: usize = 0;
    while i < option.len()
        invariant
            i <= option@.len(),
            split_state(option@, i as nat) == (fields_view(fields@), field@, escaped),
        decreases option@.len() - i,
    {
        let b = option[i];
        let ghost before = fields@;
        if escaped {
            field.push(b);
            escaped = false;
        } else if b == 0x5c {
            escaped = true;
        } else if b == 0x2c {
            let done = field;
            field = Vec::new();
            fields.push(done);
            assert(fields_view(fields@) =~= fields_view(before).push(done@));
        } else {
            field.push(b);
        }
        i += 1;
    }
    if field.len() > 0 {
        let ghost before = fields@;
        fields.push(field);
        assert(fields_view(fields@) =~= fields_view(before).push(field@));
    }
    fields
}

fn colon_index(f: &Vec<u8>) -> (r: Option<usize>)
    ensures
        match r {
            Some(s) => s < f@.len() && colon_from(f@, 0) == Some(s as int),
            None => colon_from(f@, 0) is None,
        },
{
    let mut i: usize = 0;
    while i < f.len()
        invariant
            i <= f@.len(),
            colon_from(f@, 0) == colon_from(f@, i as int),
        decreases f@.len() - i,
    {
        if f[i] == 0x3a {
            return Some(i);
        }
        i += 1;
    }
    None
}

fn content_tags(option: &[u8], code_type: u8) -> (r: Vec<ContentTag>)
    ensures
        tags_view(r@) == content_tags_spec(option@, code_type),
{
    let fields = split_fields(option);
    let ghost fs = fields_view(fields@);
    let mut tags: Vec<ContentTag> = Vec::new();
    let mut i: usize = 0;
    while i < fields.len()
        invariant
            i <= fields@.len(),
            fs == fields_view(fields@),
            tags_view(tags@) == tags_of(fs.subrange(0, i as int), code_type),
        decreases fields@.len() - i,
    {
        let f = &fields[i];
        let ghost before = tags@;
        assert(fs.subrange(0, i + 1).drop_last() =~= fs.subrange(0, i as int));
        assert(fs.subrange(0, i + 1).last() == f@);
        match colon_index(f) {
            Some(s) => {
                assert(s < f@.len() <= usize::MAX);
                let after: usize = s + 1;
                let raw_value = byte_range(f.as_slice(), after, f.len());
                let name = byte_range(f.as_slice(), 0, s);
                let tag = latin1(name.as_slice());
                let value = decode_text(raw_value.as_slice(), code_type);
                tags.push(ContentTag { tag, value, raw_value });
                assert(tags_view(tags@) =~= tags_view(before) + field_tag(f@, code_type));
            },
            None => {
                assert(tags_view(tags@) =~= tags_view(before) + field_tag(f@, code_type));
            },
        }
        i += 1;
    }
    assert(fs.subrange(0, i as int) =~= fs);
    tags
}

} // verus!

verus! {

/// The contents-info chunk: class, type, text code type, copy status and
/// count, the option data and the tags it holds.
#[derive(Debug, Clone, PartialEq, Eq)]
pub struct ContentsInfo {
    /// Offset of the chunk header, so a writer can restore the chunk order.
    pub offset: usize,
    pub contents_class: u8,
    pub contents_type: u8,
    pub code_type: u8,
    pub copy_status: u8,
    pub copy_count: u8,
    pub option_data: Vec<u8>,
    pub tags: Vec<ContentTag>,
}

pub struct ContentsModel {
    pub offset: int,
    pub contents_class: u8,
    pub contents_type: u8,
    pub code_type: u8,
    pub copy_status: u8,
    pub copy_count: u8,
    pub option_data: Seq<u8>,
    pub tags: Seq<TagModel>,
}

pub open spec fn contents_view(c: ContentsInfo) -> ContentsModel {
    ContentsModel {
        offset: c.offset as int,
        contents_class: c.contents_class,
        contents_type: c.contents_type,
        code_type: c.code_type,
        copy_status: c.copy_status,
        copy_count: c.copy_count,
        option_data: c.option_data@,
        tags: tags_view(c.tags@),
    }
}

/// The contents info a `CNTI` chunk holds: five header bytes, then option data.
#[verifier::opaque]
pub open spec fn contents_spec(c: ChunkModel) -> Result<ContentsModel, Error> {
    let d = c.2;
    if d.len() < 5 {
        Err(eof_at(d, c.1 + 8, d.len() as int, 1))
    } else {
        Ok(
            ContentsModel {
                offset: c.1,
                contents_class: d[0],
                contents_type: d[1],
                code_type: d[2],
                copy_status: d[3],
                copy_count: d[4],
                option_data: d.subrange(5, d.len() as int),
                tags: content_tags_spec(d.subrange(5, d.len() as int), d[2]),
            },
        )
    }
}

fn parse_contents(chunk: &RawChunk) -> (r: Result<ContentsInfo, Error>)
    requires
        chunk.offset + 8 + chunk.data@.len() <= usize::MAX,
    ensures
        match r {
            Ok(c) => contents_spec(chunk_view(*chunk)) == Ok::<ContentsModel, Error>(contents_view(c)),
            Err(e) => contents_spec(chunk_view(*chunk)) == Err::<ContentsModel, Error>(e),
        },
{
    reveal(contents_spec);
    let d = &chunk.data;
    if d.len() < 5 {
        return Err(Error::UnexpectedEof { offset: chunk.offset + 8 + d.len(), needed: 1, remaining: 0 });
    }
    let option_data = byte_range(d.as_slice(), 5, d.len());
    let tags = content_tags(option_data.as_slice(), d[2]);
    Ok(
        ContentsInfo {
            offset: chunk.offset,
            contents_class: d[0],
            contents_type: d[1],
            code_type: d[2],
            copy_status: d[3],
            copy_count: d[4],
            option_data,
            tags,
        },
    )
}

/// A score track.
#[derive(Debug, Clone, PartialEq, Eq)]
pub struct ScoreTrack {
    pub number: u8,
    pub offset: usize,
    pub format_type: u8,
    pub sequence_type: u8,
    pub duration_time_base_code: u8,
    pub duration_time_base_ms: Option<u16>,
    pub gate_time_base_code: u8,
    pub gate_time_base_ms: Option<u16>,
    pub channel_status: Vec<u8>,
    pub subchunks: Vec<RawChunk>,
    pub setup_messages: Vec<SetupMessage>,
    pub events: Vec<Event>,
}

pub struct TrackModel {
    pub number: u8,
    pub offset: int,
    pub format_type: u8,
    pub sequence_type: u8,
    pub duration_time_base_code: u8,
    pub duration_time_base_ms: Option<u16>,
    pub gate_time_base_code: u8,
    pub gate_time_base_ms: Option<u16>,
    pub channel_status: Seq<u8>,
    pub subchunks: Seq<ChunkModel>,
    pub setup_messages: Seq<SetupModel>,
    pub events: Seq<EventModel>,
}

pub open spec fn chunks_view(v: Seq<RawChunk>) -> Seq<ChunkModel> {
    v.map_values(|c: RawChunk| chunk_view(c))
}

pub open spec fn track_view(t: ScoreTrack) -> TrackModel {
    TrackModel {
        number: t.number,
        offset: t.offset as int,
        format_type: t.format_type,
        sequence_type: t.sequence_type,
        duration_time_base_code: t.duration_time_base_code,
        duration_time_base_ms: t.duration_time_base_ms,
        gate_time_base_code: t.gate_time_base_code,
        gate_time_base_ms: t.gate_time_base_ms,
        channel_status: t.channel_status@,
        subchunks: chunks_view(t.subchunks@),
        setup_messages: setups_view(t.setup_messages@),
        events: events_view(t.events@),
    }
}

/// The length of the channel status block of a score format.
pub open spec fn status_length_spec(format_type: u8) -> Option<int> {
    if format_type == 0 {
        Some(2)
    } else if format_type == 1 || format_type == 2 {
        Some(16)
    } else if format_type == 3 {
        Some(32)
    } else {
        None
    }
}

pub open spec fn is_setup_id(id: Seq<u8>) -> bool {
    id == seq![0x4du8, 0x74u8, 0x73u8, 0x75u8]
}

pub open spec fn is_sequence_id(id: Seq<u8>) -> bool {
    id == seq![0x4du8, 0x74u8, 0x73u8, 0x71u8]
}

/// What one subchunk adds to its track: the setup messages of an `Mtsu`
/// and the events of an `Mtsq` in a Handy Phone (format 0) track.
pub open spec fn subchunk_content(c: ChunkModel, format_type: u8) -> Result<(Seq<SetupModel>, Seq<EventModel>), Error> {
    if format_type == 0 && is_setup_id(c.0) {
        match setups_from(c.2, c.1 + 8, 0) {
            Ok(s) => Ok((s, seq![])),
            Err(e) => Err(e),
        }
    } else if format_type == 0 && is_sequence_id(c.0) {
        match sequence_spec(c.2, c.1 + 8) {
            Ok(ev) => Ok((seq![], ev)),
            Err(e) => Err(e),
        }
    } else {
        Ok((seq![], seq![]))
    }
}

pub type TrackParts = (Seq<ChunkModel>, Seq<SetupModel>, Seq<EventModel>);

pub open spec fn track_parts(d: Seq<u8>, base: int, pos: int, format_type: u8) -> Result<TrackParts, Error>
    decreases d.len() - pos,
{
    if pos < 0 || pos >= d.len() {
        Ok((seq![], seq![], seq![]))
    } else {
        match chunk_at(d, base, pos) {
            Err(e) => Err(e),
            Ok((c, q)) => match subchunk_content(c, format_type) {
                Err(e) => Err(e),
                Ok((s, ev)) => if pos < q {
                    match track_parts(d, base, q, format_type) {
                        Ok((cs, ss, es)) => Ok((seq![c] + cs, s + ss, ev + es)),
                        Err(e) => Err(e),
                    }
                } else {
                    Ok((seq![], seq![], seq![]))
                },
            },
        }
    }
}

/// The score track an `MTR*` chunk holds.
#[verifier::opaque]
pub open spec fn track_spec(c: ChunkModel) -> Result<TrackModel, Error> {
    let d = c.2;
    let base = c.1 + 8;
    if d.len() < 4 {
        Err(eof_at(d, base, d.len() as int, 1))
    } else {
        match status_length_spec(d[0]) {
            None => Err(Error::InvalidValue { offset: base as usize, field: "SMAF score format type", value: d[0] as u64 }),
            Some(n) => if 4 + n > d.len() {
                Err(eof_at(d, base, 4, n))
            } else {
                match track_parts(d, base, 4 + n, d[0]) {
                    Err(e) => Err(e),
                    Ok((cs, ss, es)) => Ok(
                        TrackModel {
                            number: c.0[3],
                            offset: c.1,
                            format_type: d[0],
                            sequence_type: d[1],
                            duration_time_base_code: d[2],
                            duration_time_base_ms: time_base_spec(d[2]),
                            gate_time_base_code: d[3],
                            gate_time_base_ms: time_base_spec(d[3]),
                            channel_status: d.subrange(4, 4 + n),
                            subchunks: cs,
                            setup_messages: ss,
                            events: es,
                        },
                    ),
                }
            },
        }
    }
}

fn status_length(format_type: u8) -> (r: Option<usize>)
    ensures
        match r {
            Some(n) => status_length_spec(format_type) == Some(n as int),
            None => status_length_spec(format_type) is None,
        },
{
    match format_type {
        0 => Some(2),
        1 | 2 => Some(16),
        3 => Some(32),
        _ => None,
    }
}

fn id_is(id: &[u8; 4], a: u8, b: u8, c: u8, d: u8) -> (r: bool)
    ensures
        r == (id@ == seq![a, b, c, d]),
{
    let r = id[0] == a && id[1] == b && id[2] == c && id[3] == d;
    if r {
        assert(id@ =~= seq![a, b, c, d]);
    }
    r
}

fn parse_track(chunk: &RawChunk) -> (r: Result<ScoreTrack, Error>)
    requires
        chunk.offset + 8 + chunk.data@.len() <= usize::MAX,
    ensures
        match r {
            Ok(t) => track_spec(chunk_view(*chunk)) == Ok::<TrackModel, Error>(track_view(t)),
            Err(e) => track_spec(chunk_view(*chunk)) == Err::<TrackModel, Error>(e),
        },
{
    reveal(track_spec);
    let d = chunk.data.as_slice();
    let base = chunk.offset + 8;
    if d.len() < 4 {
        return Err(Error::UnexpectedEof { offset: base + d.len(), needed: 1, remaining: 0 });
    }
    let format_type = d[0];
    let n = match status_length(format_type) {
        Some(n) => n,
        None => {
            return Err(Error::InvalidValue { offset: base, field: "SMAF score format type", value: format_type as u64 });
        },
    };
    if n > d.len() - 4 {
        return Err(Error::UnexpectedEof { offset: base + 4, needed: n, remaining: d.len() - 4 });
    }
    let channel_status = byte_range(d, 4, 4 + n);
    let mut subchunks: Vec<RawChunk> = Vec::new();
    let mut setup_messages: Vec<SetupMessage> = Vec::new();
    let mut events: Vec<Event> = Vec::new();
    let mut pos: usize = 4 + n;
    let ghost dd = d@;
    let ghost total = track_parts(dd, base as int, (4 + n) as int, format_type);
    while pos < d.len()
        invariant
            dd == d@,
            dd == chunk.data@,
            base == chunk.offset + 8,
            dd.len() >= 4,
            format_type == dd[0],
            status_length_spec(format_type) == Some(n as int),
            4 + n <= dd.len(),
            base + d@.len() <= usize::MAX,
            pos <= d@.len(),
            total == track_parts(dd, base as int, (4 + n) as int, format_type),
            total == match track_parts(dd, base as int, pos as int, format_type) {
                Ok((cs, ss, es)) => Ok::<TrackParts, Error>(
                    (chunks_view(subchunks@) + cs, setups_view(setup_messages@) + ss, events_view(events@) + es),
                ),
                Err(e) => Err::<TrackParts, Error>(e),
            },
        decreases d@.len() - pos,
    {
        proof {
            reveal(track_spec);
        }
        let (sub, q) = read_chunk(d, base, pos)?;
        let ghost c = chunk_view(sub);
        let ghost (s0, c0, e0) = (setups_view(setup_messages@), chunks_view(subchunks@), events_view(events@));
        let mut new_setup: Vec<SetupMessage> = Vec::new();
        let mut new_events: Vec<Event> = Vec::new();
        if format_type == 0 && id_is(&sub.id, 0x4d, 0x74, 0x73, 0x75) {
            new_setup = parse_setup(sub.data.as_slice(), sub.offset + 8)?;
            assert(events_view(new_events@) =~= seq![]);
        } else if format_type == 0 && id_is(&sub.id, 0x4d, 0x74, 0x73, 0x71) {
            new_events = parse_sequence(sub.data.as_slice(), sub.offset + 8)?;
            assert(setups_view(new_setup@) =~= seq![]);
        } else {
            assert(events_view(new_events@) =~= seq![]);
            assert(setups_view(new_setup@) =~= seq![]);
        }
        assert(subchunk_content(c, format_type) == Ok::<(Seq<SetupModel>, Seq<EventModel>), Error>(
            (setups_view(new_setup@), events_view(new_events@)),
        ));
        let ghost (ns, ne) = (setups_view(new_setup@), events_view(new_events@));
        setup_messages.append(&mut new_setup);
        events.append(&mut new_events);
        subchunks.push(sub);
        proof {
            assert(setups_view(setup_messages@) =~= s0 + ns);
            assert(events_view(events@) =~= e0 + ne);
            assert(chunks_view(subchunks@) =~= c0 + seq![c]);
            match track_parts(dd, base as int, q as int, format_type) {
                Ok((cs, ss, es)) => {
                    assert(c0 + (seq![c] + cs) =~= chunks_view(subchunks@) + cs);
                    assert(s0 + (ns + ss) =~= setups_view(setup_messages@) + ss);
                    assert(e0 + (ne + es) =~= events_view(events@) + es);
                },
                Err(e) => {},
            }
        }
        pos = q;
    }
    proof {
        assert(chunks_view(subchunks@) + seq![] =~= chunks_view(subchunks@));
        assert(setups_view(setup_messages@) + seq![] =~= setups_view(setup_messages@));
        assert(events_view(events@) + seq![] =~= events_view(events@));
    }
    Ok(
        ScoreTrack {
            number: chunk.id[3],
            offset: chunk.offset,
            format_type,
            sequence_type: d[1],
            duration_time_base_code: d[2],
            duration_time_base_ms: time_base_ms(d[2]),
            gate_time_base_code: d[3],
            gate_time_base_ms: time_base_ms(d[3]),
            channel_status,
            subchunks,
            setup_messages,
            events,
        },
    )
}

} // verus!

verus! {

/// A parsed SMAF file.
#[derive(Debug, Clone, PartialEq, Eq)]
pub struct SmafFile {
    /// `MMMD` payload length, including the stored two-byte CRC.
    pub declared_size: u32,
    pub stored_crc16: u16,
    pub contents: Option<ContentsInfo>,
    pub tracks: Vec<ScoreTrack>,
    pub unknown_chunks: Vec<RawChunk>,
    /// Carrier-specific bytes after the declared `MMMD` payload.
    pub trailer: Vec<u8>,
}

pub struct FileModel {
    pub declared_size: u32,
    pub stored_crc16: u16,
    pub contents: Option<ContentsModel>,
    pub tracks: Seq<TrackModel>,
    pub unknown_chunks: Seq<ChunkModel>,
    pub trailer: Seq<u8>,
}

pub open spec fn tracks_view(v: Seq<ScoreTrack>) -> Seq<TrackModel> {
    v.map_values(|t: ScoreTrack| track_view(t))
}

pub open spec fn file_view(f: SmafFile) -> FileModel {
    FileModel {
        declared_size: f.declared_size,
        stored_crc16: f.stored_crc16,
        contents: match f.contents {
            Some(c) => Some(contents_view(c)),
            None => None,
        },
        tracks: tracks_view(f.tracks@),
        unknown_chunks: chunks_view(f.unknown_chunks@),
        trailer: f.trailer@,
    }
}

pub open spec fn is_contents_id(id: Seq<u8>) -> bool {
    id == seq![0x43u8, 0x4eu8, 0x54u8, 0x49u8]
}

pub open spec fn is_track_id(id: Seq<u8>) -> bool {
    id.len() == 4 && id[0] == 0x4d && id[1] == 0x54 && id[2] == 0x52
}

pub type RootParts = (Option<ContentsModel>, Seq<TrackModel>, Seq<ChunkModel>);

/// The root chunks from `pos` on: the last `CNTI` chunk is the contents
/// info, `MTR*` chunks are score tracks, the rest are kept unread.
pub open spec fn root_parts(d: Seq<u8>, base: int, pos: int) -> Result<RootParts, Error>
    decreases d.len() - pos,
{
    if pos < 0 || pos >= d.len() {
        Ok((None, seq![], seq![]))
    } else {
        match chunk_at(d, base, pos) {
            Err(e) => Err(e),
            Ok((c, q)) => {
                let here: Result<RootParts, Error> = if is_contents_id(c.0) {
                    match contents_spec(c) {
                        Ok(info) => Ok((Some(info), seq![], seq![])),
                        Err(e) => Err(e),
                    }
                } else if is_track_id(c.0) {
                    match track_spec(c) {
                        Ok(t) => Ok((None, seq![t], seq![])),
                        Err(e) => Err(e),
                    }
                } else {
                    Ok((None, seq![], seq![c]))
                };
                match here {
                    Err(e) => Err(e),
                    Ok((info, ts, us)) => if pos < q {
                        match root_parts(d, base, q) {
                            Ok((rest_info, rts, rus)) => Ok(
                                (if rest_info is Some { rest_info } else { info }, ts + rts, us + rus),
                            ),
                            Err(e) => Err(e),
                        }
                    } else {
                        Ok((None, seq![], seq![]))
                    },
                }
            },
        }
    }
}

pub open spec fn be16(d: Seq<u8>, p: int) -> u16 {
    (d[p] as int * 0x100 + d[p + 1] as int) as u16
}

pub open spec fn is_smaf_magic(d: Seq<u8>) -> bool {
    d.len() >= 4 && d[0] == 0x4d && d[1] == 0x4d && d[2] == 0x4d && d[3] == 0x44
}

/// A whole SMAF file: the `MMMD` header and its declared length (at least
/// the two checksum bytes), the stored checksum over everything before it,
/// the root chunks of the payload, and whatever follows as trailer.
pub open spec fn file_spec(d: Seq<u8>) -> Result<FileModel, Error> {
    if d.len() < 4 {
        Err(eof_at(d, 0, 0, 4))
    } else if !is_smaf_magic(d) {
        Err(Error::InvalidMagic { format: "SMAF" })
    } else if d.len() < 8 {
        Err(eof_at(d, 0, 4, 4))
    } else {
        let declared = be32(d, 4);
        if declared < 2 {
            Err(Error::InvalidValue { offset: 4, field: "MMMD length", value: declared as u64 })
        } else if 8 + declared > d.len() {
            Err(eof_at(d, 0, 8, declared as int))
        } else {
            let co = 8 + declared - 2;
            let stored = be16(d, co);
            let computed = !crc_register(d.subrange(0, co));
            if stored != computed {
                Err(Error::ChecksumMismatch { offset: co as usize, stored: stored as u32, computed: computed as u32 })
            } else {
                match root_parts(d.subrange(0, co), 0, 8) {
                    Err(e) => Err(e),
                    Ok((contents, tracks, unknown)) => Ok(
                        FileModel {
                            declared_size: declared,
                            stored_crc16: stored,
                            contents,
                            tracks,
                            unknown_chunks: unknown,
                            trailer: d.subrange(8 + declared, d.len() as int),
                        },
                    ),
                }
            }
        }
    }
}

pub open spec fn contents_opt_view(c: Option<ContentsInfo>) -> Option<ContentsModel> {
    match c {
        Some(i) => Some(contents_view(i)),
        None => None,
    }
}

/// Parses a SMAF file.
pub fn parse(data: &[u8]) -> (r: Result<SmafFile, Error>)
    ensures
        match r {
            Ok(f) => file_spec(data@) == Ok::<FileModel, Error>(file_view(f)),
            Err(e) => file_spec(data@) == Err::<FileModel, Error>(e),
        },
{
    let len = data.len();
    if len < 4 {
        return Err(Error::UnexpectedEof { offset: 0, needed: 4, remaining: len });
    }
    if !(data[0] == 0x4d && data[1] == 0x4d && data[2] == 0x4d && data[3] == 0x44) {
        return Err(Error::InvalidMagic { format: "SMAF" });
    }
    if len < 8 {
        return Err(Error::UnexpectedEof { offset: 4, needed: 4, remaining: len - 4 });
    }
    let declared = read_be32(data, 4);
    if declared < 2 {
        return Err(Error::InvalidValue { offset: 4, field: "MMMD length", value: declared as u64 });
    }
    let size = declared as usize;
    if size > len - 8 {
        return Err(Error::UnexpectedEof { offset: 8, needed: size, remaining: len - 8 });
    }
    let co = 8 + size - 2;
    let stored: u16 = (data[co] as u16) * 0x100 + (data[co + 1] as u16);
    let computed = crc16(vstd::slice::slice_subrange(data, 0, co));
    if stored != computed {
        return Err(Error::ChecksumMismatch { offset: co, stored: stored as u32, computed: computed as u32 });
    }
    let trailer = byte_range(data, 8 + size, len);
    let payload = vstd::slice::slice_subrange(data, 0, co);
    let ghost pd = payload@;
    let ghost total = root_parts(pd, 0, 8);
    let mut contents: Option<ContentsInfo> = None;
    let mut tracks: Vec<ScoreTrack> = Vec::new();
    let mut unknown_chunks: Vec<RawChunk> = Vec::new();
    let mut pos: usize = 8;
    assert(pd == data@.subrange(0, co as int));
    while pos < payload.len()
        invariant
            pd == payload@,
            pd == data@.subrange(0, co as int),
            pos <= pd.len(),
            total == root_parts(pd, 0, 8),
            total == match root_parts(pd, 0, pos as int) {
                Ok((ri, rts, rus)) => Ok::<RootParts, Error>(
                    (
                        if ri is Some { ri } else { contents_opt_view(contents) },
                        tracks_view(tracks@) + rts,
                        chunks_view(unknown_chunks@) + rus,
                    ),
                ),
                Err(e) => Err::<RootParts, Error>(e),
            },
            file_spec(data@) == match total {
                Ok((c, t, u)) => Ok::<FileModel, Error>(
                    FileModel {
                        declared_size: declared,
                        stored_crc16: stored,
                        contents: c,
                        tracks: t,
                        unknown_chunks: u,
                        trailer: trailer@,
                    },
                ),
                Err(e) => Err::<FileModel, Error>(e),
            },
        decreases pd.len() - pos,
    {
        let (chunk, q) = read_chunk(payload, 0, pos)?;
        let ghost c = chunk_view(chunk);
        let ghost (t0, u0) = (tracks_view(tracks@), chunks_view(unknown_chunks@));
        let ghost c_before = contents_opt_view(contents);
        let ghost here: RootParts;
        if id_is(&chunk.id, 0x43, 0x4e, 0x54, 0x49) {
            let info = parse_contents(&chunk)?;
            proof {
                here = (Some(contents_view(info)), seq![], seq![]);
            }
            contents = Some(info);
        } else if chunk.id[0] == 0x4d && chunk.id[1] == 0x54 && chunk.id[2] == 0x52 {
            let t = parse_track(&chunk)?;
            proof {
                here = (None, seq![track_view(t)], seq![]);
            }
            tracks.push(t);
            assert(tracks_view(tracks@) =~= t0 + seq![track_view(t)]);
            assert(chunks_view(unknown_chunks@) =~= u0 + seq![]);
        } else {
            proof {
                here = (None, seq![], seq![c]);
            }
            unknown_chunks.push(chunk);
            assert(chunks_view(unknown_chunks@) =~= u0 + seq![c]);
            assert(tracks_view(tracks@) =~= t0 + seq![]);
        }
        proof {
            match root_parts(pd, 0, q as int) {
                Ok((ri, rts, rus)) => {
                    assert(t0 + (here.1 + rts) =~= tracks_view(tracks@) + rts);
                    assert(u0 + (here.2 + rus) =~= chunks_view(unknown_chunks@) + rus);
                },
                Err(e) => {},
            }
        }
        pos = q;
    }
    proof {
        assert(tracks_view(tracks@) + seq![] =~= tracks_view(tracks@));
        assert(chunks_view(unknown_chunks@) + seq![] =~= chunks_view(unknown_chunks@));
    }
    Ok(SmafFile { declared_size: declared, stored_crc16: stored, contents, tracks, unknown_chunks, trailer })
}

} // verus!

verus! {

pub open spec fn is_note(e: EventModel) -> bool {
    e.2 is Note
}

/// The number of note events among `events`.
pub open spec fn note_count_spec(events: Seq<EventModel>) -> nat
    decreases events.len(),
{
    if events.len() == 0 {
        0
    } else {
        note_count_spec(events.drop_last()) + if is_note(events.last()) { 1nat } else { 0nat }
    }
}

pub open spec fn sat_u64(v: int) -> int {
    if v > u64::MAX { u64::MAX as int } else { v }
}

/// The clock after `events` and the latest time reached by an event or a
/// note's gate, in milliseconds, each step saturating at `u64::MAX`.
pub open spec fn timing(events: Seq<EventModel>, duration_base: int, gate_base: int) -> (int, int)
    decreases events.len(),
{
    if events.len() == 0 {
        (0, 0)
    } else {
        let (current, end) = timing(events.drop_last(), duration_base, gate_base);
        let e = events.last();
        let now = sat_u64(current + e.0 * duration_base);
        let reached = if now > end { now } else { end };
        let reached = match e.2 {
            KindModel::Note { gate, .. } => {
                let off = sat_u64(now + gate * gate_base);
                if off > reached { off } else { reached }
            },
            _ => reached,
        };
        (now, reached)
    }
}

/// A track's length in milliseconds, when both time bases are known.
pub open spec fn track_duration(t: TrackModel) -> Option<u64> {
    match (t.duration_time_base_ms, t.gate_time_base_ms) {
        (Some(d), Some(g)) => Some(timing(t.events, d as int, g as int).1 as u64),
        _ => None,
    }
}

impl ScoreTrack {
    pub fn note_count(&self) -> (r: usize)
        ensures
            r == note_count_spec(events_view(self.events@)),
    {
        let ghost ev = events_view(self.events@);
        let mut n: usize = 0;
        let mut i: usize = 0;
        while i < self.events.len()
            invariant
                i <= self.events@.len(),
                ev == events_view(self.events@),
                n == note_count_spec(ev.subrange(0, i as int)),
                n <= i,
            decreases self.events@.len() - i,
        {
            assert(ev.subrange(0, i + 1).drop_last() =~= ev.subrange(0, i as int));
            if let EventKind::Note { .. } = self.events[i].kind {
                n += 1;
            }
            i += 1;
        }
        assert(ev.subrange(0, i as int) =~= ev);
        n
    }

    pub fn duration_ms(&self) -> (r: Option<u64>)
        ensures
            r == track_duration(track_view(*self)),
    {
        let duration_base = match self.duration_time_base_ms {
            Some(v) => v as u64,
            None => {
                return None;
            },
        };
        let gate_base = match self.gate_time_base_ms {
            Some(v) => v as u64,
            None => {
                return None;
            },
        };
        let ghost ev = events_view(self.events@);
        let mut current: u64 = 0;
        let mut end: u64 = 0;
        let mut i: usize = 0;
        while i < self.events.len()
            invariant
                i <= self.events@.len(),
                ev == events_view(self.events@),
                duration_base <= u16::MAX,
                gate_base <= u16::MAX,
                timing(ev.subrange(0, i as int), duration_base as int, gate_base as int) == (current as int, end as int),
            decreases self.events@.len() - i,
        {
            assert(ev.subrange(0, i + 1).drop_last() =~= ev.subrange(0, i as int));
            let e = &self.events[i];
            assert((e.delta as u64) * duration_base <= 0xffff_ffffu64 * 0xffffu64) by (nonlinear_arith)
                requires
                    duration_base <= 0xffff,
            ;
            let step: u64 = (e.delta as u64) * duration_base;
            current = current.saturating_add(step);
            if current > end {
                end = current;
            }
            if let EventKind::Note { gate, .. } = e.kind {
                assert((gate as u64) * gate_base <= 0xffff_ffffu64 * 0xffffu64) by (nonlinear_arith)
                    requires
                        gate_base <= 0xffff,
                ;
                let off = current.saturating_add((gate as u64) * gate_base);
                if off > end {
                    end = off;
                }
            }
            i += 1;
        }
        assert(ev.subrange(0, i as int) =~= ev);
        Some(end)
    }
}

/// The events of all tracks.
pub open spec fn event_total(tracks: Seq<TrackModel>) -> nat
    decreases tracks.len(),
{
    if tracks.len() == 0 {
        0
    } else {
        event_total(tracks.drop_last()) + tracks.last().events.len()
    }
}

/// The notes of all tracks.
pub open spec fn note_total(tracks: Seq<TrackModel>) -> nat
    decreases tracks.len(),
{
    if tracks.len() == 0 {
        0
    } else {
        note_total(tracks.drop_last()) + note_count_spec(tracks.last().events)
    }
}

/// The longest duration among the tracks whose time bases are known.
pub open spec fn longest_duration(tracks: Seq<TrackModel>) -> Option<u64>
    decreases tracks.len(),
{
    if tracks.len() == 0 {
        None
    } else {
        let before = longest_duration(tracks.drop_last());
        match track_duration(tracks.last()) {
            None => before,
            Some(d) => match before {
                Some(b) => if b >= d { Some(b) } else { Some(d) },
                None => Some(d),
            },
        }
    }
}

impl SmafFile {
    pub fn event_count(&self) -> (r: usize)
        requires
            event_total(tracks_view(self.tracks@)) <= usize::MAX,
        ensures
            r == event_total(tracks_view(self.tracks@)),
    {
        let ghost ts = tracks_view(self.tracks@);
        let mut n: usize = 0;
        let mut i: usize = 0;
        while i < self.tracks.len()
            invariant
                i <= self.tracks@.len(),
                ts == tracks_view(self.tracks@),
                event_total(ts) <= usize::MAX,
                n == event_total(ts.subrange(0, i as int)),
            decreases self.tracks@.len() - i,
        {
            assert(ts.subrange(0, i + 1).drop_last() =~= ts.subrange(0, i as int));
            proof {
                lemma_event_total_prefix(ts, i + 1);
            }
            n = n + self.tracks[i].events.len();
            i += 1;
        }
        assert(ts.subrange(0, i as int) =~= ts);
        n
    }

    pub fn note_count(&self) -> (r: usize)
        requires
            note_total(tracks_view(self.tracks@)) <= usize::MAX,
        ensures
            r == note_total(tracks_view(self.tracks@)),
    {
        let ghost ts = tracks_view(self.tracks@);
        let mut n: usize = 0;
        let mut i: usize = 0;
        while i < self.tracks.len()
            invariant
                i <= self.tracks@.len(),
                ts == tracks_view(self.tracks@),
                note_total(ts) <= usize::MAX,
                n == note_total(ts.subrange(0, i as int)),
            decreases self.tracks@.len() - i,
        {
            assert(ts.subrange(0, i + 1).drop_last() =~= ts.subrange(0, i as int));
            proof {
                lemma_note_total_prefix(ts, i + 1);
            }
            n = n + self.tracks[i].note_count();
            i += 1;
        }
        assert(ts.subrange(0, i as int) =~= ts);
        n
    }

    pub fn duration_ms(&self) -> (r: Option<u64>)
        ensures
            r == longest_duration(tracks_view(self.tracks@)),
    {
        let ghost ts = tracks_view(self.tracks@);
        let mut best: Option<u64> = None;
        let mut i: usize = 0;
        while i < self.tracks.len()
            invariant
                i <= self.tracks@.len(),
                ts == tracks_view(self.tracks@),
                best == longest_duration(ts.subrange(0, i as int)),
            decreases self.tracks@.len() - i,
        {
            assert(ts.subrange(0, i + 1).drop_last() =~= ts.subrange(0, i as int));
            match self.tracks[i].duration_ms() {
                None => {},
                Some(d) => {
                    best = match best {
                        Some(b) => if b >= d { Some(b) } else { Some(d) },
                        None => Some(d),
                    };
                },
            }
            i += 1;
        }
        assert(ts.subrange(0, i as int) =~= ts);
        best
    }
}

proof fn lemma_event_total_prefix(ts: Seq<TrackModel>, k: int)
    requires
        0 <= k <= ts.len(),
    ensures
        event_total(ts.subrange(0, k)) <= event_total(ts),
    decreases ts.len(),
{
    if k < ts.len() {
        assert(ts.drop_last().subrange(0, k) =~= ts.subrange(0, k));
        lemma_event_total_prefix(ts.drop_last(), k);
    } else {
        assert(ts.subrange(0, k) =~= ts);
    }
}

proof fn lemma_note_total_prefix(ts: Seq<TrackModel>, k: int)
    requires
        0 <= k <= ts.len(),
    ensures
        note_total(ts.subrange(0, k)) <= note_total(ts),
    decreases ts.len(),
{
    if k < ts.len() {
        assert(ts.drop_last().subrange(0, k) =~= ts.subrange(0, k));
        lemma_note_total_prefix(ts.drop_last(), k);
    } else {
        assert(ts.subrange(0, k) =~= ts);
    }
}

} // verus!

verus! {

/// The high groups of a MIDI variable-length quantity: seven bits each,
/// most significant first, every one with the continuation bit.
pub open spec fn vlq_high(r: nat) -> Seq<u8>
    decreases r,
{
    if r < 128 {
        seq![(r + 128) as u8]
    } else {
        vlq_high(r / 128).push((r % 128 + 128) as u8)
    }
}

/// The MIDI variable-length quantity of `v`.
pub open spec fn vlq_bytes(v: nat) -> Seq<u8> {
    if v < 128 {
        seq![v as u8]
    } else {
        vlq_high(v / 128).push((v % 128) as u8)
    }
}

fn push_vlq_high(out: &mut Vec<u8>, r: u32)
    requires
        r > 0,
    ensures
        final(out)@ == old(out)@ + vlq_high(r as nat),
    decreases r,
{
    if r >= 128 {
        push_vlq_high(out, r / 128);
    }
    out.push((r % 128 + 128) as u8);
    assert(out@ =~= old(out)@ + vlq_high(r as nat));
}

fn push_vlq(out: &mut Vec<u8>, v: u32)
    ensures
        final(out)@ == old(out)@ + vlq_bytes(v as nat),
{
    if v >= 128 {
        push_vlq_high(out, v / 128);
    }
    out.push((v % 128) as u8);
    assert(out@ =~= old(out)@ + vlq_bytes(v as nat));
}

/// A MIDI event waiting for its place in a track: its tick, its priority
/// among events of the same tick, and its bytes.
pub struct ScheduledMidiEvent {
    pub tick: u64,
    pub priority: u8,
    pub bytes: Vec<u8>,
}

pub type SchedModel = (int, int, Seq<u8>);

pub open spec fn sched_view(e: ScheduledMidiEvent) -> SchedModel {
    (e.tick as int, e.priority as int, e.bytes@)
}

pub open spec fn scheds_view(v: Seq<ScheduledMidiEvent>) -> Seq<SchedModel> {
    v.map_values(|e: ScheduledMidiEvent| sched_view(e))
}

/// `a` goes no later than `b`: by tick, then by priority.
pub open spec fn sched_le(a: SchedModel, b: SchedModel) -> bool {
    a.0 < b.0 || (a.0 == b.0 && a.1 <= b.1)
}

/// `x` placed into `t` after every event that goes no later than it.
pub open spec fn insert_sched(t: Seq<SchedModel>, x: SchedModel) -> Seq<SchedModel>
    decreases t.len(),
{
    if t.len() == 0 || sched_le(t.last(), x) {
        t.push(x)
    } else {
        insert_sched(t.drop_last(), x).push(t.last())
    }
}

/// The events in playing order: by tick, then priority, then the order
/// they were scheduled in.
pub open spec fn sort_scheds(s: Seq<SchedModel>) -> Seq<SchedModel>
    decreases s.len(),
{
    if s.len() == 0 {
        seq![]
    } else {
        insert_sched(sort_scheds(s.drop_last()), s.last())
    }
}

fn sched_le_exec(a: &ScheduledMidiEvent, b: &ScheduledMidiEvent) -> (r: bool)
    ensures
        r == sched_le(sched_view(*a), sched_view(*b)),
{
    a.tick < b.tick || (a.tick == b.tick && a.priority <= b.priority)
}

fn insert_event(sorted: &mut Vec<ScheduledMidiEvent>, x: ScheduledMidiEvent)
    ensures
        scheds_view(final(sorted)@) == insert_sched(scheds_view(old(sorted)@), sched_view(x)),
{
    let ghost target = insert_sched(scheds_view(sorted@), sched_view(x));
    let mut held: Vec<ScheduledMidiEvent> = Vec::new();
    loop
        invariant
            target == insert_sched(scheds_view(sorted@), sched_view(x)) + scheds_view(held@).reverse(),
        ensures
            target == insert_sched(scheds_view(sorted@), sched_view(x)) + scheds_view(held@).reverse(),
            scheds_view(sorted@).len() == 0 || sched_le(scheds_view(sorted@).last(), sched_view(x)),
        decreases sorted@.len(),
    {
        let n = sorted.len();
        if n == 0 || sched_le_exec(&sorted[n - 1], &x) {
            break;
        }
        let ghost before_s = scheds_view(sorted@);
        let ghost before_h = scheds_view(held@);
        let last = sorted.pop().unwrap();
        held.push(last);
        proof {
            assert(scheds_view(sorted@) =~= before_s.drop_last());
            assert(scheds_view(held@) =~= before_h.push(before_s.last()));
            assert(scheds_view(held@).reverse() =~= seq![before_s.last()] + before_h.reverse());
            assert(insert_sched(before_s, sched_view(x)) == insert_sched(before_s.drop_last(), sched_view(x)).push(before_s.last()));
            assert(insert_sched(before_s.drop_last(), sched_view(x)).push(before_s.last()) + before_h.reverse()
                =~= insert_sched(before_s.drop_last(), sched_view(x)) + (seq![before_s.last()] + before_h.reverse()));
        }
    }
    let ghost s0 = scheds_view(sorted@);
    assert(insert_sched(s0, sched_view(x)) == s0.push(sched_view(x)));
    sorted.push(x);
    assert(scheds_view(sorted@) =~= s0.push(sched_view(x)));
    while held.len() > 0
        invariant
            target == scheds_view(sorted@) + scheds_view(held@).reverse(),
        decreases held@.len(),
    {
        let ghost before_s = scheds_view(sorted@);
        let ghost before_h = scheds_view(held@);
        let e = held.pop().unwrap();
        sorted.push(e);
        proof {
            assert(scheds_view(held@) =~= before_h.drop_last());
            assert(scheds_view(sorted@) =~= before_s.push(before_h.last()));
            assert(before_h.reverse() =~= seq![before_h.last()] + before_h.drop_last().reverse());
            assert(before_s + before_h.reverse() =~= scheds_view(sorted@) + scheds_view(held@).reverse());
        }
    }
    assert(scheds_view(sorted@) + scheds_view(held@).reverse() =~= scheds_view(sorted@));
}

fn sort_events(events: Vec<ScheduledMidiEvent>) -> (r: Vec<ScheduledMidiEvent>)
    ensures
        scheds_view(r@) == sort_scheds(scheds_view(events@)),
{
    let ghost all = scheds_view(events@);
    let mut rest = events;
    let mut stack: Vec<ScheduledMidiEvent> = Vec::new();
    assert(all =~= scheds_view(rest@) + scheds_view(stack@).reverse());
    while rest.len() > 0
        invariant
            all == scheds_view(rest@) + scheds_view(stack@).reverse(),
        decreases rest@.len(),
    {
        let ghost r0 = scheds_view(rest@);
        let ghost s0 = scheds_view(stack@);
        let e = rest.pop().unwrap();
        stack.push(e);
        proof {
            assert(scheds_view(rest@) =~= r0.drop_last());
            assert(scheds_view(stack@) =~= s0.push(r0.last()));
            assert(scheds_view(stack@).reverse() =~= seq![r0.last()] + s0.reverse());
            assert(r0 =~= r0.drop_last().push(r0.last()));
            assert(all =~= scheds_view(rest@) + scheds_view(stack@).reverse());
        }
    }
    let mut sorted: Vec<ScheduledMidiEvent> = Vec::new();
    let mut k: usize = 0;
    let total: usize = stack.len();
    assert(all.len() == total);
    assert(scheds_view(stack@).reverse() =~= all);
    assert(all.take(0) =~= Seq::<SchedModel>::empty());
    while stack.len() > 0
        invariant
            k <= all.len() <= usize::MAX,
            k + stack@.len() == all.len(),
            scheds_view(stack@).reverse() == all.skip(k as int),
            scheds_view(sorted@) == sort_scheds(all.take(k as int)),
        decreases stack@.len(),
    {
        let ghost s0 = scheds_view(stack@);
        let e = stack.pop().unwrap();
        proof {
            assert(s0.reverse()[0] == s0.last());
            assert(all.skip(k as int)[0] == all[k as int]);
            assert(scheds_view(stack@) =~= s0.drop_last());
            assert(s0.reverse() =~= seq![s0.last()] + s0.drop_last().reverse());
            assert(all.skip(k + 1) =~= all.skip(k as int).drop_first());
            assert(all.take(k + 1).drop_last() =~= all.take(k as int));
            assert(all.take(k + 1).last() == all[k as int]);
        }
        insert_event(&mut sorted, e);
        k = k + 1;
    }
    assert(all.take(k as int) =~= all);
    sorted
}


pub open spec fn sat_sub(a: int, b: int) -> int {
    if a > b { a - b } else { 0 }
}

/// The big-endian bytes of a `u32`.
pub open spec fn be32_bytes(n: int) -> Seq<u8> {
    seq![(n / 0x1000000) as u8, ((n / 0x10000) % 256) as u8, ((n / 0x100) % 256) as u8, (n % 256) as u8]
}

/// The track body of events in playing order, the previous one at `prev`:
/// each event's tick distance as a variable-length quantity, then its bytes;
/// with the tick of the last event.
pub open spec fn track_body(sorted: Seq<SchedModel>, prev: int) -> Result<(Seq<u8>, int), Error>
    decreases sorted.len(),
{
    if sorted.len() == 0 {
        Ok((seq![], prev))
    } else {
        let e = sorted[0];
        let delta = sat_sub(e.0, prev);
        if delta > 0x0fff_ffff {
            Err(Error::InvalidValue { offset: 0, field: "SMF delta time", value: delta as u64 })
        } else {
            match track_body(sorted.drop_first(), e.0) {
                Ok((rest, last)) => Ok((vlq_bytes(delta as nat) + e.2 + rest, last)),
                Err(err) => Err(err),
            }
        }
    }
}

/// An `MTrk` chunk of the events in playing order, closed by end-of-track
/// at `end_tick` (or at the last event, if that is later).
#[verifier::opaque]
pub open spec fn midi_track_spec(events: Seq<SchedModel>, end_tick: int) -> Result<Seq<u8>, Error> {
    match track_body(sort_scheds(events), 0) {
        Err(e) => Err(e),
        Ok((body, last)) => {
            let d = sat_sub(end_tick, last);
            if d > 0x0fff_ffff {
                Err(Error::InvalidValue { offset: 0, field: "SMF end delta time", value: d as u64 })
            } else {
                let payload = body + vlq_bytes(d as nat) + seq![0xffu8, 0x2fu8, 0x00u8];
                if payload.len() > u32::MAX {
                    Err(Error::InvalidValue { offset: 0, field: "SMF track length", value: payload.len() as u64 })
                } else {
                    Ok(seq![0x4du8, 0x54u8, 0x72u8, 0x6bu8] + be32_bytes(payload.len() as int) + payload)
                }
            }
        },
    }
}

fn push_be32(out: &mut Vec<u8>, n: u32)
    ensures
        final(out)@ == old(out)@ + be32_bytes(n as int),
{
    out.push((n / 0x1000000) as u8);
    out.push(((n / 0x10000) % 256) as u8);
    out.push(((n / 0x100) % 256) as u8);
    out.push((n % 256) as u8);
    assert(out@ =~= old(out)@ + be32_bytes(n as int));
}

fn midi_track(events: Vec<ScheduledMidiEvent>, end_tick: u64) -> (r: Result<Vec<u8>, Error>)
    ensures
        match r {
            Ok(b) => midi_track_spec(scheds_view(events@), end_tick as int) == Ok::<Seq<u8>, Error>(b@),
            Err(e) => midi_track_spec(scheds_view(events@), end_tick as int) == Err::<Seq<u8>, Error>(e),
        },
{
    reveal(midi_track_spec);
    let ghost all = scheds_view(events@);
    let sorted = sort_events(events);
    let ghost ss = scheds_view(sorted@);
    let mut payload: Vec<u8> = Vec::new();
    let mut previous: u64 = 0;
    let mut i: usize = 0;
    let ghost total = track_body(ss, 0);
    assert(ss.skip(0) =~= ss);
    while i < sorted.len()
        invariant
            ss == scheds_view(sorted@),
            ss == sort_scheds(all),
            all == scheds_view(events@),
            i <= ss.len(),
            total == track_body(ss, 0),
            total == match track_body(ss.skip(i as int), previous as int) {
                Ok((rest, last)) => Ok::<(Seq<u8>, int), Error>((payload@ + rest, last)),
                Err(e) => Err::<(Seq<u8>, int), Error>(e),
            },
        decreases ss.len() - i,
    {
        let e = &sorted[i];
        let delta: u64 = if e.tick > previous { e.tick - previous } else { 0 };
        proof {
            assert(ss.skip(i as int)[0] == ss[i as int]);
            assert(ss.skip(i as int).drop_first() =~= ss.skip(i + 1));
        }
        if delta > 0x0fff_ffff {
            proof {
                reveal(midi_track_spec);
            }
            return Err(Error::InvalidValue { offset: 0, field: "SMF delta time", value: delta });
        }
        let ghost p0 = payload@;
        push_vlq(&mut payload, delta as u32);
        push_bytes(&mut payload, e.bytes.as_slice());
        proof {
            match track_body(ss.skip(i + 1), e.tick as int) {
                Ok((rest, last)) => {
                    assert(p0 + (vlq_bytes(delta as nat) + ss[i as int].2 + rest) =~= payload@ + rest);
                },
                Err(err) => {},
            }
        }
        previous = e.tick;
        i += 1;
    }
    assert(ss.skip(i as int) =~= Seq::<SchedModel>::empty());
    let d: u64 = if end_tick > previous { end_tick - previous } else { 0 };
    if d > 0x0fff_ffff {
        return Err(Error::InvalidValue { offset: 0, field: "SMF end delta time", value: d });
    }
    let ghost body = payload@;
    push_vlq(&mut payload, d as u32);
    payload.push(0xff);
    payload.push(0x2f);
    payload.push(0x00);
    assert(payload@ =~= body + vlq_bytes(d as nat) + seq![0xffu8, 0x2fu8, 0x00u8]);
    if payload.len() > 0xffff_ffff {
        return Err(Error::InvalidValue { offset: 0, field: "SMF track length", value: payload.len() as u64 });
    }
    let mut output: Vec<u8> = Vec::new();
    output.push(0x4d);
    output.push(0x54);
    output.push(0x72);
    output.push(0x6b);
    push_be32(&mut output, payload.len() as u32);
    push_bytes(&mut output, payload.as_slice());
    assert(output@ =~= seq![0x4du8, 0x54u8, 0x72u8, 0x6bu8] + be32_bytes(payload@.len() as int) + payload@);
    Ok(output)
}


/// What a conversion carries from event to event: the clock, the latest time
/// reached, and per channel the program, octave shift, rhythm mode and
/// rhythm velocity; with the MIDI events scheduled so far.
pub struct ConvModel {
    pub current: int,
    pub end: int,
    pub programs: Seq<u8>,
    pub octave: Seq<u8>,
    pub percussion: Seq<bool>,
    pub velocity: Seq<u8>,
    pub scheduled: Seq<SchedModel>,
}

pub open spec fn controller_number(c: Controller) -> u8 {
    match c {
        Controller::Modulation => 1,
        Controller::Volume => 7,
        Controller::Pan => 10,
        Controller::Expression => 11,
    }
}

pub open spec fn clamp_pitch(v: int) -> u8 {
    if v < 0 { 0 } else if v > 127 { 127 } else { v as u8 }
}

/// The MIDI channel a score channel sounds on: 9 while it is a rhythm channel.
pub open spec fn voice_channel(st: ConvModel, track_index: int, channel: u8) -> u8 {
    if st.percussion[channel as int] { 9 } else { midi_channel_spec(track_index, channel as int) }
}

/// A system-exclusive MIDI event: `f0`, the length, the bytes.
pub open spec fn sysex_message(data: Seq<u8>) -> Seq<u8> {
    seq![0xf0u8] + vlq_bytes((data.len() as u32) as nat) + data
}

pub open spec fn with_clock(st: ConvModel, current: int, end: int) -> ConvModel {
    ConvModel { current, end, programs: st.programs, octave: st.octave, percussion: st.percussion, velocity: st.velocity, scheduled: st.scheduled }
}

pub open spec fn with_scheduled(st: ConvModel, scheduled: Seq<SchedModel>) -> ConvModel {
    ConvModel { current: st.current, end: st.end, programs: st.programs, octave: st.octave, percussion: st.percussion, velocity: st.velocity, scheduled }
}

/// One score event applied to the conversion state.
#[verifier::opaque]
pub open spec fn convert_step(st: ConvModel, e: EventModel, ti: int, db: int, gb: int) -> ConvModel {
    let now = sat_u64(st.current + e.0 * db);
    let end1 = if now > st.end { now } else { st.end };
    let st1 = with_clock(st, now, end1);
    match e.2 {
        KindModel::Note { channel, pitch, gate, .. } => if gate == 0 {
            st1
        } else {
            let s = channel as int;
            let mc = voice_channel(st1, ti, channel);
            let mp = if st1.percussion[s] {
                st1.programs[s]
            } else {
                clamp_pitch(pitch + 36 + octave_semitones_spec(st1.octave[s]))
            };
            let off = sat_u64(now + gate * gb);
            with_scheduled(
                with_clock(st1, now, if off > end1 { off } else { end1 }),
                st1.scheduled + seq![(now, 3, seq![(0x90 + mc) as u8, mp, st1.velocity[s]]), (off, 0, seq![(0x80 + mc) as u8, mp, 0u8])],
            )
        },
        KindModel::ProgramChange { channel, program } => {
            let s = channel as int;
            let p = program % 128;
            let st2 = ConvModel {
                current: now,
                end: end1,
                programs: st1.programs.update(s, p),
                octave: st1.octave,
                percussion: st1.percussion,
                velocity: st1.velocity,
                scheduled: st1.scheduled,
            };
            if st1.percussion[s] {
                st2
            } else {
                with_scheduled(st2, st2.scheduled.push((now, 2, seq![(0xc0 + midi_channel_spec(ti, s)) as u8, p])))
            }
        },
        KindModel::BankSelect { channel, bank } => ConvModel {
            current: now,
            end: end1,
            programs: st1.programs,
            octave: st1.octave,
            percussion: st1.percussion.update(channel as int, bank >= 128),
            velocity: st1.velocity,
            scheduled: st1.scheduled,
        },
        KindModel::OctaveShift { channel, shift } => ConvModel {
            current: now,
            end: end1,
            programs: st1.programs,
            octave: st1.octave.update(channel as int, shift),
            percussion: st1.percussion,
            velocity: st1.velocity,
            scheduled: st1.scheduled,
        },
        KindModel::ControlChange { channel, controller, value, .. } => {
            let s = channel as int;
            if controller == Controller::Volume && st1.percussion[s] {
                ConvModel {
                    current: now,
                    end: end1,
                    programs: st1.programs,
                    octave: st1.octave,
                    percussion: st1.percussion,
                    velocity: st1.velocity.update(s, value % 128),
                    scheduled: st1.scheduled,
                }
            } else {
                let mc = voice_channel(st1, ti, channel);
                with_scheduled(st1, st1.scheduled.push((now, 2, seq![(0xb0 + mc) as u8, controller_number(controller), value % 128])))
            }
        },
        KindModel::PitchBend { channel, value, .. } => {
            let mc = voice_channel(st1, ti, channel);
            let v = if value > 0x3fff { 0x3fffu16 } else { value };
            with_scheduled(st1, st1.scheduled.push((now, 2, seq![(0xe0 + mc) as u8, (v % 128) as u8, (v / 128) as u8])))
        },
        KindModel::SystemExclusive(data) => with_scheduled(st1, st1.scheduled.push((now, 1, sysex_message(data)))),
        KindModel::Meta { kind, data } => if kind == 0x58 {
            with_scheduled(st1, st1.scheduled.push((now, 1, seq![0xffu8, 0x58u8, data.len() as u8] + data)))
        } else {
            st1
        },
        _ => st1,
    }
}

pub open spec fn convert_events(events: Seq<EventModel>, start: ConvModel, ti: int, db: int, gb: int) -> ConvModel
    decreases events.len(),
{
    if events.len() == 0 {
        start
    } else {
        convert_step(convert_events(events.drop_last(), start, ti, db, gb), events.last(), ti, db, gb)
    }
}

/// The decimal digits of `n` as ASCII bytes.
pub open spec fn dec_bytes(n: nat) -> Seq<u8>
    decreases n,
{
    if n < 10 {
        seq![(48 + n) as u8]
    } else {
        dec_bytes(n / 10).push((48 + n % 10) as u8)
    }
}

/// The name of the MIDI track made from score track `number`.
pub open spec fn track_name(number: u8) -> Seq<u8> {
    "SMAF MTR".spec_bytes() + dec_bytes(number as nat) + " approximation".spec_bytes()
}

/// The system-exclusive setup messages of a track, scheduled at tick 0.
pub open spec fn setup_scheds(setups: Seq<SetupModel>) -> Seq<SchedModel>
    decreases setups.len(),
{
    if setups.len() == 0 {
        seq![]
    } else {
        setup_scheds(setups.drop_last()) + match setups.last() {
            SetupModel::SystemExclusive(data) => seq![(0int, 1int, sysex_message(data))],
            SetupModel::Unknown(_) => seq![],
        }
    }
}

/// The conversion state before a track's first event.
pub open spec fn initial_state(t: TrackModel, ti: int) -> ConvModel {
    let name = track_name(t.number);
    ConvModel {
        current: 0,
        end: 0,
        programs: seq![0u8, 0u8, 0u8, 0u8],
        octave: seq![0u8, 0u8, 0u8, 0u8],
        percussion: Seq::new(4, |c: int| initial_percussion_spec(ti, t.channel_status, c as u8)),
        velocity: seq![127u8, 127u8, 127u8, 127u8],
        scheduled: seq![(0int, 0int, seq![0xffu8, 0x03u8, name.len() as u8] + name)] + setup_scheds(t.setup_messages),
    }
}

/// The `MTrk` chunk made from a Handy Phone score track at index `ti` of the file.
#[verifier::opaque]
pub open spec fn track_midi_spec(t: TrackModel, ti: int) -> Result<Seq<u8>, Error> {
    match t.duration_time_base_ms {
        None => Err(Error::InvalidValue {
            offset: (t.offset + 10) as usize,
            field: "SMAF duration time base",
            value: t.duration_time_base_code as u64,
        }),
        Some(db) => match t.gate_time_base_ms {
            None => Err(Error::InvalidValue {
                offset: (t.offset + 11) as usize,
                field: "SMAF gate time base",
                value: t.gate_time_base_code as u64,
            }),
            Some(gb) => {
                let st = convert_events(t.events, initial_state(t, ti), ti, db as int, gb as int);
                midi_track_spec(st.scheduled, st.end)
            },
        },
    }
}


/// The channel a score event indexes the per-channel state with.
pub open spec fn state_channel(k: KindModel) -> Option<u8> {
    match k {
        KindModel::Note { channel, gate, .. } => if gate == 0 { None } else { Some(channel) },
        KindModel::ProgramChange { channel, .. } => Some(channel),
        KindModel::BankSelect { channel, .. } => Some(channel),
        KindModel::OctaveShift { channel, .. } => Some(channel),
        KindModel::ControlChange { channel, .. } => Some(channel),
        KindModel::PitchBend { channel, .. } => Some(channel),
        _ => None,
    }
}

/// Every event that touches per-channel state names one of the four channels.
pub open spec fn channels_in_range(events: Seq<EventModel>) -> bool {
    forall|i: int| 0 <= i < events.len() ==> (#[trigger] state_channel(events[i].2) matches Some(c) ==> c < 4)
}

struct ConvState {
    current: u64,
    end: u64,
    programs: Vec<u8>,
    octave: Vec<u8>,
    percussion: Vec<bool>,
    velocity: Vec<u8>,
    scheduled: Vec<ScheduledMidiEvent>,
}

spec fn conv_view(st: ConvState) -> ConvModel {
    ConvModel {
        current: st.current as int,
        end: st.end as int,
        programs: st.programs@,
        octave: st.octave@,
        percussion: st.percussion@,
        velocity: st.velocity@,
        scheduled: scheds_view(st.scheduled@),
    }
}

spec fn conv_wf(st: ConvState) -> bool {
    st.programs@.len() == 4 && st.octave@.len() == 4 && st.percussion@.len() == 4 && st.velocity@.len() == 4
}

fn bytes3(a: u8, b: u8, c: u8) -> (r: Vec<u8>)
    ensures
        r@ == seq![a, b, c],
{
    let mut v: Vec<u8> = Vec::new();
    v.push(a);
    v.push(b);
    v.push(c);
    assert(v@ =~= seq![a, b, c]);
    v
}

fn sysex_bytes(data: &Vec<u8>) -> (r: Vec<u8>)
    ensures
        r@ == sysex_message(data@),
{
    let mut v: Vec<u8> = Vec::new();
    v.push(0xf0);
    push_vlq(&mut v, data.len() as u32);
    push_bytes(&mut v, data.as_slice());
    assert(v@ =~= sysex_message(data@));
    v
}

fn schedule(st: &mut ConvState, tick: u64, priority: u8, bytes: Vec<u8>)
    ensures
        conv_view(*final(st)) == with_scheduled(conv_view(*old(st)), conv_view(*old(st)).scheduled.push((tick as int, priority as int, bytes@))),
        conv_wf(*final(st)) == conv_wf(*old(st)),
{
    let ghost s0 = scheds_view(st.scheduled@);
    let e = ScheduledMidiEvent { tick, priority, bytes };
    st.scheduled.push(e);
    assert(scheds_view(st.scheduled@) =~= s0.push(sched_view(e)));
}

fn voice(st: &ConvState, ti: usize, channel: u8) -> (r: u8)
    requires
        conv_wf(*st),
        channel < 4,
    ensures
        r == voice_channel(conv_view(*st), ti as int, channel),
        r < 16,
{
    if st.percussion[channel as usize] {
        9
    } else {
        midi_channel(ti, channel)
    }
}

fn apply_event(st: &mut ConvState, e: &Event, ti: usize, db: u64, gb: u64)
    requires
        conv_wf(*old(st)),
        db <= 0xffff,
        gb <= 0xffff,
        state_channel(kind_view(e.kind)) matches Some(c) ==> c < 4,
    ensures
        conv_wf(*final(st)),
        conv_view(*final(st)) == convert_step(conv_view(*old(st)), event_view(*e), ti as int, db as int, gb as int),
{
    reveal(convert_step);
    assert((e.delta as u64) * db <= 0xffff_ffffu64 * 0xffffu64) by (nonlinear_arith)
        requires
            db <= 0xffff,
    ;
    let now = st.current.saturating_add((e.delta as u64) * db);
    st.current = now;
    if now > st.end {
        st.end = now;
    }
    let ghost goal = convert_step(conv_view(*old(st)), event_view(*e), ti as int, db as int, gb as int);
    match &e.kind {
        EventKind::Note { channel, pitch, gate, .. } => {
            if *gate != 0 {
                let s = *channel as usize;
                let mc = voice(st, ti, *channel);
                let mp: u8 = if st.percussion[s] {
                    st.programs[s]
                } else {
                    let v: i16 = *pitch as i16 + 36 + octave_semitones(st.octave[s]);
                    if v < 0 { 0 } else if v > 127 { 127 } else { v as u8 }
                };
                assert((*gate as u64) * gb <= 0xffff_ffffu64 * 0xffffu64) by (nonlinear_arith)
                    requires
                        gb <= 0xffff,
                ;
                let off = now.saturating_add((*gate as u64) * gb);
                let vel = st.velocity[s];
                let end1 = st.end;
                schedule(st, now, 3, bytes3(0x90 + mc, mp, vel));
                schedule(st, off, 0, bytes3(0x80 + mc, mp, 0));
                if off > end1 {
                    st.end = off;
                }
                assert(conv_view(*st).end == goal.end);
                assert(conv_view(*st).current == goal.current);
                assert(conv_view(*st).scheduled =~= goal.scheduled);
            }
            assert(conv_view(*st) =~= goal);
        },
        EventKind::ProgramChange { channel, program } => {
            let s = *channel as usize;
            let p = *program % 128;
            st.programs.set(s, p);
            if !st.percussion[s] {
                let mc = midi_channel(ti, *channel);
                schedule(st, now, 2, {
                    let mut v: Vec<u8> = Vec::new();
                    v.push(0xc0 + mc);
                    v.push(p);
                    assert(v@ =~= seq![(0xc0 + mc) as u8, p]);
                    v
                });
            }
            assert(conv_view(*st) =~= goal);
        },
        EventKind::BankSelect { channel, bank } => {
            st.percussion.set(*channel as usize, *bank >= 128);
            assert(conv_view(*st) =~= goal);
        },
        EventKind::OctaveShift { channel, shift } => {
            st.octave.set(*channel as usize, *shift);
            assert(conv_view(*st) =~= goal);
        },
        EventKind::ControlChange { channel, controller, value, .. } => {
            let s = *channel as usize;
            if *controller == Controller::Volume && st.percussion[s] {
                st.velocity.set(s, *value % 128);
            } else {
                let mc = voice(st, ti, *channel);
                schedule(st, now, 2, bytes3(0xb0 + mc, controller.midi_number(), *value % 128));
            }
            assert(conv_view(*st) =~= goal);
        },
        EventKind::PitchBend { channel, value, .. } => {
            let mc = voice(st, ti, *channel);
            let v: u16 = if *value > 0x3fff { 0x3fff } else { *value };
            schedule(st, now, 2, bytes3(0xe0 + mc, (v % 128) as u8, (v / 128) as u8));
            assert(conv_view(*st) =~= goal);
        },
        EventKind::SystemExclusive(data) => {
            schedule(st, now, 1, sysex_bytes(data));
            assert(conv_view(*st) =~= goal);
        },
        EventKind::Meta { kind, data } => {
            if *kind == 0x58 {
                let mut m: Vec<u8> = Vec::new();
                m.push(0xff);
                m.push(0x58);
                m.push(data.len() as u8);
                push_bytes(&mut m, data.as_slice());
                assert(m@ =~= seq![0xffu8, 0x58u8, data@.len() as u8] + data@);
                schedule(st, now, 1, m);
            }
        },
        _ => {},
    }
    assert(conv_view(*st) =~= goal);
}

fn push_decimal(out: &mut Vec<u8>, n: u8)
    ensures
        final(out)@ == old(out)@ + dec_bytes(n as nat),
{
    let ghost m = n as nat;
    if n >= 100 {
        out.push(48 + n / 100);
        out.push(48 + (n / 10) % 10);
        out.push(48 + n % 10);
        assert((m / 10) / 10 == m / 100) by (nonlinear_arith)
            requires
                m < 256,
        ;
        assert(dec_bytes(m / 100) == seq![(48 + m / 100) as u8]);
        assert(dec_bytes(m / 10) == dec_bytes(m / 100).push((48 + (m / 10) % 10) as u8));
    } else if n >= 10 {
        out.push(48 + n / 10);
        out.push(48 + n % 10);
        assert(dec_bytes(m / 10) == seq![(48 + m / 10) as u8]);
    } else {
        out.push(48 + n);
    }
    assert(out@ =~= old(out)@ + dec_bytes(m));
}

fn convert_track(track: &ScoreTrack, ti: usize) -> (r: Result<Vec<u8>, Error>)
    requires
        convertible_ok(track_view(*track)),
    ensures
        match r {
            Ok(b) => track_midi_spec(track_view(*track), ti as int) == Ok::<Seq<u8>, Error>(b@),
            Err(e) => track_midi_spec(track_view(*track), ti as int) == Err::<Seq<u8>, Error>(e),
        },
{
    reveal(track_midi_spec);
    let db: u64 = match track.duration_time_base_ms {
        Some(v) => v as u64,
        None => {
            return Err(Error::InvalidValue {
                offset: track.offset + 10,
                field: "SMAF duration time base",
                value: track.duration_time_base_code as u64,
            });
        },
    };
    let gb: u64 = match track.gate_time_base_ms {
        Some(v) => v as u64,
        None => {
            return Err(Error::InvalidValue {
                offset: track.offset + 11,
                field: "SMAF gate time base",
                value: track.gate_time_base_code as u64,
            });
        },
    };
    let ghost tv = track_view(*track);
    let mut name: Vec<u8> = Vec::new();
    push_bytes(&mut name, "SMAF MTR".as_bytes());
    push_decimal(&mut name, track.number);
    push_bytes(&mut name, " approximation".as_bytes());
    assert(name@ =~= track_name(track.number));
    let mut title: Vec<u8> = Vec::new();
    title.push(0xff);
    title.push(0x03);
    title.push(name.len() as u8);
    push_bytes(&mut title, name.as_slice());
    assert(title@ =~= seq![0xffu8, 0x03u8, track_name(track.number).len() as u8] + track_name(track.number));
    let mut percussion: Vec<bool> = Vec::new();
    percussion.push(initial_percussion(ti, track.channel_status.as_slice(), 0));
    percussion.push(initial_percussion(ti, track.channel_status.as_slice(), 1));
    percussion.push(initial_percussion(ti, track.channel_status.as_slice(), 2));
    percussion.push(initial_percussion(ti, track.channel_status.as_slice(), 3));
    let programs = bytes3(0, 0, 0);
    let mut programs = programs;
    programs.push(0);
    let mut octave = bytes3(0, 0, 0);
    octave.push(0);
    let mut velocity = bytes3(127, 127, 127);
    velocity.push(127);
    let mut st = ConvState { current: 0, end: 0, programs, octave, percussion, velocity, scheduled: Vec::new() };
    assert(st.programs@ =~= seq![0u8, 0u8, 0u8, 0u8]);
    assert(st.octave@ =~= seq![0u8, 0u8, 0u8, 0u8]);
    assert(st.velocity@ =~= seq![127u8, 127u8, 127u8, 127u8]);
    assert(st.percussion@ =~= initial_state(tv, ti as int).percussion);
    assert(scheds_view(st.scheduled@) =~= Seq::<SchedModel>::empty());
    schedule(&mut st, 0, 0, title);
    let ghost ss = setups_view(track.setup_messages@);
    let mut k: usize = 0;
    assert(ss.take(0) =~= Seq::<SetupModel>::empty());
    assert(conv_view(st).scheduled =~= seq![(0int, 0int, seq![0xffu8, 0x03u8, track_name(track.number).len() as u8] + track_name(track.number))] + setup_scheds(ss.take(0)));
    while k < track.setup_messages.len()
        invariant
            k <= ss.len(),
            ss == setups_view(track.setup_messages@),
            conv_wf(st),
            st.current == 0,
            st.end == 0,
            conv_view(st).scheduled == seq![(0int, 0int, seq![0xffu8, 0x03u8, track_name(track.number).len() as u8] + track_name(track.number))] + setup_scheds(ss.take(k as int)),
            conv_view(st).programs == seq![0u8, 0u8, 0u8, 0u8],
            conv_view(st).octave == seq![0u8, 0u8, 0u8, 0u8],
            conv_view(st).velocity == seq![127u8, 127u8, 127u8, 127u8],
            conv_view(st).percussion == initial_state(tv, ti as int).percussion,
        decreases ss.len() - k,
    {
        let ghost before = conv_view(st).scheduled;
        assert(ss.take(k + 1).drop_last() =~= ss.take(k as int));
        assert(ss.take(k + 1).last() == setup_view(track.setup_messages@[k as int]));
        match &track.setup_messages[k] {
            SetupMessage::SystemExclusive(data) => {
                schedule(&mut st, 0, 1, sysex_bytes(data));
            },
            SetupMessage::Unknown(_) => {},
        }
        k += 1;
    }
    assert(ss.take(k as int) =~= ss);
    let ghost init = initial_state(tv, ti as int);
    assert(conv_view(st) =~= init);
    let ghost ev = events_view(track.events@);
    let mut i: usize = 0;
    assert(ev.take(0) =~= Seq::<EventModel>::empty());
    while i < track.events.len()
        invariant
            i <= ev.len(),
            ev == events_view(track.events@),
            channels_in_range(ev),
            db <= 0xffff,
            gb <= 0xffff,
            conv_wf(st),
            conv_view(st) == convert_events(ev.take(i as int), init, ti as int, db as int, gb as int),
        decreases ev.len() - i,
    {
        assert(ev.take(i + 1).drop_last() =~= ev.take(i as int));
        assert(ev.take(i + 1).last() == event_view(track.events@[i as int]));
        assert(state_channel(ev[i as int].2) matches Some(c) ==> c < 4);
        apply_event(&mut st, &track.events[i], ti, db, gb);
        i += 1;
    }
    assert(ev.take(i as int) =~= ev);
    let end = st.end;
    midi_track(st.scheduled, end)
}

/// What converting a track asks of it: room for the offsets of its
/// time-base errors, and channels 0 to 3 in the events it converts.
pub open spec fn convertible_ok(t: TrackModel) -> bool {
    &&& t.offset + 10 <= usize::MAX
    &&& t.duration_time_base_ms is Some ==> t.offset + 11 <= usize::MAX
    &&& (t.duration_time_base_ms is Some && t.gate_time_base_ms is Some) ==> channels_in_range(t.events)
}

/// The Handy Phone (format 0) tracks, each with its index in the file.
pub open spec fn convertible(tracks: Seq<TrackModel>) -> Seq<(int, TrackModel)>
    decreases tracks.len(),
{
    if tracks.len() == 0 {
        seq![]
    } else {
        convertible(tracks.drop_last()) + if tracks.last().format_type == 0 {
            seq![((tracks.len() - 1) as int, tracks.last())]
        } else {
            seq![]
        }
    }
}

/// The `MTrk` chunks of the convertible tracks, in file order; the first
/// refusal ends it.
pub open spec fn tracks_midi(c: Seq<(int, TrackModel)>) -> Result<Seq<u8>, Error>
    decreases c.len(),
{
    if c.len() == 0 {
        Ok(seq![])
    } else {
        match tracks_midi(c.drop_last()) {
            Err(e) => Err(e),
            Ok(p) => match track_midi_spec(c.last().1, c.last().0) {
                Err(e) => Err(e),
                Ok(b) => Ok(p + b),
            },
        }
    }
}

pub const APPROXIMATION_NOTICE: &'static str =
    "Approximate SMAF transcription: timing/events are recovered; Yamaha MA synthesis is not emulated.";

/// The conductor track's events: its name, the notice, and a tempo of one
/// quarter note per second.
pub open spec fn conductor_scheds() -> Seq<SchedModel> {
    seq![
        (0int, 0int, seq![0xffu8, 0x03u8, 18u8] + "SMAF approximation".spec_bytes()),
        (0int, 1int, seq![0xffu8, 0x01u8, APPROXIMATION_NOTICE.spec_bytes().len() as u8] + APPROXIMATION_NOTICE.spec_bytes()),
        (0int, 2int, seq![0xffu8, 0x51u8, 0x03u8, 0x0fu8, 0x42u8, 0x40u8]),
    ]
}

/// A format-1 standard MIDI file at 1000 ticks per quarter note (one tick
/// per millisecond at the conductor's tempo): the conductor track, then one
/// track per Handy Phone score track.
pub open spec fn approximate_smf_spec(f: FileModel) -> Result<Seq<u8>, Error> {
    let c = convertible(f.tracks);
    if c.len() == 0 {
        Err(Error::InvalidValue { offset: 0, field: "convertible SMAF score track count", value: 0 })
    } else if c.len() + 1 > 0xffff {
        Err(
            Error::InvalidValue {
                offset: 0,
                field: "SMF track count",
                value: if c.len() + 1 <= u64::MAX { (c.len() + 1) as u64 } else { 0 },
            },
        )
    } else {
        match midi_track_spec(conductor_scheds(), 0) {
            Err(e) => Err(e),
            Ok(conductor) => match tracks_midi(c) {
                Err(e) => Err(e),
                Ok(body) => Ok(
                    seq![
                        0x4du8, 0x54u8, 0x68u8, 0x64u8, 0u8, 0u8, 0u8, 6u8, 0u8, 1u8,
                        ((c.len() + 1) / 256) as u8, ((c.len() + 1) % 256) as u8, 0x03u8, 0xe8u8,
                    ] + conductor + body,
                ),
            },
        }
    }
}

pub open spec fn all_convertible_ok(tracks: Seq<TrackModel>) -> bool {
    forall|i: int| 0 <= i < tracks.len() && #[trigger] tracks[i].format_type == 0 ==> convertible_ok(tracks[i])
}

fn sched(tick: u64, priority: u8, bytes: Vec<u8>) -> (r: ScheduledMidiEvent)
    ensures
        sched_view(r) == (tick as int, priority as int, bytes@),
{
    ScheduledMidiEvent { tick, priority, bytes }
}

/// Converts the Handy Phone score tracks to an approximate standard MIDI file.
pub fn to_approximate_smf(file: &SmafFile) -> (r: Result<Vec<u8>, Error>)
    requires
        all_convertible_ok(tracks_view(file.tracks@)),
    ensures
        match r {
            Ok(b) => approximate_smf_spec(file_view(*file)) == Ok::<Seq<u8>, Error>(b@),
            Err(e) => approximate_smf_spec(file_view(*file)) == Err::<Seq<u8>, Error>(e),
        },
{
    let ghost ts = tracks_view(file.tracks@);
    let mut count: usize = 0;
    let mut j: usize = 0;
    assert(ts.take(0) =~= Seq::<TrackModel>::empty());
    while j < file.tracks.len()
        invariant
            j <= ts.len(),
            ts == tracks_view(file.tracks@),
            count == convertible(ts.take(j as int)).len(),
            count <= j,
        decreases ts.len() - j,
    {
        assert(ts.take(j + 1).drop_last() =~= ts.take(j as int));
        if file.tracks[j].format_type == 0 {
            count += 1;
        }
        j += 1;
    }
    assert(ts.take(j as int) =~= ts);
    if count == 0 {
        return Err(Error::InvalidValue { offset: 0, field: "convertible SMAF score track count", value: 0 });
    }
    if count >= 0xffff {
        let value: u64 = if (count as u64) < u64::MAX { count as u64 + 1 } else { 0 };
        return Err(Error::InvalidValue { offset: 0, field: "SMF track count", value });
    }
    let mut output: Vec<u8> = Vec::new();
    output.push(0x4d);
    output.push(0x54);
    output.push(0x68);
    output.push(0x64);
    output.push(0);
    output.push(0);
    output.push(0);
    output.push(6);
    output.push(0);
    output.push(1);
    output.push(((count + 1) / 256) as u8);
    output.push(((count + 1) % 256) as u8);
    output.push(0x03);
    output.push(0xe8);
    let ghost header = output@;
    let mut title: Vec<u8> = Vec::new();
    title.push(0xff);
    title.push(0x03);
    title.push(18);
    push_bytes(&mut title, "SMAF approximation".as_bytes());
    let notice = APPROXIMATION_NOTICE.as_bytes();
    let mut text: Vec<u8> = Vec::new();
    text.push(0xff);
    text.push(0x01);
    text.push(notice.len() as u8);
    push_bytes(&mut text, notice);
    let mut tempo = bytes3(0xff, 0x51, 0x03);
    tempo.push(0x0f);
    tempo.push(0x42);
    tempo.push(0x40);
    assert(title@ =~= seq![0xffu8, 0x03u8, 18u8] + "SMAF approximation".spec_bytes());
    assert(text@ =~= seq![0xffu8, 0x01u8, APPROXIMATION_NOTICE.spec_bytes().len() as u8] + APPROXIMATION_NOTICE.spec_bytes());
    assert(tempo@ =~= seq![0xffu8, 0x51u8, 0x03u8, 0x0fu8, 0x42u8, 0x40u8]);
    let mut conductor: Vec<ScheduledMidiEvent> = Vec::new();
    conductor.push(sched(0, 0, title));
    conductor.push(sched(0, 1, text));
    conductor.push(sched(0, 2, tempo));
    assert(scheds_view(conductor@) =~= conductor_scheds());
    let first = midi_track(conductor, 0)?;
    push_bytes(&mut output, first.as_slice());
    let ghost lead = output@;
    assert(lead =~= header + first@);
    let mut i: usize = 0;
    assert(convertible(ts.take(0)) =~= Seq::<(int, TrackModel)>::empty());
    assert(output@.skip(lead.len() as int) =~= Seq::<u8>::empty());
    assert(ts.take(0) =~= Seq::<TrackModel>::empty());
    assert(lead =~= lead + Seq::<u8>::empty());
    while i < file.tracks.len()
        invariant
            i <= ts.len(),
            ts == tracks_view(file.tracks@),
            all_convertible_ok(ts),
            file_view(*file).tracks == ts,
            convertible(ts).len() == count,
            0 < count < 0xffff,
            midi_track_spec(conductor_scheds(), 0) == Ok::<Seq<u8>, Error>(first@),
            lead == header + first@,
            header == seq![
                0x4du8, 0x54u8, 0x68u8, 0x64u8, 0u8, 0u8, 0u8, 6u8, 0u8, 1u8,
                ((count + 1) / 256) as u8, ((count + 1) % 256) as u8, 0x03u8, 0xe8u8,
            ],
            tracks_midi(convertible(ts.take(i as int))) == Ok::<Seq<u8>, Error>(output@.skip(lead.len() as int)),
            output@.len() >= lead.len(),
            output@.take(lead.len() as int) == lead,
        decreases ts.len() - i,
    {
        assert(ts.take(i + 1).drop_last() =~= ts.take(i as int));
        assert(ts.take(i + 1).last() == ts[i as int]);
        let ghost prev = output@;
        if file.tracks[i].format_type == 0 {
            assert(convertible(ts.take(i + 1)) =~= convertible(ts.take(i as int)).push((i as int, ts[i as int])));
            assert(convertible_ok(ts[i as int]));
            let ghost before = convertible(ts.take(i as int));
            assert(convertible(ts.take(i + 1)).drop_last() =~= before);
            let bytes = match convert_track(&file.tracks[i], i) {
                Ok(b) => b,
                Err(e) => {
                    proof {
                        lemma_tracks_midi_err(ts, i + 1, e);
                    }
                    return Err(e);
                },
            };
            push_bytes(&mut output, bytes.as_slice());
            assert(output@.skip(lead.len() as int) =~= prev.skip(lead.len() as int) + bytes@);
            assert(output@.take(lead.len() as int) =~= lead);
        } else {
            assert(convertible(ts.take(i + 1)) =~= convertible(ts.take(i as int)));
        }
        i += 1;
    }
    assert(ts.take(i as int) =~= ts);
    assert(output@ =~= header + first@ + output@.skip(lead.len() as int));
    Ok(output)
}

impl SmafFile {
    /// Converts the file's Handy Phone score tracks to an approximate standard MIDI file.
    pub fn to_approximate_smf(&self) -> (r: Result<Vec<u8>, Error>)
        requires
            all_convertible_ok(tracks_view(self.tracks@)),
        ensures
            match r {
                Ok(b) => approximate_smf_spec(file_view(*self)) == Ok::<Seq<u8>, Error>(b@),
                Err(e) => approximate_smf_spec(file_view(*self)) == Err::<Seq<u8>, Error>(e),
            },
    {
        to_approximate_smf(self)
    }
}

proof fn lemma_tracks_midi_err(ts: Seq<TrackModel>, k: int, e: Error)
    requires
        0 <= k <= ts.len(),
        tracks_midi(convertible(ts.take(k))) == Err::<Seq<u8>, Error>(e),
    ensures
        tracks_midi(convertible(ts)) == Err::<Seq<u8>, Error>(e),
    decreases ts.len() - k,
{
    if k < ts.len() {
        let c = convertible(ts.take(k + 1));
        assert(ts.take(k + 1).drop_last() =~= ts.take(k));
        assert(ts.take(k + 1).last() == ts[k]);
        if ts[k].format_type == 0 {
            assert(c.drop_last() =~= convertible(ts.take(k)));
        } else {
            assert(c =~= convertible(ts.take(k)));
        }
        lemma_tracks_midi_err(ts, k + 1, e);
    } else {
        assert(ts.take(k) =~= ts);
    }
}

} // verus!

verus! {

/// A chunk: its id, its length as a big-endian `u32`, its body.
pub open spec fn chunk_bytes(id: Seq<u8>, data: Seq<u8>) -> Seq<u8> {
    id + be32_bytes((data.len() as u32) as int) + data
}

/// The bytes of setup messages as a setup chunk stores them.
pub open spec fn setup_bytes(messages: Seq<SetupModel>) -> Seq<u8>
    decreases messages.len(),
{
    if messages.len() == 0 {
        seq![]
    } else {
        setup_bytes(messages.drop_last()) + match messages.last() {
            SetupModel::SystemExclusive(data) => seq![0xffu8, 0xf0u8, data.len() as u8] + data,
            SetupModel::Unknown(bytes) => bytes,
        }
    }
}

/// The bytes of events as a sequence chunk stores them.
pub open spec fn events_bytes(events: Seq<EventModel>) -> Seq<u8>
    decreases events.len(),
{
    if events.len() == 0 {
        seq![]
    } else {
        events_bytes(events.drop_last()) + event_bytes(events.last())
    }
}

/// How many of `chunks` carry `id`.
pub open spec fn id_count(chunks: Seq<ChunkModel>, id: Seq<u8>) -> nat
    decreases chunks.len(),
{
    if chunks.len() == 0 {
        0
    } else {
        id_count(chunks.drop_last(), id) + if chunks.last().0 == id { 1nat } else { 0nat }
    }
}

/// A subchunk as written: the setup and sequence chunks are rebuilt from
/// the decoded messages and events when the track holds exactly one of
/// them; every other chunk keeps its bytes.
pub open spec fn subchunk_bytes(t: TrackModel, c: ChunkModel) -> Seq<u8> {
    let setup_id = seq![0x4du8, 0x74u8, 0x73u8, 0x75u8];
    let sequence_id = seq![0x4du8, 0x74u8, 0x73u8, 0x71u8];
    if t.format_type == 0 && id_count(t.subchunks, setup_id) == 1 && c.0 == setup_id {
        chunk_bytes(c.0, setup_bytes(t.setup_messages))
    } else if t.format_type == 0 && id_count(t.subchunks, sequence_id) == 1 && c.0 == sequence_id {
        chunk_bytes(c.0, events_bytes(t.events))
    } else {
        chunk_bytes(c.0, c.2)
    }
}

pub open spec fn subchunks_bytes(t: TrackModel, chunks: Seq<ChunkModel>) -> Seq<u8>
    decreases chunks.len(),
{
    if chunks.len() == 0 {
        seq![]
    } else {
        subchunks_bytes(t, chunks.drop_last()) + subchunk_bytes(t, chunks.last())
    }
}

/// The body of a score track chunk.
pub open spec fn track_bytes(t: TrackModel) -> Seq<u8> {
    seq![t.format_type, t.sequence_type, t.duration_time_base_code, t.gate_time_base_code] + t.channel_status
        + subchunks_bytes(t, t.subchunks)
}

fn push_chunk(out: &mut Vec<u8>, id: &[u8], data: &[u8])
    requires
        id@.len() == 4,
    ensures
        final(out)@ == old(out)@ + chunk_bytes(id@, data@),
{
    push_bytes(out, id);
    push_be32(out, data.len() as u32);
    push_bytes(out, data);
    assert(final(out)@ =~= old(out)@ + chunk_bytes(id@, data@)) by {
        assert(out@ =~= old(out)@ + chunk_bytes(id@, data@));
    }
}

fn setup_body(messages: &Vec<SetupMessage>) -> (r: Vec<u8>)
    ensures
        r@ == setup_bytes(setups_view(messages@)),
{
    let ghost ms = setups_view(messages@);
    let mut out: Vec<u8> = Vec::new();
    let mut i: usize = 0;
    assert(ms.take(0) =~= Seq::<SetupModel>::empty());
    while i < messages.len()
        invariant
            i <= ms.len(),
            ms == setups_view(messages@),
            out@ == setup_bytes(ms.take(i as int)),
        decreases ms.len() - i,
    {
        assert(ms.take(i + 1).drop_last() =~= ms.take(i as int));
        assert(ms.take(i + 1).last() == setup_view(messages@[i as int]));
        let ghost before = out@;
        match &messages[i] {
            SetupMessage::SystemExclusive(data) => {
                out.push(0xff);
                out.push(0xf0);
                out.push(data.len() as u8);
                push_bytes(&mut out, data.as_slice());
                assert(out@ =~= before + (seq![0xffu8, 0xf0u8, data@.len() as u8] + data@));
            },
            SetupMessage::Unknown(bytes) => {
                push_bytes(&mut out, bytes.as_slice());
            },
        }
        i += 1;
    }
    assert(ms.take(i as int) =~= ms);
    out
}

fn events_body(events: &Vec<Event>) -> (r: Vec<u8>)
    ensures
        r@ == events_bytes(events_view(events@)),
{
    let ghost es = events_view(events@);
    let mut out: Vec<u8> = Vec::new();
    let mut i: usize = 0;
    assert(es.take(0) =~= Seq::<EventModel>::empty());
    while i < events.len()
        invariant
            i <= es.len(),
            es == events_view(events@),
            out@ == events_bytes(es.take(i as int)),
        decreases es.len() - i,
    {
        assert(es.take(i + 1).drop_last() =~= es.take(i as int));
        assert(es.take(i + 1).last() == event_view(events@[i as int]));
        write_event(&mut out, &events[i]);
        i += 1;
    }
    assert(es.take(i as int) =~= es);
    out
}

fn count_id(chunks: &Vec<RawChunk>, a: u8, b: u8, c: u8, d: u8) -> (r: usize)
    ensures
        r == id_count(chunks_view(chunks@), seq![a, b, c, d]),
{
    let ghost cs = chunks_view(chunks@);
    let mut n: usize = 0;
    let mut i: usize = 0;
    assert(cs.take(0) =~= Seq::<ChunkModel>::empty());
    while i < chunks.len()
        invariant
            i <= cs.len(),
            cs == chunks_view(chunks@),
            n == id_count(cs.take(i as int), seq![a, b, c, d]),
            n <= i,
        decreases cs.len() - i,
    {
        assert(cs.take(i + 1).drop_last() =~= cs.take(i as int));
        assert(cs.take(i + 1).last() == chunk_view(chunks@[i as int]));
        if id_is(&chunks[i].id, a, b, c, d) {
            n += 1;
        }
        i += 1;
    }
    assert(cs.take(i as int) =~= cs);
    n
}

fn write_track(track: &ScoreTrack) -> (r: Vec<u8>)
    ensures
        r@ == track_bytes(track_view(*track)),
{
    let ghost tv = track_view(*track);
    let mut out: Vec<u8> = Vec::new();
    out.push(track.format_type);
    out.push(track.sequence_type);
    out.push(track.duration_time_base_code);
    out.push(track.gate_time_base_code);
    push_bytes(&mut out, track.channel_status.as_slice());
    let rebuild_setup = track.format_type == 0 && count_id(&track.subchunks, 0x4d, 0x74, 0x73, 0x75) == 1;
    let rebuild_sequence = track.format_type == 0 && count_id(&track.subchunks, 0x4d, 0x74, 0x73, 0x71) == 1;
    let ghost head = out@;
    let ghost cs = chunks_view(track.subchunks@);
    let mut i: usize = 0;
    assert(cs.take(0) =~= Seq::<ChunkModel>::empty());
    assert(head =~= head + subchunks_bytes(tv, cs.take(0)));
    while i < track.subchunks.len()
        invariant
            i <= cs.len(),
            cs == chunks_view(track.subchunks@),
            tv == track_view(*track),
            rebuild_setup == (tv.format_type == 0 && id_count(tv.subchunks, seq![0x4du8, 0x74u8, 0x73u8, 0x75u8]) == 1),
            rebuild_sequence == (tv.format_type == 0 && id_count(tv.subchunks, seq![0x4du8, 0x74u8, 0x73u8, 0x71u8]) == 1),
            out@ == head + subchunks_bytes(tv, cs.take(i as int)),
        decreases cs.len() - i,
    {
        assert(cs.take(i + 1).drop_last() =~= cs.take(i as int));
        assert(cs.take(i + 1).last() == chunk_view(track.subchunks@[i as int]));
        let chunk = &track.subchunks[i];
        let ghost before = out@;
        if rebuild_setup && id_is(&chunk.id, 0x4d, 0x74, 0x73, 0x75) {
            let body = setup_body(&track.setup_messages);
            push_chunk(&mut out, chunk.id.as_slice(), body.as_slice());
        } else if rebuild_sequence && id_is(&chunk.id, 0x4d, 0x74, 0x73, 0x71) {
            let body = events_body(&track.events);
            push_chunk(&mut out, chunk.id.as_slice(), body.as_slice());
        } else {
            push_chunk(&mut out, chunk.id.as_slice(), chunk.data.as_slice());
        }
        assert(out@ =~= before + subchunk_bytes(tv, cs[i as int]));
        i += 1;
    }
    assert(cs.take(i as int) =~= cs);
    assert(out@ =~= track_bytes(tv));
    out
}

/// A root chunk waiting to be written, with the file offset it was read at.
pub type PlacedChunk = (int, Seq<u8>);

/// `x` placed into `t` after every chunk read no later than it.
pub open spec fn insert_placed(t: Seq<PlacedChunk>, x: PlacedChunk) -> Seq<PlacedChunk>
    decreases t.len(),
{
    if t.len() == 0 || t.last().0 <= x.0 {
        t.push(x)
    } else {
        insert_placed(t.drop_last(), x).push(t.last())
    }
}

/// The chunks by recorded offset, chunks at equal offsets in list order.
pub open spec fn sort_placed(s: Seq<PlacedChunk>) -> Seq<PlacedChunk>
    decreases s.len(),
{
    if s.len() == 0 {
        seq![]
    } else {
        insert_placed(sort_placed(s.drop_last()), s.last())
    }
}

pub open spec fn placed_bytes(s: Seq<PlacedChunk>) -> Seq<u8>
    decreases s.len(),
{
    if s.len() == 0 {
        seq![]
    } else {
        placed_bytes(s.drop_last()) + s.last().1
    }
}

pub open spec fn contents_body(c: ContentsModel) -> Seq<u8> {
    seq![c.contents_class, c.contents_type, c.code_type, c.copy_status, c.copy_count] + c.option_data
}

pub open spec fn track_chunks(ts: Seq<TrackModel>) -> Seq<PlacedChunk>
    decreases ts.len(),
{
    if ts.len() == 0 {
        seq![]
    } else {
        track_chunks(ts.drop_last()).push(
            (ts.last().offset, chunk_bytes(seq![0x4du8, 0x54u8, 0x52u8, ts.last().number], track_bytes(ts.last()))),
        )
    }
}

pub open spec fn unknown_chunks(us: Seq<ChunkModel>) -> Seq<PlacedChunk>
    decreases us.len(),
{
    if us.len() == 0 {
        seq![]
    } else {
        unknown_chunks(us.drop_last()).push((us.last().1, chunk_bytes(us.last().0, us.last().2)))
    }
}

/// The root chunks in the order they are gathered: contents, tracks, the rest.
pub open spec fn gathered_chunks(f: FileModel) -> Seq<PlacedChunk> {
    (match f.contents {
        Some(c) => seq![(c.offset, chunk_bytes(seq![0x43u8, 0x4eu8, 0x54u8, 0x49u8], contents_body(c)))],
        None => seq![],
    }) + track_chunks(f.tracks) + unknown_chunks(f.unknown_chunks)
}

/// The file as written: `MMMD`, the declared size, the root chunks in their
/// recorded order, the checksum of all that, then the trailer.
pub open spec fn write_spec(f: FileModel) -> Seq<u8> {
    let head = seq![0x4du8, 0x4du8, 0x4du8, 0x44u8] + be32_bytes(f.declared_size as int) + placed_bytes(sort_placed(gathered_chunks(f)));
    let crc = !crc_register(head);
    head + seq![(crc / 256) as u8, (crc % 256) as u8] + f.trailer
}

} // verus!

verus! {

struct Placed {
    offset: usize,
    bytes: Vec<u8>,
}

spec fn placed_view(p: Placed) -> PlacedChunk {
    (p.offset as int, p.bytes@)
}

spec fn placeds_view(v: Seq<Placed>) -> Seq<PlacedChunk> {
    v.map_values(|p: Placed| placed_view(p))
}

fn insert_chunk(sorted: &mut Vec<Placed>, x: Placed)
    ensures
        placeds_view(final(sorted)@) == insert_placed(placeds_view(old(sorted)@), placed_view(x)),
{
    let ghost target = insert_placed(placeds_view(sorted@), placed_view(x));
    let mut held: Vec<Placed> = Vec::new();
    loop
        invariant
            target == insert_placed(placeds_view(sorted@), placed_view(x)) + placeds_view(held@).reverse(),
        ensures
            target == insert_placed(placeds_view(sorted@), placed_view(x)) + placeds_view(held@).reverse(),
            placeds_view(sorted@).len() == 0 || placeds_view(sorted@).last().0 <= x.offset,
        decreases sorted@.len(),
    {
        let n = sorted.len();
        if n == 0 || sorted[n - 1].offset <= x.offset {
            break;
        }
        let ghost before_s = placeds_view(sorted@);
        let ghost before_h = placeds_view(held@);
        let last = sorted.pop().unwrap();
        held.push(last);
        proof {
            assert(placeds_view(sorted@) =~= before_s.drop_last());
            assert(placeds_view(held@) =~= before_h.push(before_s.last()));
            assert(placeds_view(held@).reverse() =~= seq![before_s.last()] + before_h.reverse());
            assert(insert_placed(before_s.drop_last(), placed_view(x)).push(before_s.last()) + before_h.reverse()
                =~= insert_placed(before_s.drop_last(), placed_view(x)) + (seq![before_s.last()] + before_h.reverse()));
        }
    }
    let ghost s0 = placeds_view(sorted@);
    assert(insert_placed(s0, placed_view(x)) == s0.push(placed_view(x)));
    sorted.push(x);
    assert(placeds_view(sorted@) =~= s0.push(placed_view(x)));
    while held.len() > 0
        invariant
            target == placeds_view(sorted@) + placeds_view(held@).reverse(),
        decreases held@.len(),
    {
        let ghost before_s = placeds_view(sorted@);
        let ghost before_h = placeds_view(held@);
        let e = held.pop().unwrap();
        sorted.push(e);
        proof {
            assert(placeds_view(held@) =~= before_h.drop_last());
            assert(placeds_view(sorted@) =~= before_s.push(before_h.last()));
            assert(before_h.reverse() =~= seq![before_h.last()] + before_h.drop_last().reverse());
            assert(before_s + before_h.reverse() =~= placeds_view(sorted@) + placeds_view(held@).reverse());
        }
    }
    assert(placeds_view(sorted@) + placeds_view(held@).reverse() =~= placeds_view(sorted@));
}

/// Re-encodes a file, its root chunks in the order they were read and its
/// checksum recomputed.
pub fn write(file: &SmafFile) -> (r: Vec<u8>)
    ensures
        r@ == write_spec(file_view(*file)),
{
    let ghost fv = file_view(*file);
    let mut gathered: Vec<Placed> = Vec::new();
    match &file.contents {
        Some(contents) => {
            let mut body: Vec<u8> = Vec::new();
            body.push(contents.contents_class);
            body.push(contents.contents_type);
            body.push(contents.code_type);
            body.push(contents.copy_status);
            body.push(contents.copy_count);
            push_bytes(&mut body, contents.option_data.as_slice());
            assert(body@ =~= contents_body(contents_view(*contents)));
            let mut chunk: Vec<u8> = Vec::new();
            let id: [u8; 4] = [0x43, 0x4e, 0x54, 0x49];
            assert(id@ =~= seq![0x43u8, 0x4eu8, 0x54u8, 0x49u8]);
            push_chunk(&mut chunk, id.as_slice(), body.as_slice());
            assert(chunk@ =~= chunk_bytes(seq![0x43u8, 0x4eu8, 0x54u8, 0x49u8], contents_body(contents_view(*contents))));
            gathered.push(Placed { offset: contents.offset, bytes: chunk });
        },
        None => {},
    }
    let ghost lead = placeds_view(gathered@);
    assert(lead =~= match fv.contents {
        Some(c) => seq![(c.offset, chunk_bytes(seq![0x43u8, 0x4eu8, 0x54u8, 0x49u8], contents_body(c)))],
        None => Seq::<PlacedChunk>::empty(),
    });
    let ghost ts = fv.tracks;
    let mut i: usize = 0;
    assert(ts.take(0) =~= Seq::<TrackModel>::empty());
    assert(lead =~= lead + track_chunks(ts.take(0)));
    while i < file.tracks.len()
        invariant
            i <= ts.len(),
            ts == tracks_view(file.tracks@),
            placeds_view(gathered@) == lead + track_chunks(ts.take(i as int)),
        decreases ts.len() - i,
    {
        assert(ts.take(i + 1).drop_last() =~= ts.take(i as int));
        assert(ts.take(i + 1).last() == track_view(file.tracks@[i as int]));
        let track = &file.tracks[i];
        let body = write_track(track);
        let mut chunk: Vec<u8> = Vec::new();
        let id: [u8; 4] = [0x4d, 0x54, 0x52, track.number];
        assert(id@ =~= seq![0x4du8, 0x54u8, 0x52u8, track.number]);
        push_chunk(&mut chunk, id.as_slice(), body.as_slice());
        let ghost before = placeds_view(gathered@);
        gathered.push(Placed { offset: track.offset, bytes: chunk });
        assert(placeds_view(gathered@) =~= before.push(placed_view(gathered@.last())));
        assert(placeds_view(gathered@) =~= lead + track_chunks(ts.take(i + 1)));
        i += 1;
    }
    assert(ts.take(i as int) =~= ts);
    let ghost mid = placeds_view(gathered@);
    let ghost us = fv.unknown_chunks;
    let mut k: usize = 0;
    assert(us.take(0) =~= Seq::<ChunkModel>::empty());
    assert(mid =~= mid + unknown_chunks(us.take(0)));
    while k < file.unknown_chunks.len()
        invariant
            k <= us.len(),
            us == chunks_view(file.unknown_chunks@),
            placeds_view(gathered@) == mid + unknown_chunks(us.take(k as int)),
        decreases us.len() - k,
    {
        assert(us.take(k + 1).drop_last() =~= us.take(k as int));
        assert(us.take(k + 1).last() == chunk_view(file.unknown_chunks@[k as int]));
        let unknown = &file.unknown_chunks[k];
        let mut chunk: Vec<u8> = Vec::new();
        push_chunk(&mut chunk, unknown.id.as_slice(), unknown.data.as_slice());
        let ghost before = placeds_view(gathered@);
        gathered.push(Placed { offset: unknown.offset, bytes: chunk });
        assert(placeds_view(gathered@) =~= before.push(placed_view(gathered@.last())));
        assert(placeds_view(gathered@) =~= mid + unknown_chunks(us.take(k + 1)));
        k += 1;
    }
    assert(us.take(k as int) =~= us);
    let ghost all = placeds_view(gathered@);
    assert(all =~= gathered_chunks(fv));
    let mut rest = gathered;
    let mut stack: Vec<Placed> = Vec::new();
    assert(all =~= placeds_view(rest@) + placeds_view(stack@).reverse());
    while rest.len() > 0
        invariant
            all == placeds_view(rest@) + placeds_view(stack@).reverse(),
        decreases rest@.len(),
    {
        let ghost r0 = placeds_view(rest@);
        let ghost s0 = placeds_view(stack@);
        let e = rest.pop().unwrap();
        stack.push(e);
        proof {
            assert(placeds_view(rest@) =~= r0.drop_last());
            assert(placeds_view(stack@) =~= s0.push(r0.last()));
            assert(placeds_view(stack@).reverse() =~= seq![r0.last()] + s0.reverse());
            assert(r0 =~= r0.drop_last().push(r0.last()));
            assert(all =~= placeds_view(rest@) + placeds_view(stack@).reverse());
        }
    }
    let mut sorted: Vec<Placed> = Vec::new();
    let mut n: usize = 0;
    let total: usize = stack.len();
    assert(all.len() == total);
    assert(placeds_view(stack@).reverse() =~= all);
    assert(all.take(0) =~= Seq::<PlacedChunk>::empty());
    while stack.len() > 0
        invariant
            n <= all.len() <= usize::MAX,
            n + stack@.len() == all.len(),
            placeds_view(stack@).reverse() == all.skip(n as int),
            placeds_view(sorted@) == sort_placed(all.take(n as int)),
        decreases stack@.len(),
    {
        let ghost s0 = placeds_view(stack@);
        let e = stack.pop().unwrap();
        proof {
            assert(s0.reverse()[0] == s0.last());
            assert(all.skip(n as int)[0] == all[n as int]);
            assert(placeds_view(stack@) =~= s0.drop_last());
            assert(s0.reverse() =~= seq![s0.last()] + s0.drop_last().reverse());
            assert(all.skip(n + 1) =~= all.skip(n as int).drop_first());
            assert(all.take(n + 1).drop_last() =~= all.take(n as int));
            assert(all.take(n + 1).last() == all[n as int]);
        }
        insert_chunk(&mut sorted, e);
        n = n + 1;
    }
    assert(all.take(n as int) =~= all);
    let ghost ordered = placeds_view(sorted@);
    let mut output: Vec<u8> = Vec::new();
    output.push(0x4d);
    output.push(0x4d);
    output.push(0x4d);
    output.push(0x44);
    push_be32(&mut output, file.declared_size);
    let ghost start = output@;
    assert(start =~= seq![0x4du8, 0x4du8, 0x4du8, 0x44u8] + be32_bytes(fv.declared_size as int));
    let mut j: usize = 0;
    assert(ordered.take(0) =~= Seq::<PlacedChunk>::empty());
    assert(start =~= start + placed_bytes(ordered.take(0)));
    while j < sorted.len()
        invariant
            j <= ordered.len(),
            ordered == placeds_view(sorted@),
            output@ == start + placed_bytes(ordered.take(j as int)),
        decreases ordered.len() - j,
    {
        assert(ordered.take(j + 1).drop_last() =~= ordered.take(j as int));
        assert(ordered.take(j + 1).last() == placed_view(sorted@[j as int]));
        push_bytes(&mut output, sorted[j].bytes.as_slice());
        assert(output@ =~= start + placed_bytes(ordered.take(j + 1)));
        j += 1;
    }
    assert(ordered.take(j as int) =~= ordered);
    let ghost head = output@;
    assert(ordered == sort_placed(gathered_chunks(fv)));
    assert(head =~= seq![0x4du8, 0x4du8, 0x4du8, 0x44u8] + be32_bytes(fv.declared_size as int) + placed_bytes(sort_placed(gathered_chunks(fv))));
    let checksum = crc16(output.as_slice());
    output.push((checksum / 256) as u8);
    output.push((checksum % 256) as u8);
    push_bytes(&mut output, file.trailer.as_slice());
    assert(output@ =~= head + seq![(checksum / 256) as u8, (checksum % 256) as u8] + file.trailer@);
    output
}

} // verus!

verus! {

proof fn lemma_status_byte(b: u8)
    by (bit_vector)
    ensures
        ((b / 64) << 6u8) | (((b / 16) % 4) << 4u8) | (b % 16) == b,
        (b / 16) % 4 == 3 ==> ((b / 64) << 6u8) | 0x30u8 | (b % 16) == b,
        (b / 16) % 4 == 3 && b % 16 == 0 ==> ((b / 64) << 6u8) | 0x30u8 == b,
        (b / 16) % 4 == 3 && b % 16 == 1 ==> ((b / 64) << 6u8) | 0x31u8 == b,
        (b / 16) % 4 == 3 && b % 16 == 2 ==> ((b / 64) << 6u8) | 0x32u8 == b,
        (b / 16) % 4 == 3 && b % 16 == 4 ==> ((b / 64) << 6u8) | 0x34u8 == b,
        (b / 16) % 4 == 1 ==> ((b / 64) << 6u8) | 0x10u8 | (b % 16) == b,
        (b / 16) % 4 == 2 ==> ((b / 64) << 6u8) | (2u8 << 4u8) | (b % 16) == b,
        (b / 16) % 4 == 0 ==> ((b / 64) << 6u8) | (0u8 << 4u8) | (b % 16) == b,
{
}

proof fn lemma_two_byte_duration(f: u8, s: u8, v: u32)
    requires
        f >= 128,
        s < 128,
        v == ((((f - 127) * 128) as u32) | (s as u32)),
    ensures
        v >= 128,
        (128 + (v / 128 - 1) % 128) as u8 == f,
        (v % 128) as u8 == s,
{
    let x: u32 = (f - 127) as u32;
    assert(((f - 127) * 128) as u32 == ((x * 128) as u32));
    let w: u32 = s as u32;
    assert(v == x * 128 + w) by (bit_vector)
        requires
            1 <= x <= 128,
            w < 128,
            v == ((x * 128) as u32) | w,
    ;
}

/// A duration byte pair is canonical when a two-byte duration's second
/// byte keeps its top bit clear.
pub open spec fn handy_canonical(d: Seq<u8>, p: int) -> bool {
    (0 <= p && p + 1 < d.len() && d[p] >= 128) ==> d[p + 1] < 128
}

proof fn lemma_handy_round_trip(d: Seq<u8>, base: int, p: int)
    requires
        0 <= p,
        handy_canonical(d, p),
    ensures
        handy_at(d, base, p) matches Ok((v, q)) ==> p < q <= d.len() && handy_bytes(v) == d.subrange(p, q),
{
    if let Ok((v, q)) = handy_at(d, base, p) {
        if d[p] < 128 {
            assert(d.subrange(p, q) =~= seq![d[p]]);
        } else {
            lemma_two_byte_duration(d[p], d[p + 1], v);
            assert(d.subrange(p, q) =~= seq![d[p], d[p + 1]]);
        }
    }
}

#[verifier::rlimit(40)]
proof fn lemma_kind_round_trip(d: Seq<u8>, base: int, p: int)
    requires
        0 <= p,
        (p < d.len() && d[p] != 0 && d[p] != 0xff) ==> handy_canonical(d, p + 1),
    ensures
        kind_at(d, base, p) matches Ok((k, q)) ==> p < q <= d.len() && kind_bytes(k) == d.subrange(p, q),
{
    if let Ok((k, q)) = kind_at(d, base, p) {
        let first = d[p];
        if first == 0xff {
            let second = d[p + 1];
            if second == 0 {
                assert(d.subrange(p, q) =~= seq![0xffu8, 0u8]);
            } else {
                let n = d[p + 2] as int;
                assert(d.subrange(p + 3, p + 3 + n).len() as u8 == d[p + 2]);
                assert(d.subrange(p, q) =~= seq![0xffu8, second, d[p + 2]] + d.subrange(p + 3, p + 3 + n));
            }
        } else if first != 0 {
            lemma_status_byte(first);
            lemma_handy_round_trip(d, base, p + 1);
            assert(d.subrange(p, q) =~= seq![first] + d.subrange(p + 1, q));
        } else {
            let second = d[p + 1];
            if second == 0 {
                assert(d.subrange(p, q) =~= seq![0u8, 0u8, d[p + 2]]);
            } else {
                lemma_status_byte(second);
                if (second / 16) % 4 == 3 {
                    assert(d.subrange(p, q) =~= seq![0u8, second, d[p + 2]]);
                    assert(((d[p + 2] * 128) as u16 / 128) as u8 == d[p + 2]);
                } else {
                    assert(d.subrange(p, q) =~= seq![0u8, second]);
                }
            }
        }
    }
}

/// The event at `pos` of a score sequence, with the position after it.
pub open spec fn event_at(d: Seq<u8>, base: int, pos: int) -> Result<(EventModel, int), Error> {
    match handy_at(d, base, pos) {
        Err(e) => Err(e),
        Ok((delta, p1)) => match kind_at(d, base, p1) {
            Err(e) => Err(e),
            Ok((kind, p2)) => Ok(((delta, base + pos, kind), p2)),
        },
    }
}

/// Writing an event read from a score sequence gives back the bytes it was
/// read from, when its two-byte durations are canonical.
pub proof fn lemma_event_round_trip(d: Seq<u8>, base: int, pos: int)
    requires
        0 <= pos,
        handy_canonical(d, pos),
        handy_at(d, base, pos) matches Ok((_, p1)) ==> ((p1 < d.len() && d[p1] != 0 && d[p1] != 0xff) ==> handy_canonical(d, p1 + 1)),
    ensures
        event_at(d, base, pos) matches Ok((e, q)) ==> event_bytes(e) == d.subrange(pos, q),
{
    lemma_handy_round_trip(d, base, pos);
    if let Ok((delta, p1)) = handy_at(d, base, pos) {
        lemma_kind_round_trip(d, base, p1);
        if let Ok((kind, p2)) = kind_at(d, base, p1) {
            assert(event_bytes((delta, base + pos, kind)) == handy_bytes(delta) + kind_bytes(kind));
            assert(d.subrange(pos, p2) =~= d.subrange(pos, p1) + d.subrange(p1, p2));
        }
    }
}

} // verus!

verus! {

/// The durations of the event at `pos` are canonical: its delta's, and its
/// gate's when it is a note.
pub open spec fn event_canonical(d: Seq<u8>, base: int, pos: int) -> bool {
    &&& handy_canonical(d, pos)
    &&& handy_at(d, base, pos) matches Ok((_, p1)) ==> ((p1 < d.len() && d[p1] != 0 && d[p1] != 0xff) ==> handy_canonical(d, p1 + 1))
}

/// Every event of the sequence from `pos` on has canonical durations.
pub open spec fn sequence_canonical(d: Seq<u8>, base: int, pos: int) -> bool
    decreases d.len() - pos,
{
    if pos < 0 || pos >= d.len() {
        true
    } else {
        event_canonical(d, base, pos) && match event_at(d, base, pos) {
            Ok((_, q)) => if pos < q { sequence_canonical(d, base, q) } else { true },
            Err(_) => true,
        }
    }
}

proof fn lemma_events_from_round_trip(d: Seq<u8>, base: int, pos: int)
    requires
        0 <= pos <= d.len(),
        sequence_canonical(d, base, pos),
    ensures
        events_from(d, base, pos) matches Ok(evs) ==> events_bytes_from(evs) == d.subrange(pos, d.len() as int),
    decreases d.len() - pos,
{
    if pos < d.len() {
        lemma_event_round_trip(d, base, pos);
        if let Ok(((delta, off, kind), q)) = event_at(d, base, pos) {
            lemma_handy_round_trip(d, base, pos);
            if pos < q {
                lemma_events_from_round_trip(d, base, q);
                if let Ok(rest) = events_from(d, base, q) {
                    let evs = seq![(delta, off, kind)] + rest;
                    assert(evs.drop_first() =~= rest);
                    assert(evs[0] == (delta, off, kind));
                    assert(d.subrange(pos, d.len() as int) =~= d.subrange(pos, q) + d.subrange(q, d.len() as int));
                }
            }
        }
    } else {
        assert(d.subrange(pos, d.len() as int) =~= Seq::<u8>::empty());
    }
}

/// The bytes of events in order (the same as `events_bytes`, read from the front).
pub open spec fn events_bytes_from(events: Seq<EventModel>) -> Seq<u8>
    decreases events.len(),
{
    if events.len() == 0 {
        seq![]
    } else {
        event_bytes(events[0]) + events_bytes_from(events.drop_first())
    }
}

proof fn lemma_events_bytes_fronts(events: Seq<EventModel>)
    ensures
        events_bytes(events) == events_bytes_from(events),
    decreases events.len(),
{
    if events.len() > 0 {
        lemma_events_bytes_fronts(events.drop_last());
        if events.len() > 1 {
            lemma_events_bytes_fronts(events.drop_first());
            lemma_events_bytes_fronts(events.drop_first().drop_last());
            assert(events.drop_last().drop_first() =~= events.drop_first().drop_last());
            assert(events.drop_last()[0] == events[0]);
            assert(events.drop_first().last() == events.last());
            assert(events_bytes_from(events.drop_last()) == event_bytes(events[0]) + events_bytes_from(events.drop_last().drop_first()));
            assert(events_bytes(events.drop_first()) == events_bytes(events.drop_first().drop_last()) + event_bytes(events.last()));
            assert(events_bytes(events) =~= event_bytes(events[0]) + events_bytes(events.drop_first()));
        } else {
            assert(events.drop_last() =~= Seq::<EventModel>::empty());
            assert(events.drop_first() =~= Seq::<EventModel>::empty());
            assert(events_bytes(events) =~= event_bytes(events[0]) + events_bytes_from(events.drop_first()));
        }
    }
}

/// Writing the events read from a score sequence, one after the other, gives
/// back the sequence's bytes, when every duration in it is canonical.
pub proof fn lemma_sequence_round_trip(d: Seq<u8>, base: int)
    requires
        sequence_canonical(d, base, 0),
    ensures
        sequence_spec(d, base) matches Ok(evs) ==> events_bytes(evs) == d,
{
    reveal(sequence_spec);
    lemma_events_from_round_trip(d, base, 0);
    if let Ok(evs) = sequence_spec(d, base) {
        lemma_events_bytes_fronts(evs);
        assert(d.subrange(0, d.len() as int) =~= d);
    }
}

} // verus!

verus! {

pub open spec fn setup_message_bytes(m: SetupModel) -> Seq<u8> {
    match m {
        SetupModel::SystemExclusive(data) => seq![0xffu8, 0xf0u8, data.len() as u8] + data,
        SetupModel::Unknown(bytes) => bytes,
    }
}

proof fn lemma_setup_bytes_front(ms: Seq<SetupModel>)
    requires
        ms.len() > 0,
    ensures
        setup_bytes(ms) == setup_message_bytes(ms[0]) + setup_bytes(ms.drop_first()),
    decreases ms.len(),
{
    if ms.len() == 1 {
        assert(ms.drop_last() =~= Seq::<SetupModel>::empty());
        assert(ms.drop_first() =~= Seq::<SetupModel>::empty());
        assert(setup_bytes(ms) =~= setup_message_bytes(ms[0]) + setup_bytes(ms.drop_first()));
    } else {
        lemma_setup_bytes_front(ms.drop_last());
        assert(ms.drop_last().drop_first() =~= ms.drop_first().drop_last());
        assert(ms.drop_last()[0] == ms[0]);
        assert(ms.drop_first().last() == ms.last());
        assert(setup_bytes(ms) =~= setup_message_bytes(ms[0]) + setup_bytes(ms.drop_first()));
    }
}

proof fn lemma_setups_from_round_trip(d: Seq<u8>, base: int, pos: int)
    requires
        0 <= pos <= d.len(),
    ensures
        setups_from(d, base, pos) matches Ok(ms) ==> setup_bytes(ms) == d.subrange(pos, d.len() as int),
    decreases d.len() - pos,
{
    if pos < d.len() {
        if let Ok((m, q)) = setup_at(d, base, pos) {
            assert(pos < q <= d.len());
            assert(setup_message_bytes(m) =~= d.subrange(pos, q));
            lemma_setups_from_round_trip(d, base, q);
            if let Ok(rest) = setups_from(d, base, q) {
                let ms = seq![m] + rest;
                lemma_setup_bytes_front(ms);
                assert(ms.drop_first() =~= rest);
                assert(d.subrange(pos, d.len() as int) =~= d.subrange(pos, q) + d.subrange(q, d.len() as int));
            }
        }
    } else {
        assert(d.subrange(pos, d.len() as int) =~= Seq::<u8>::empty());
    }
}

/// Writing the messages read from a setup chunk gives back its bytes.
pub proof fn lemma_setup_round_trip(d: Seq<u8>, base: int)
    ensures
        setups_from(d, base, 0) matches Ok(ms) ==> setup_bytes(ms) == d,
{
    lemma_setups_from_round_trip(d, base, 0);
    assert(d.subrange(0, d.len() as int) =~= d);
}

} // verus!

verus! {

proof fn lemma_be32_bytes(a: u8, b: u8, c: u8, e: u8)
    ensures
        be32_bytes((a as int * 0x1000000 + b as int * 0x10000 + c as int * 0x100 + e as int) as u32 as int)
            == seq![a, b, c, e],
{
    let n = a as int * 0x1000000 + b as int * 0x10000 + c as int * 0x100 + e as int;
    assert(0 <= n < 0x1_0000_0000);
    assert(n / 0x1000000 == a as int) by (nonlinear_arith)
        requires
            n == a as int * 0x1000000 + b as int * 0x10000 + c as int * 0x100 + e as int,
            a < 256, b < 256, c < 256, e < 256,
    ;
    assert((n / 0x10000) % 256 == b as int) by (nonlinear_arith)
        requires
            n == a as int * 0x1000000 + b as int * 0x10000 + c as int * 0x100 + e as int,
            a < 256, b < 256, c < 256, e < 256,
    ;
    assert((n / 0x100) % 256 == c as int) by (nonlinear_arith)
        requires
            n == a as int * 0x1000000 + b as int * 0x10000 + c as int * 0x100 + e as int,
            a < 256, b < 256, c < 256, e < 256,
    ;
    assert(n % 256 == e as int) by (nonlinear_arith)
        requires
            n == a as int * 0x1000000 + b as int * 0x10000 + c as int * 0x100 + e as int,
            a < 256, b < 256, c < 256, e < 256,
    ;
    assert(be32_bytes(n as u32 as int) =~= seq![a, b, c, e]);
}

/// Writing a chunk as read gives back its bytes: id, length and body.
pub proof fn lemma_chunk_round_trip(d: Seq<u8>, base: int, pos: int)
    requires
        0 <= pos,
    ensures
        chunk_at(d, base, pos) matches Ok((c, q)) ==> chunk_bytes(c.0, c.2) == d.subrange(pos, q),
{
    if let Ok((c, q)) = chunk_at(d, base, pos) {
        lemma_be32_bytes(d[pos + 4], d[pos + 5], d[pos + 6], d[pos + 7]);
        assert(c.2.len() == be32(d, pos + 4) as int);
        assert(d.subrange(pos + 4, pos + 8) =~= seq![d[pos + 4], d[pos + 5], d[pos + 6], d[pos + 7]]);
        assert(d.subrange(pos, q) =~= c.0 + d.subrange(pos + 4, pos + 8) + c.2);
    }
}

/// Writing contents info as read gives back the chunk body.
pub proof fn lemma_contents_round_trip(c: ChunkModel)
    ensures
        contents_spec(c) matches Ok(info) ==> contents_body(info) == c.2,
{
    reveal(contents_spec);
    if let Ok(info) = contents_spec(c) {
        assert(contents_body(info) =~= c.2);
    }
}

} // verus!

verus! {

pub open spec fn setup_part(c: ChunkModel, format_type: u8) -> Seq<SetupModel> {
    match subchunk_content(c, format_type) {
        Ok((s, _)) => s,
        Err(_) => seq![],
    }
}

pub open spec fn event_part(c: ChunkModel, format_type: u8) -> Seq<EventModel> {
    match subchunk_content(c, format_type) {
        Ok((_, e)) => e,
        Err(_) => seq![],
    }
}

pub open spec fn setups_of(cs: Seq<ChunkModel>, format_type: u8) -> Seq<SetupModel>
    decreases cs.len(),
{
    if cs.len() == 0 { seq![] } else { setup_part(cs[0], format_type) + setups_of(cs.drop_first(), format_type) }
}

pub open spec fn events_of(cs: Seq<ChunkModel>, format_type: u8) -> Seq<EventModel>
    decreases cs.len(),
{
    if cs.len() == 0 { seq![] } else { event_part(cs[0], format_type) + events_of(cs.drop_first(), format_type) }
}

/// The bytes of subchunks in order, each as written for track `t`.
pub open spec fn subchunks_front(t: TrackModel, cs: Seq<ChunkModel>) -> Seq<u8>
    decreases cs.len(),
{
    if cs.len() == 0 { seq![] } else { subchunk_bytes(t, cs[0]) + subchunks_front(t, cs.drop_first()) }
}

pub open spec fn raw_chunks(cs: Seq<ChunkModel>) -> Seq<u8>
    decreases cs.len(),
{
    if cs.len() == 0 { seq![] } else { chunk_bytes(cs[0].0, cs[0].2) + raw_chunks(cs.drop_first()) }
}

proof fn lemma_track_parts_shape(d: Seq<u8>, base: int, pos: int, format_type: u8)
    requires
        0 <= pos <= d.len(),
    ensures
        track_parts(d, base, pos, format_type) matches Ok((cs, ss, es)) ==> {
            &&& ss == setups_of(cs, format_type)
            &&& es == events_of(cs, format_type)
            &&& forall|i: int| 0 <= i < cs.len() ==> (#[trigger] subchunk_content(cs[i], format_type)) is Ok
            &&& raw_chunks(cs) == d.subrange(pos, d.len() as int)
        },
    decreases d.len() - pos,
{
    if pos >= d.len() {
        assert(d.subrange(pos, d.len() as int) =~= Seq::<u8>::empty());
    }
    if pos < d.len() {
        if let Ok((c, q)) = chunk_at(d, base, pos) {
            if let Ok((s, ev)) = subchunk_content(c, format_type) {
                lemma_track_parts_shape(d, base, q, format_type);
                if let Ok((cs, ss, es)) = track_parts(d, base, q, format_type) {
                    let all = seq![c] + cs;
                    assert(all.drop_first() =~= cs);
                    assert(all[0] == c);
                    assert forall|i: int| 0 <= i < all.len() implies (#[trigger] subchunk_content(all[i], format_type)) is Ok by {
                        if i > 0 {
                            assert(all[i] == cs[i - 1]);
                        }
                    }
                    lemma_chunk_round_trip(d, base, pos);
                    assert(d.subrange(pos, d.len() as int) =~= d.subrange(pos, q) + d.subrange(q, d.len() as int));
                }
            }
        }
    }
}

} // verus!

verus! {

proof fn lemma_id_count_front(cs: Seq<ChunkModel>, id: Seq<u8>)
    requires
        cs.len() > 0,
    ensures
        id_count(cs, id) == (if cs[0].0 == id { 1nat } else { 0nat }) + id_count(cs.drop_first(), id),
    decreases cs.len(),
{
    if cs.len() == 1 {
        assert(cs.drop_last() =~= Seq::<ChunkModel>::empty());
        assert(cs.drop_first() =~= Seq::<ChunkModel>::empty());
    } else {
        lemma_id_count_front(cs.drop_last(), id);
        assert(cs.drop_last().drop_first() =~= cs.drop_first().drop_last());
        assert(cs.drop_last()[0] == cs[0]);
        assert(cs.drop_first().last() == cs.last());
    }
}

proof fn lemma_no_setup_chunk(cs: Seq<ChunkModel>, format_type: u8)
    requires
        id_count(cs, seq![0x4du8, 0x74u8, 0x73u8, 0x75u8]) == 0,
    ensures
        setups_of(cs, format_type) == Seq::<SetupModel>::empty(),
    decreases cs.len(),
{
    if cs.len() > 0 {
        lemma_id_count_front(cs, seq![0x4du8, 0x74u8, 0x73u8, 0x75u8]);
        lemma_no_setup_chunk(cs.drop_first(), format_type);
        assert(setup_part(cs[0], format_type) =~= Seq::<SetupModel>::empty());
        assert(setups_of(cs, format_type) =~= Seq::<SetupModel>::empty());
    }
}

proof fn lemma_no_sequence_chunk(cs: Seq<ChunkModel>, format_type: u8)
    requires
        id_count(cs, seq![0x4du8, 0x74u8, 0x73u8, 0x71u8]) == 0,
    ensures
        events_of(cs, format_type) == Seq::<EventModel>::empty(),
    decreases cs.len(),
{
    if cs.len() > 0 {
        lemma_id_count_front(cs, seq![0x4du8, 0x74u8, 0x73u8, 0x71u8]);
        lemma_no_sequence_chunk(cs.drop_first(), format_type);
        assert(event_part(cs[0], format_type) =~= Seq::<EventModel>::empty());
        assert(events_of(cs, format_type) =~= Seq::<EventModel>::empty());
    }
}

proof fn lemma_only_setup_chunk(cs: Seq<ChunkModel>, format_type: u8, i: int)
    requires
        0 <= i < cs.len(),
        cs[i].0 == seq![0x4du8, 0x74u8, 0x73u8, 0x75u8],
        id_count(cs, seq![0x4du8, 0x74u8, 0x73u8, 0x75u8]) == 1,
    ensures
        setups_of(cs, format_type) == setup_part(cs[i], format_type),
    decreases cs.len(),
{
    let id = seq![0x4du8, 0x74u8, 0x73u8, 0x75u8];
    lemma_id_count_front(cs, id);
    if i == 0 {
        lemma_no_setup_chunk(cs.drop_first(), format_type);
        assert(setups_of(cs, format_type) =~= setup_part(cs[0], format_type));
    } else {
        if cs[0].0 == id {
            assert(cs.drop_first()[i - 1] == cs[i]);
            lemma_id_count_front(cs.drop_first(), id);
            assert(id_count(cs.drop_first(), id) == 0);
            assert(false) by {
                lemma_count_positive(cs.drop_first(), id, i - 1);
            }
        } else {
            assert(cs.drop_first()[i - 1] == cs[i]);
            lemma_only_setup_chunk(cs.drop_first(), format_type, i - 1);
            assert(setup_part(cs[0], format_type) =~= Seq::<SetupModel>::empty());
            assert(setups_of(cs, format_type) =~= setup_part(cs[i], format_type));
        }
    }
}

proof fn lemma_only_sequence_chunk(cs: Seq<ChunkModel>, format_type: u8, i: int)
    requires
        0 <= i < cs.len(),
        cs[i].0 == seq![0x4du8, 0x74u8, 0x73u8, 0x71u8],
        id_count(cs, seq![0x4du8, 0x74u8, 0x73u8, 0x71u8]) == 1,
    ensures
        events_of(cs, format_type) == event_part(cs[i], format_type),
    decreases cs.len(),
{
    let id = seq![0x4du8, 0x74u8, 0x73u8, 0x71u8];
    lemma_id_count_front(cs, id);
    if i == 0 {
        lemma_no_sequence_chunk(cs.drop_first(), format_type);
        assert(events_of(cs, format_type) =~= event_part(cs[0], format_type));
    } else {
        if cs[0].0 == id {
            assert(cs.drop_first()[i - 1] == cs[i]);
            assert(false) by {
                lemma_count_positive(cs.drop_first(), id, i - 1);
            }
        } else {
            assert(cs.drop_first()[i - 1] == cs[i]);
            lemma_only_sequence_chunk(cs.drop_first(), format_type, i - 1);
            assert(event_part(cs[0], format_type) =~= Seq::<EventModel>::empty());
            assert(events_of(cs, format_type) =~= event_part(cs[i], format_type));
        }
    }
}

proof fn lemma_count_positive(cs: Seq<ChunkModel>, id: Seq<u8>, i: int)
    requires
        0 <= i < cs.len(),
        cs[i].0 == id,
    ensures
        id_count(cs, id) >= 1,
    decreases cs.len(),
{
    lemma_id_count_front(cs, id);
    if i > 0 {
        assert(cs.drop_first()[i - 1] == cs[i]);
        lemma_count_positive(cs.drop_first(), id, i - 1);
    }
}

} // verus!

verus! {

/// The sequence chunks of a track hold canonical durations.
pub open spec fn track_sequences_canonical(t: TrackModel) -> bool {
    forall|i: int|
        0 <= i < t.subchunks.len() && is_sequence_id(#[trigger] t.subchunks[i].0) ==> sequence_canonical(
            t.subchunks[i].2,
            t.subchunks[i].1 + 8,
            0,
        )
}

proof fn lemma_subchunks_front_back(t: TrackModel, cs: Seq<ChunkModel>)
    ensures
        subchunks_bytes(t, cs) == subchunks_front(t, cs),
    decreases cs.len(),
{
    if cs.len() == 1 {
        assert(cs.drop_last() =~= Seq::<ChunkModel>::empty());
        assert(cs.drop_first() =~= Seq::<ChunkModel>::empty());
        assert(cs.last() == cs[0]);
        assert(subchunks_bytes(t, cs.drop_last()) == Seq::<u8>::empty());
        assert(subchunks_front(t, cs.drop_first()) == Seq::<u8>::empty());
        assert(subchunks_bytes(t, cs) =~= subchunks_front(t, cs));
    } else if cs.len() > 1 {
        lemma_subchunks_front_back(t, cs.drop_last());
        lemma_subchunks_front_back(t, cs.drop_first());
        lemma_subchunks_front_back(t, cs.drop_first().drop_last());
        assert(cs.drop_last().drop_first() =~= cs.drop_first().drop_last());
        assert(cs.drop_last()[0] == cs[0]);
        assert(cs.drop_first().last() == cs.last());
        assert(subchunks_front(t, cs.drop_last()) == subchunk_bytes(t, cs[0]) + subchunks_front(t, cs.drop_last().drop_first()));
        assert(subchunks_bytes(t, cs.drop_first()) == subchunks_bytes(t, cs.drop_first().drop_last()) + subchunk_bytes(t, cs.last()));
        assert(subchunks_bytes(t, cs) =~= subchunk_bytes(t, cs[0]) + subchunks_bytes(t, cs.drop_first()));
    }
}

proof fn lemma_subchunks_raw(t: TrackModel, cs: Seq<ChunkModel>)
    requires
        forall|i: int| 0 <= i < cs.len() ==> subchunk_bytes(t, #[trigger] cs[i]) == chunk_bytes(cs[i].0, cs[i].2),
    ensures
        subchunks_front(t, cs) == raw_chunks(cs),
    decreases cs.len(),
{
    if cs.len() > 0 {
        assert forall|i: int| 0 <= i < cs.drop_first().len() implies subchunk_bytes(t, #[trigger] cs.drop_first()[i])
            == chunk_bytes(cs.drop_first()[i].0, cs.drop_first()[i].2) by {
            assert(cs.drop_first()[i] == cs[i + 1]);
        }
        lemma_subchunks_raw(t, cs.drop_first());
        assert(subchunk_bytes(t, cs[0]) == chunk_bytes(cs[0].0, cs[0].2));
    }
}

/// Writing a score track as read gives back its chunk body, when its
/// sequence chunks hold canonical durations.
pub proof fn lemma_track_round_trip(c: ChunkModel)
    requires
        track_spec(c) matches Ok(t) ==> track_sequences_canonical(t),
    ensures
        track_spec(c) matches Ok(t) ==> track_bytes(t) == c.2,
{
    reveal(track_spec);
    if let Ok(t) = track_spec(c) {
        let d = c.2;
        let base = c.1 + 8;
        let n = status_length_spec(d[0])->Some_0;
        let fmt = d[0];
        lemma_track_parts_shape(d, base, 4 + n, fmt);
        let cs = t.subchunks;
        let setup_id = seq![0x4du8, 0x74u8, 0x73u8, 0x75u8];
        let sequence_id = seq![0x4du8, 0x74u8, 0x73u8, 0x71u8];
        assert forall|i: int| 0 <= i < cs.len() implies subchunk_bytes(t, #[trigger] cs[i]) == chunk_bytes(cs[i].0, cs[i].2) by {
            assert(subchunk_content(cs[i], fmt) is Ok);
            if t.format_type == 0 && id_count(cs, setup_id) == 1 && cs[i].0 == setup_id {
                lemma_only_setup_chunk(cs, fmt, i);
                lemma_setup_round_trip(cs[i].2, cs[i].1 + 8);
            } else if t.format_type == 0 && id_count(cs, sequence_id) == 1 && cs[i].0 == sequence_id {
                lemma_only_sequence_chunk(cs, fmt, i);
                assert(is_sequence_id(cs[i].0));
                lemma_sequence_round_trip(cs[i].2, cs[i].1 + 8);
            }
        }
        lemma_subchunks_raw(t, cs);
        lemma_subchunks_front_back(t, cs);
        assert(d =~= seq![d[0], d[1], d[2], d[3]] + d.subrange(4, 4 + n) + d.subrange(4 + n, d.len() as int));
        assert(track_bytes(t) =~= d);
    }
}


/// Octave shifts 1 to 4 raise the pitch by that many octaves; 0x81 to 0x84
/// lower it by the same amount: the shift of `0x80 + k` is the negation of
/// the shift of `k`, which is `12 * k` semitones. Every other value leaves
/// the pitch alone.
pub proof fn lemma_octave_shift_direction(value: u8)
    ensures
        1 <= value <= 4 ==> octave_semitones_spec(value) == 12 * value,
        1 <= value <= 4 ==> octave_semitones_spec((value + 0x80) as u8) == -octave_semitones_spec(value),
        1 <= value <= 4 ==> octave_semitones_spec((value + 0x80) as u8) < 0,
        !(1 <= value <= 4) && !(0x81 <= value <= 0x84) ==> octave_semitones_spec(value) == 0,
{
}

} // verus!
