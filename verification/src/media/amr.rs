//! RFC 4867 AMR-NB single-channel storage parsing.
//!
//! The storage format is the magic `#!AMR\n` followed by frames of
//! `[header octet][mode-sized payload]`, 20 ms of speech each. The header
//! octet is `P FT FT FT FT Q P P`; the three padding bits must be zero.

pub mod fixed;

use vstd::prelude::*;
use crate::text::{decimal_spec, with_count};

verus! {

/// The storage-format magic for single-channel AMR-NB.
pub open spec fn magic() -> Seq<u8> {
    seq![0x23u8, 0x21u8, 0x41u8, 0x4du8, 0x52u8, 0x0au8]
}

/// Milliseconds of speech per storage frame.
pub const FRAME_MILLIS: u32 = 20;

/// AMR-NB is narrowband: 8 kHz, one channel.
pub const SAMPLE_RATE: u32 = 8000;

/// The frame type of the 12.2 kbit/s mode.
pub const MR122: u8 = 7;

/// One storage frame.
#[derive(Debug, Clone, PartialEq, Eq)]
pub struct AmrFrame {
    /// Frame type 0..=8 or 15 (`NO_DATA`); 0..=7 are the speech modes
    /// MR475..MR122, 8 is SID comfort noise.
    pub frame_type: u8,
    /// The frame-quality bit (1 = good).
    pub quality_ok: bool,
    /// The packed class-A/B/C bits, without the header octet.
    pub payload: Vec<u8>,
}

/// A parsed AMR-NB storage container.
#[derive(Debug, Clone, PartialEq, Eq)]
pub struct AmrTrack {
    pub frames: Vec<AmrFrame>,
}

/// A frame as a plain value: type, quality bit, payload.
pub type FrameModel = (u8, bool, Seq<u8>);

pub open spec fn frame_model(f: AmrFrame) -> FrameModel {
    (f.frame_type, f.quality_ok, f.payload@)
}

impl AmrTrack {
    /// The frames as plain values.
    pub open spec fn model(&self) -> Seq<FrameModel> {
        self.frames@.map_values(|f: AmrFrame| frame_model(f))
    }

    /// Total speech duration: every frame, including SID and `NO_DATA`,
    /// covers 20 ms.
    pub fn duration_millis(&self) -> (r: u32)
        requires
            self.frames@.len() * 20 <= u32::MAX,
        ensures
            r == self.frames@.len() * 20,
    {
        self.frames.len() as u32 * FRAME_MILLIS
    }

    /// The one frame type of a non-empty track whose frames all share it.
    pub fn uniform_mode(&self) -> (r: Option<u8>)
        ensures
            match r {
                Some(t) => self.frames@.len() > 0 && forall|i: int|
                    0 <= i < self.frames@.len() ==> (#[trigger] self.frames@[i]).frame_type == t,
                None => self.frames@.len() == 0 || exists|i: int|
                    0 <= i < self.frames@.len() && (#[trigger] self.frames@[i]).frame_type
                        != self.frames@[0].frame_type,
            },
    {
        if self.frames.len() == 0 {
            return None;
        }
        let first = self.frames[0].frame_type;
        let mut i: usize = 1;
        while i < self.frames.len()
            invariant
                1 <= i <= self.frames@.len(),
                first == self.frames@[0].frame_type,
                forall|j: int| 0 <= j < i ==> (#[trigger] self.frames@[j]).frame_type == first,
            decreases self.frames@.len() - i,
        {
            if self.frames[i].frame_type != first {
                return None;
            }
            i += 1;
        }
        Some(first)
    }
}

/// Whether the decoder takes a frame: MR122, the only rate decoded, with its
/// 31 payload octets.
pub open spec fn decodable_frame(f: FrameModel) -> bool {
    f.0 == MR122 && f.2.len() == 31
}

/// The index of the first frame from `i` on that the decoder refuses.
pub open spec fn first_refused(frames: Seq<FrameModel>, i: int) -> Option<int>
    decreases frames.len() - i,
{
    if i < 0 || i >= frames.len() {
        None
    } else if !decodable_frame(frames[i]) {
        Some(i)
    } else {
        first_refused(frames, i + 1)
    }
}

impl AmrTrack {
    /// The refusal decoding meets: the first frame that is not MR122, named
    /// by its index and frame type, rather than silence in its place; `None`
    /// when every frame can be decoded.
    pub fn unsupported_frame(&self) -> (r: Option<AmrError>)
        ensures
            r == match first_refused(self.model(), 0) {
                Some(i) => Some(AmrError::UnsupportedMode { frame: i as usize, frame_type: self.model()[i].0 }),
                None => None::<AmrError>,
            },
    {
        let ghost m = self.model();
        let mut i: usize = 0;
        while i < self.frames.len()
            invariant
                i <= m.len(),
                m == self.model(),
                first_refused(m, 0) == first_refused(m, i as int),
            decreases m.len() - i,
        {
            let frame = &self.frames[i];
            assert(m[i as int] == frame_model(*frame));
            if frame.frame_type != MR122 || frame.payload.len() != 31 {
                return Some(AmrError::UnsupportedMode { frame: i, frame_type: frame.frame_type });
            }
            i += 1;
        }
        None
    }
}

#[derive(Debug, Clone, PartialEq, Eq, Structural)]
pub enum AmrError {
    /// The blob does not begin with `#!AMR\n`.
    BadMagic,
    /// The magic is present but no frames follow.
    Empty,
    /// A frame header octet has nonzero padding bits or a reserved frame
    /// type (9..=14).
    BadFrameHeader { offset: usize, octet: u8 },
    /// A frame's payload runs past the end of the blob.
    Truncated { offset: usize, frame_type: u8 },
    /// The container is well formed but carries a mode the decoder does not
    /// implement.
    UnsupportedMode { frame: usize, frame_type: u8 },
}

/// A lowercase hexadecimal digit.
pub open spec fn hex_digit(d: int) -> char {
    if d < 10 {
        ('0' as int + d) as char
    } else {
        ('a' as int + d - 10) as char
    }
}

/// An octet as `0x` and two lowercase hexadecimal digits.
pub open spec fn octet_hex(b: u8) -> Seq<char> {
    seq!['0', 'x', hex_digit((b / 16) as int), hex_digit((b % 16) as int)]
}

/// The text of an error.
pub open spec fn amr_error_text(e: AmrError) -> Seq<char> {
    match e {
        AmrError::BadMagic => "not an AMR-NB storage blob (bad magic)"@,
        AmrError::Empty => "AMR-NB blob has no frames"@,
        AmrError::BadFrameHeader { offset, octet } => "invalid AMR frame header "@ + octet_hex(octet)
            + " at offset "@ + decimal_spec(offset as int),
        AmrError::Truncated { offset, frame_type } => "AMR frame (type "@ + decimal_spec(frame_type as int)
            + ") at offset "@ + decimal_spec(offset as int) + " is truncated"@,
        AmrError::UnsupportedMode { frame, frame_type } => "AMR frame "@ + decimal_spec(frame as int)
            + " uses frame type "@ + decimal_spec(frame_type as int)
            + "; only MR122 (type 7, 12.2 kbit/s) is decoded"@,
    }
}

fn hex_char(d: u8) -> (r: char)
    requires
        d < 16,
    ensures
        r == hex_digit(d as int),
{
    if d < 10 {
        (48 + d) as char
    } else {
        (87 + d) as char
    }
}

impl AmrError {
    /// The error's text, as its display form gives it.
    pub fn message(&self) -> (r: String)
        ensures
            r@ == amr_error_text(*self),
    {
        match self {
            AmrError::BadMagic => String::from_str("not an AMR-NB storage blob (bad magic)"),
            AmrError::Empty => String::from_str("AMR-NB blob has no frames"),
            AmrError::BadFrameHeader { offset, octet } => {
                let mut m = String::from_str("invalid AMR frame header 0x");
                let hi = crate::text::char_text(hex_char(*octet / 16));
                let lo = crate::text::char_text(hex_char(*octet % 16));
                m.append(hi.as_str());
                m.append(lo.as_str());
                let tail = with_count(" at offset ", *offset as u64);
                m.append(tail.as_str());
                proof {
                    reveal_strlit("invalid AMR frame header 0x");
                    reveal_strlit("invalid AMR frame header ");
                    assert("invalid AMR frame header 0x"@ =~= "invalid AMR frame header "@ + seq!['0', 'x']);
                }
                assert(m@ =~= amr_error_text(*self));
                m
            },
            AmrError::Truncated { offset, frame_type } => {
                let mut m = with_count("AMR frame (type ", *frame_type as u64);
                let mid = with_count(") at offset ", *offset as u64);
                m.append(mid.as_str());
                m.append(" is truncated");
                assert(m@ =~= amr_error_text(*self));
                m
            },
            AmrError::UnsupportedMode { frame, frame_type } => {
                let mut m = with_count("AMR frame ", *frame as u64);
                let mid = with_count(" uses frame type ", *frame_type as u64);
                m.append(mid.as_str());
                m.append("; only MR122 (type 7, 12.2 kbit/s) is decoded");
                assert(m@ =~= amr_error_text(*self));
                m
            },
        }
    }
}

/// Payload octets per frame type (without the header octet), from the
/// RFC 4867 storage table: MR475..MR122 speech, SID, and `NO_DATA`; types
/// 9..=14 are reserved.
pub open spec fn payload_len_spec(frame_type: u8) -> Option<nat> {
    if frame_type == 0 {
        Some(12)
    } else if frame_type == 1 {
        Some(13)
    } else if frame_type == 2 {
        Some(15)
    } else if frame_type == 3 {
        Some(17)
    } else if frame_type == 4 {
        Some(19)
    } else if frame_type == 5 {
        Some(20)
    } else if frame_type == 6 {
        Some(26)
    } else if frame_type == 7 {
        Some(31)
    } else if frame_type == 8 {
        Some(5)
    } else if frame_type == 15 {
        Some(0)
    } else {
        None
    }
}

fn payload_len(frame_type: u8) -> (r: Option<usize>)
    ensures
        match payload_len_spec(frame_type) {
            Some(n) => r == Some(n as usize),
            None => r is None,
        },
{
    match frame_type {
        0 => Some(12),
        1 => Some(13),
        2 => Some(15),
        3 => Some(17),
        4 => Some(19),
        5 => Some(20),
        6 => Some(26),
        7 => Some(31),
        8 => Some(5),
        15 => Some(0),
        _ => None,
    }
}

/// The frames of a storage body from `off` on, or the first problem.
/// Offsets in errors count from the start of the blob, magic included.
pub open spec fn frames_from(body: Seq<u8>, off: int) -> Result<Seq<FrameModel>, AmrError>
    decreases body.len() - off,
{
    if off < 0 || off >= body.len() {
        Ok(Seq::empty())
    } else {
        let octet = body[off];
        let frame_type = ((octet >> 3u8) & 0x0fu8) as u8;
        if octet & 0x83u8 != 0 {
            Err(AmrError::BadFrameHeader { offset: (6 + off) as usize, octet })
        } else {
            match payload_len_spec(frame_type) {
                None => Err(AmrError::BadFrameHeader { offset: (6 + off) as usize, octet }),
                Some(len) => if off + 1 + len > body.len() {
                    Err(AmrError::Truncated { offset: (6 + off) as usize, frame_type })
                } else {
                    match frames_from(body, off + 1 + len) {
                        Ok(rest) => Ok(
                            seq![(frame_type, octet & 0x04u8 != 0, body.subrange(off + 1, off + 1 + len))] + rest,
                        ),
                        Err(e) => Err(e),
                    }
                },
            }
        }
    }
}

/// What parsing a blob gives.
pub open spec fn parse_spec(bytes: Seq<u8>) -> Result<Seq<FrameModel>, AmrError> {
    if bytes.len() < 6 || bytes.subrange(0, 6) != magic() {
        Err(AmrError::BadMagic)
    } else if bytes.len() == 6 {
        Err(AmrError::Empty)
    } else {
        frames_from(bytes.subrange(6, bytes.len() as int), 0)
    }
}

/// Parse one single-channel storage blob, rejecting malformed or truncated
/// input.
pub fn parse(bytes: &[u8]) -> (r: Result<AmrTrack, AmrError>)
    ensures
        match parse_spec(bytes@) {
            Ok(frames) => r matches Ok(t) && t.model() == frames,
            Err(e) => r == Err::<AmrTrack, AmrError>(e),
        },
{
    if bytes.len() < 6 || !(bytes[0] == 0x23 && bytes[1] == 0x21 && bytes[2] == 0x41 && bytes[3] == 0x4d && bytes[4]
        == 0x52 && bytes[5] == 0x0a) {
        proof {
            if bytes@.len() >= 6 && bytes@.subrange(0, 6) == magic() {
                assert(bytes@.subrange(0, 6)[0] == bytes@[0]);
                assert(bytes@.subrange(0, 6)[1] == bytes@[1]);
                assert(bytes@.subrange(0, 6)[2] == bytes@[2]);
                assert(bytes@.subrange(0, 6)[3] == bytes@[3]);
                assert(bytes@.subrange(0, 6)[4] == bytes@[4]);
                assert(bytes@.subrange(0, 6)[5] == bytes@[5]);
            }
        }
        return Err(AmrError::BadMagic);
    }
    assert(bytes@.subrange(0, 6) =~= magic());
    if bytes.len() == 6 {
        return Err(AmrError::Empty);
    }
    let ghost body = bytes@.subrange(6, bytes@.len() as int);
    let mut frames: Vec<AmrFrame> = Vec::new();
    let mut offset: usize = 6;
    while offset < bytes.len()
        invariant
            6 <= offset <= bytes@.len(),
            body == bytes@.subrange(6, bytes@.len() as int),
            parse_spec(bytes@) == match frames_from(body, offset - 6) {
                Ok(rest) => Ok(frames@.map_values(|f: AmrFrame| frame_model(f)) + rest),
                Err(e) => Err::<Seq<FrameModel>, AmrError>(e),
            },
        decreases bytes@.len() - offset,
    {
        let octet = bytes[offset];
        let frame_type = (octet >> 3u8) & 0x0fu8;
        let ghost off = offset - 6;
        assert(body[off] == octet);
        if octet & 0x83 != 0 {
            return Err(AmrError::BadFrameHeader { offset, octet });
        }
        let length = match payload_len(frame_type) {
            Some(n) => n,
            None => return Err(AmrError::BadFrameHeader { offset, octet }),
        };
        if length > bytes.len() - offset - 1 {
            return Err(AmrError::Truncated { offset, frame_type });
        }
        let start = offset + 1;
        let end = start + length;
        let mut payload: Vec<u8> = Vec::new();
        let mut i = start;
        while i < end
            invariant
                start <= i <= end <= bytes@.len(),
                payload@ == bytes@.subrange(start as int, i as int),
            decreases end - i,
        {
            payload.push(bytes[i]);
            i += 1;
            assert(payload@ =~= bytes@.subrange(start as int, i as int));
        }
        let frame = AmrFrame { frame_type, quality_ok: octet & 0x04 != 0, payload };
        let ghost before = frames@;
        frames.push(frame);
        proof {
            assert(payload@ =~= body.subrange(off + 1, off + 1 + length));
            let m = frames@.map_values(|f: AmrFrame| frame_model(f));
            let mb = before.map_values(|f: AmrFrame| frame_model(f));
            assert(m =~= mb.push(frame_model(frame)));
            match frames_from(body, end - 6) {
                Ok(rest) => {
                    assert(mb + (seq![frame_model(frame)] + rest) =~= m + rest);
                },
                Err(e) => {},
            }
        }
        offset = end;
    }
    proof {
        assert(frames@.map_values(|f: AmrFrame| frame_model(f)) + Seq::<FrameModel>::empty() =~= frames@.map_values(
            |f: AmrFrame| frame_model(f),
        ));
    }
    Ok(AmrTrack { frames })
}

} // verus!
