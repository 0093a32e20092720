//! Narrow PCM WAV decoding for build-owned presentation sounds: mono PCM16
//! RIFF/WAVE only, read into signed 16-bit samples and the sample rate.

use vstd::prelude::*;
use crate::text::{decimal_spec, with_count};

verus! {

/// The little-endian value of two bytes at `p`.
pub open spec fn le16_at(b: Seq<u8>, p: int) -> int {
    b[p] + 256 * b[p + 1]
}

/// The little-endian value of four bytes at `p`.
pub open spec fn le32_at(b: Seq<u8>, p: int) -> int {
    b[p] + 256 * b[p + 1] + 0x1_0000 * b[p + 2] + 0x100_0000 * b[p + 3]
}

/// Whether the four bytes at `p` spell `id`.
pub open spec fn tag_at(b: Seq<u8>, p: int, id: Seq<u8>) -> bool {
    b.subrange(p, p + 4) == id
}

pub open spec fn riff_tag() -> Seq<u8> {
    seq![0x52u8, 0x49u8, 0x46u8, 0x46u8]
}

pub open spec fn wave_tag() -> Seq<u8> {
    seq![0x57u8, 0x41u8, 0x56u8, 0x45u8]
}

pub open spec fn fmt_tag() -> Seq<u8> {
    seq![0x66u8, 0x6du8, 0x74u8, 0x20u8]
}

pub open spec fn data_tag() -> Seq<u8> {
    seq![0x64u8, 0x61u8, 0x74u8, 0x61u8]
}

/// A format chunk's encoding, channel count, sample rate and bits per sample.
pub type WavFormat = (int, int, int, int);

/// Walking the chunks from `cursor` on: the last format chunk and the
/// bounds of the last data chunk seen, or the message of the first problem
/// (after `label`).
pub open spec fn wav_chunks(b: Seq<u8>, label: Seq<char>, cursor: int, format: Option<WavFormat>, data: Option<
    (int, int),
>) -> Result<(Option<WavFormat>, Option<(int, int)>), Seq<char>>
    decreases b.len() + 1 - cursor,
{
    if cursor < 12 || cursor + 8 > b.len() {
        Ok((format, data))
    } else {
        let size = le32_at(b, cursor + 4);
        let start = cursor + 8;
        let end = start + size;
        if end > usize::MAX {
            Err(label + " WAV chunk size overflows"@)
        } else if end > b.len() {
            Err(label + " WAV chunk is truncated"@)
        } else if tag_at(b, cursor, fmt_tag()) && size < 16 {
            Err(label + " WAV fmt chunk is truncated"@)
        } else {
            let f = if tag_at(b, cursor, fmt_tag()) {
                Some((le16_at(b, start), le16_at(b, start + 2), le32_at(b, start + 4), le16_at(b, start + 14)))
            } else {
                format
            };
            let d = if tag_at(b, cursor, data_tag()) {
                Some((start, end))
            } else {
                data
            };
            wav_chunks(b, label, end + size % 2, f, d)
        }
    }
}

/// The signed little-endian sample at `p`.
pub open spec fn sample_at(b: Seq<u8>, p: int) -> i16 {
    (b[p] as u16 + b[p + 1] as u16 * 256) as i16
}

/// The samples of `b[start..end]`, two bytes each.
pub open spec fn samples_of(b: Seq<u8>, start: int, end: int) -> Seq<i16> {
    Seq::new(((end - start) / 2) as nat, |k: int| sample_at(b, start + 2 * k))
}

/// What decoding gives: the samples and the sample rate, or the message of
/// the first problem.
pub open spec fn wav_spec(b: Seq<u8>, label: Seq<char>) -> Result<(Seq<i16>, int), Seq<char>> {
    if b.len() < 12 || !tag_at(b, 0, riff_tag()) || !tag_at(b, 8, wave_tag()) {
        Err(label + " is not a RIFF/WAVE file"@)
    } else {
        match wav_chunks(b, label, 12, None, None) {
            Err(m) => Err(m),
            Ok((format, data)) => match format {
                None => Err(label + " WAV has no fmt chunk"@),
                Some((encoding, channels, rate, bits)) => if encoding != 1 || channels != 1 || bits != 16 || rate
                    == 0 {
                    Err(
                        label + " WAV must be mono PCM16, got encoding "@ + decimal_spec(encoding) + ", channels "@
                            + decimal_spec(channels) + ", "@ + decimal_spec(bits) + " bits"@,
                    )
                } else {
                    match data {
                        None => Err(label + " WAV has no data chunk"@),
                        Some((start, end)) => if (end - start) % 2 != 0 {
                            Err(label + " WAV data has a partial PCM16 sample"@)
                        } else {
                            Ok((samples_of(b, start, end), rate))
                        },
                    }
                }
            },
        }
    }
}

fn tag_is(b: &[u8], p: usize, t0: u8, t1: u8, t2: u8, t3: u8) -> (r: bool)
    requires
        p + 4 <= b@.len(),
    ensures
        r == (b@.subrange(p as int, p + 4) == seq![t0, t1, t2, t3]),
{
    let r = b[p] == t0 && b[p + 1] == t1 && b[p + 2] == t2 && b[p + 3] == t3;
    proof {
        let s = b@.subrange(p as int, p + 4);
        if r {
            assert(s =~= seq![t0, t1, t2, t3]);
        } else if s == seq![t0, t1, t2, t3] {
            assert(s[0] == b@[p as int] && s[1] == b@[p + 1] && s[2] == b@[p + 2] && s[3] == b@[p + 3]);
        }
    }
    r
}

fn le16(b: &[u8], p: usize) -> (r: u16)
    requires
        p + 2 <= b@.len(),
    ensures
        r == le16_at(b@, p as int),
{
    b[p] as u16 + b[p + 1] as u16 * 256
}

fn le32(b: &[u8], p: usize) -> (r: u32)
    requires
        p + 4 <= b@.len(),
    ensures
        r == le32_at(b@, p as int),
{
    b[p] as u32 + b[p + 1] as u32 * 256 + b[p + 2] as u32 * 0x1_0000 + b[p + 3] as u32 * 0x100_0000
}

fn message(label: &str, tail: &str) -> (r: String)
    ensures
        r@ == label@ + tail@,
{
    let mut m = String::from_str(label);
    m.append(tail);
    m
}

/// Decode a mono PCM16 RIFF/WAVE asset into its signed samples and sample
/// rate. Any other encoding is refused, naming what the file holds.
pub fn decode_pcm16(bytes: &[u8], label: &str) -> (r: Result<(Vec<i16>, u32), String>)
    requires
        bytes@.len() < usize::MAX,
    ensures
        match wav_spec(bytes@, label@) {
            Ok((samples, rate)) => r matches Ok((v, x)) && v@ == samples && x == rate,
            Err(m) => r matches Err(e) && e@ == m,
        },
{
    let len = bytes.len();
    if len < 12 || !tag_is(bytes, 0, 0x52, 0x49, 0x46, 0x46) || !tag_is(bytes, 8, 0x57, 0x41, 0x56, 0x45) {
        return Err(message(label, " is not a RIFF/WAVE file"));
    }
    proof {
        assert(seq![0x52u8, 0x49u8, 0x46u8, 0x46u8] == riff_tag());
        assert(seq![0x57u8, 0x41u8, 0x56u8, 0x45u8] == wave_tag());
    }
    let mut cursor: usize = 12;
    let mut format: Option<(u16, u16, u32, u16)> = None;
    let mut data: Option<(usize, usize)> = None;
    let ghost goal = wav_chunks(bytes@, label@, 12, None, None);
    while cursor <= len && len - cursor >= 8
        invariant
            len == bytes@.len() < usize::MAX,
            12 <= cursor,
            len >= 12,
            tag_at(bytes@, 0, riff_tag()),
            tag_at(bytes@, 8, wave_tag()),
            goal == wav_chunks(bytes@, label@, 12, None, None),
            goal == wav_chunks(
                bytes@,
                label@,
                cursor as int,
                match format {
                    Some((a, b, c, d)) => Some((a as int, b as int, c as int, d as int)),
                    None => None,
                },
                match data {
                    Some((s, e)) => Some((s as int, e as int)),
                    None => None,
                },
            ),
            data matches Some((s, e)) ==> s <= e <= len,
        decreases len + 1 - cursor,
    {
        let size = le32(bytes, cursor + 4);
        let start = cursor + 8;
        if size as usize > usize::MAX - start {
            return Err(message(label, " WAV chunk size overflows"));
        }
        let end = start + size as usize;
        if end > len {
            return Err(message(label, " WAV chunk is truncated"));
        }
        let is_fmt = tag_is(bytes, cursor, 0x66, 0x6d, 0x74, 0x20);
        let is_data = tag_is(bytes, cursor, 0x64, 0x61, 0x74, 0x61);
        if is_fmt {
            if size < 16 {
                return Err(message(label, " WAV fmt chunk is truncated"));
            }
            format = Some((le16(bytes, start), le16(bytes, start + 2), le32(bytes, start + 4), le16(bytes, start + 14)));
        }
        if is_data {
            data = Some((start, end));
        }
        proof {
            assert(seq![0x66u8, 0x6du8, 0x74u8, 0x20u8] == fmt_tag());
            assert(seq![0x64u8, 0x61u8, 0x74u8, 0x61u8] == data_tag());
        }
        cursor = end + (size % 2) as usize;
    }
    let (encoding, channels, rate, bits) = match format {
        Some(f) => f,
        None => return Err(message(label, " WAV has no fmt chunk")),
    };
    if encoding != 1 || channels != 1 || bits != 16 || rate == 0 {
        let mut m = message(label, " WAV must be mono PCM16, got encoding ");
        let a = with_count("", encoding as u64);
        m.append(a.as_str());
        let b = with_count(", channels ", channels as u64);
        m.append(b.as_str());
        let c = with_count(", ", bits as u64);
        m.append(c.as_str());
        m.append(" bits");
        proof {
            reveal_strlit("");
            assert(m@ =~= label@ + " WAV must be mono PCM16, got encoding "@ + decimal_spec(encoding as int)
                + ", channels "@ + decimal_spec(channels as int) + ", "@ + decimal_spec(bits as int) + " bits"@);
        }
        return Err(m);
    }
    let (start, end) = match data {
        Some(d) => d,
        None => return Err(message(label, " WAV has no data chunk")),
    };
    if (end - start) % 2 != 0 {
        return Err(message(label, " WAV data has a partial PCM16 sample"));
    }
    let mut samples: Vec<i16> = Vec::new();
    let mut p = start;
    while p < end
        invariant
            start <= p <= end <= bytes@.len(),
            (end - start) % 2 == 0,
            (p - start) % 2 == 0,
            samples@ == samples_of(bytes@, start as int, p as int),
        decreases end - p,
    {
        let s = (bytes[p] as u16 + bytes[p + 1] as u16 * 256) as i16;
        samples.push(s);
        p += 2;
        assert(samples@ =~= samples_of(bytes@, start as int, p as int));
    }
    Ok((samples, rate))
}

} // verus!
