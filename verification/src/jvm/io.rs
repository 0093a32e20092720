//! `java.io.ByteArrayInputStream`, `DataInputStream` and `DataOutputStream`:
//! big-endian, signed where Java is signed, with modified-UTF-8
//! `readUTF`/`writeUTF`.
//!
//! The input stream keeps Java's exact `buf`/`pos`/`mark`/`count` fields as
//! `int`s, so even states built by the unchecked ranged constructor fail later
//! exactly where Java fails.

use vstd::prelude::*;
use super::{wrap_i32, JavaError, JavaResult};

verus! {

/// The observable fields of a `ByteArrayInputStream`.
pub struct StreamView {
    pub buf: Seq<u8>,
    pub pos: i32,
    pub mark: i32,
    pub count: i32,
}

/// `EOFException`.
pub open spec fn is_eof(e: JavaError) -> bool {
    e matches JavaError::Io(m) && m@ == eof_message()
}

/// `UTFDataFormatException`.
pub open spec fn is_utf_format_error(e: JavaError) -> bool {
    e matches JavaError::Io(m) && m@ == utf_message()
}

pub closed spec fn eof_message() -> Seq<char> {
    "EOFException"@
}

pub closed spec fn utf_message() -> Seq<char> {
    "UTFDataFormatException"@
}

fn eof() -> (e: JavaError)
    ensures is_eof(e),
{
    JavaError::Io("EOFException".to_owned())
}

fn utf_data_format() -> (e: JavaError)
    ensures is_utf_format_error(e),
{
    JavaError::Io("UTFDataFormatException".to_owned())
}

/// How a stream operation fails: Java's `EOFException`,
/// `UTFDataFormatException`, or another exception given exactly.
pub enum Failure {
    Eof,
    UtfFormat,
    Thrown(JavaError),
}

/// A runtime result agrees with a modelled one: the same value on success,
/// the same exception on failure.
pub open spec fn agrees<T>(r: JavaResult<T>, o: Result<T, Failure>) -> bool {
    match (r, o) {
        (Ok(a), Ok(b)) => a == b,
        (Err(e), Err(Failure::Eof)) => is_eof(e),
        (Err(e), Err(Failure::UtfFormat)) => is_utf_format_error(e),
        (Err(e), Err(Failure::Thrown(f))) => e == f,
        _ => false,
    }
}

/// A result carrying a vector, seen through the vector's contents.
pub open spec fn seq_result<T>(r: JavaResult<Vec<T>>) -> JavaResult<Seq<T>> {
    match r {
        Ok(v) => Ok(v@),
        Err(e) => Err(e),
    }
}

/// `InputStream.read()` on a byte-array stream: `-1` at the end, otherwise
/// `buf[pos++]`, where `pos` advances before the JVM's array bounds check.
pub open spec fn read_outcome(s: StreamView) -> (JavaResult<i32>, StreamView) {
    if s.pos >= s.count {
        (Ok(-1i32), s)
    } else {
        let next = StreamView { pos: wrap_i32(s.pos + 1) as i32, ..s };
        if s.pos < 0 || s.pos >= s.buf.len() {
            (Err(JavaError::ArrayIndexOutOfBounds { index: s.pos, length: s.buf.len() as i32 }), next)
        } else {
            (Ok(s.buf[s.pos as int] as i32), next)
        }
    }
}

/// The bytes a range read copies, as the destination's signed bytes.
pub open spec fn copy_into(dst: Seq<i8>, offset: int, src: Seq<u8>, start: int, n: int) -> Seq<i8> {
    Seq::new(dst.len(), |i: int| if offset <= i < offset + n { src[start + (i - offset)] as i8 } else { dst[i] })
}

/// `InputStream.read(byte[], off, len)`: destination bounds first, then EOF
/// (so a zero-length read at EOF yields `-1`), then the copy of
/// `min(len, count - pos)` bytes.
pub open spec fn range_read_outcome(s: StreamView, dst: Seq<i8>, offset: i32, length: i32)
    -> (JavaResult<i32>, StreamView, Seq<i8>)
{
    if offset < 0 || length < 0 || length > dst.len() - offset {
        (Err(JavaError::IndexOutOfBounds), s, dst)
    } else if s.pos >= s.count {
        (Ok(-1i32), s, dst)
    } else {
        let available = wrap_i32(s.count - s.pos);
        let copied = if length <= available { length as int } else { available };
        if copied <= 0 {
            (Ok(0i32), s, dst)
        } else if s.pos < 0 || s.pos + copied > s.buf.len() {
            (Err(JavaError::IndexOutOfBounds), s, dst)
        } else {
            (Ok(copied as i32), StreamView { pos: wrap_i32(s.pos + copied) as i32, ..s },
                copy_into(dst, offset as int, s.buf, s.pos as int, copied))
        }
    }
}

/// A bulk read of `length > 0` bytes cannot make progress from this state:
/// `count - pos` wraps to a non-positive `int` although `pos < count`. Java's
/// `readFully` spins forever on such a state.
pub open spec fn stalls(s: StreamView) -> bool {
    s.pos < s.count && wrap_i32(s.count - s.pos) <= 0
}

/// `readFully` into a destination of `n` bytes: the available prefix is
/// copied, then either success or `EOFException`.
pub open spec fn read_fully_outcome(s: StreamView, dst: Seq<i8>) -> (Result<(), Failure>, StreamView, Seq<i8>) {
    let n = dst.len();
    if n == 0 {
        (Ok(()), s, dst)
    } else if s.pos >= s.count {
        (Err(Failure::Eof), s, dst)
    } else if s.pos < 0 {
        (Err(Failure::Thrown(JavaError::IndexOutOfBounds)), s, dst)
    } else {
        let available = s.count - s.pos;
        let copied = if n <= available { n as int } else { available };
        let after = StreamView { pos: (s.pos + copied) as i32, ..s };
        let out = copy_into(dst, 0, s.buf, s.pos as int, copied);
        if copied == n { (Ok(()), after, out) } else { (Err(Failure::Eof), after, out) }
    }
}


/// An owned copy of a slice of copyable elements.
pub fn slice_to_vec<T: Copy>(s: &[T]) -> (r: Vec<T>)
    ensures r@ == s@,
{
    let mut v: Vec<T> = Vec::with_capacity(s.len());
    let mut i: usize = 0;
    while i < s.len()
        invariant i <= s@.len(), v@ == s@.subrange(0, i as int),
        decreases s@.len() - i,
    {
        v.push(s[i]);
        i = i + 1;
        assert(v@ =~= s@.subrange(0, i as int));
    }
    assert(s@.subrange(0, s@.len() as int) =~= s@);
    v
}

/// An owned `java.io.ByteArrayInputStream` with Java's `buf`, `pos`, `mark`
/// and `count` fields.
#[derive(Debug)]
pub struct ByteArrayInputStream {
    buf: Vec<u8>,
    pos: i32,
    mark: i32,
    count: i32,
}

impl View for ByteArrayInputStream {
    type V = StreamView;

    closed spec fn view(&self) -> StreamView {
        StreamView { buf: self.buf@, pos: self.pos, mark: self.mark, count: self.count }
    }
}

/// The invariant every `ByteArrayInputStream` keeps: its array fits a Java
/// array and `count` never passes the array's end.
pub open spec fn stream_wf(s: StreamView) -> bool {
    s.buf.len() <= i32::MAX && s.count <= s.buf.len()
}

impl Clone for ByteArrayInputStream {
    fn clone(&self) -> (r: Self)
        ensures r@ == self@,
    {
        proof { use_type_invariant(self); }
        ByteArrayInputStream { buf: slice_to_vec(self.buf.as_slice()), pos: self.pos, mark: self.mark, count: self.count }
    }
}

impl ByteArrayInputStream {
    #[verifier::type_invariant]
    spec fn inv(self) -> bool {
        stream_wf(self@)
    }

    /// `new ByteArrayInputStream(buf)`; takes ownership without copying.
    pub fn new(buf: Vec<u8>) -> (r: Self)
        requires buf@.len() <= i32::MAX,
        ensures r@ == (StreamView { buf: buf@, pos: 0, mark: 0, count: buf@.len() as i32 }),
    {
        let count = buf.len() as i32;
        ByteArrayInputStream { buf, pos: 0, mark: 0, count }
    }

    /// Slice-copying convenience constructor.
    pub fn from_slice(buf: &[u8]) -> (r: Self)
        requires buf@.len() <= i32::MAX,
        ensures r@ == (StreamView { buf: buf@, pos: 0, mark: 0, count: buf@.len() as i32 }),
    {
        Self::new(slice_to_vec(buf))
    }

    /// `new ByteArrayInputStream(buf, offset, length)`: no validation; `pos`
    /// and `mark` become `offset`, `count` is `min(offset + length, buf.length)`
    /// after wrapping `int` addition.
    pub fn new_range(buf: Vec<u8>, offset: i32, length: i32) -> (r: Self)
        requires buf@.len() <= i32::MAX,
        ensures
            r@ == (StreamView {
                buf: buf@,
                pos: offset,
                mark: offset,
                count: if wrap_i32(offset + length) <= buf@.len() { wrap_i32(offset + length) as i32 } else { buf@.len() as i32 },
            }),
    {
        let buf_length = buf.len() as i32;
        let end = offset.wrapping_add(length);
        let count = if end <= buf_length { end } else { buf_length };
        ByteArrayInputStream { buf, pos: offset, mark: offset, count }
    }

    pub fn buffer(&self) -> (r: &[u8])
        ensures r@ == self@.buf,
    {
        self.buf.as_slice()
    }

    pub fn position(&self) -> (r: i32)
        ensures r == self@.pos,
    {
        self.pos
    }

    pub fn mark_position(&self) -> (r: i32)
        ensures r == self@.mark,
    {
        self.mark
    }

    pub fn count(&self) -> (r: i32)
        ensures r == self@.count,
    {
        self.count
    }

    /// `InputStream.read()`: `0..=255`, or `-1` at the end.
    pub fn read(&mut self) -> (r: JavaResult<i32>)
        ensures r == read_outcome(old(self)@).0, final(self)@ == read_outcome(old(self)@).1,
    {
        proof { use_type_invariant(&*self); }
        if self.pos >= self.count {
            return Ok(-1);
        }
        let index = self.pos;
        self.pos = self.pos.wrapping_add(1);
        if index < 0 || index as usize >= self.buf.len() {
            return Err(JavaError::ArrayIndexOutOfBounds { index, length: self.buf.len() as i32 });
        }
        Ok(self.buf[index as usize] as i32)
    }

    /// `InputStream.read(byte[], int, int)`.
    pub fn read_range(&mut self, buffer: &mut [i8], offset: i32, length: i32) -> (r: JavaResult<i32>)
        requires old(buffer)@.len() <= i32::MAX,
        ensures
            r == range_read_outcome(old(self)@, old(buffer)@, offset, length).0,
            final(self)@ == range_read_outcome(old(self)@, old(buffer)@, offset, length).1,
            final(buffer)@ == range_read_outcome(old(self)@, old(buffer)@, offset, length).2,
    {
        proof { use_type_invariant(&*self); }
        let buffer_length = buffer.len() as i32;
        if offset < 0 || length < 0 || length > buffer_length - offset {
            return Err(JavaError::IndexOutOfBounds);
        }
        if self.pos >= self.count {
            return Ok(-1);
        }
        let available = self.count.wrapping_sub(self.pos);
        let copied = if length <= available { length } else { available };
        if copied <= 0 {
            return Ok(0);
        }
        if self.pos < 0 || self.pos as usize + copied as usize > self.buf.len() {
            return Err(JavaError::IndexOutOfBounds);
        }
        let start = self.pos as usize;
        let dst = offset as usize;
        let n = copied as usize;
        let ghost old_buffer = buffer@;
        let mut i: usize = 0;
        while i < n
            invariant
                i <= n, start + n <= self.buf@.len(), dst + n <= buffer@.len(),
                buffer@.len() <= i32::MAX, self.buf@.len() <= i32::MAX,
                buffer@.len() == old_buffer.len(),
                forall|k: int| 0 <= k < buffer@.len() ==> buffer@[k] == (
                    if dst <= k < dst + i { self.buf@[start + (k - dst)] as i8 } else { old_buffer[k] }),
            decreases n - i,
        {
            buffer[dst + i] = self.buf[start + i] as i8;
            i = i + 1;
        }
        assert(buffer@ =~= copy_into(old_buffer, offset as int, self.buf@, start as int, copied as int));
        self.pos = self.pos.wrapping_add(copied);
        Ok(copied)
    }

    /// `InputStream.skip(long)` with Java's `int` field arithmetic.
    pub fn skip(&mut self, count: i64) -> (r: i64)
        ensures
            r == (if count < wrap_i32(old(self)@.count - old(self)@.pos) { if count < 0 { 0 } else { count as int } }
                  else { wrap_i32(old(self)@.count - old(self)@.pos) }),
            final(self)@ == (StreamView { pos: (old(self)@.pos + r) as i32, ..old(self)@ }),
    {
        proof { use_type_invariant(&*self); }
        let mut skipped = self.count.wrapping_sub(self.pos) as i64;
        if count < skipped {
            skipped = if count < 0 { 0 } else { count };
        }
        self.pos = (self.pos as i64 + skipped) as i32;
        skipped
    }

    /// `available()`: the raw wrapping `count - pos`.
    pub fn available(&self) -> (r: i32)
        ensures r == wrap_i32(self@.count - self@.pos),
    {
        self.count.wrapping_sub(self.pos)
    }

    pub fn is_empty(&self) -> (r: bool)
        ensures r == (self@.pos >= self@.count),
    {
        self.pos >= self.count
    }

    /// `mark(readAheadLimit)`; the limit is ignored by this Java class.
    pub fn mark(&mut self, read_ahead_limit: i32)
        ensures final(self)@ == (StreamView { mark: old(self)@.pos, ..old(self)@ }),
    {
        proof { use_type_invariant(&*self); }
        self.mark = self.pos;
    }

    /// `reset()`.
    pub fn reset(&mut self)
        ensures final(self)@ == (StreamView { pos: old(self)@.mark, ..old(self)@ }),
    {
        proof { use_type_invariant(&*self); }
        self.pos = self.mark;
    }

    pub fn mark_supported(&self) -> (r: bool)
        ensures r,
    {
        true
    }

    /// `close()`: leaves every field untouched.
    pub fn close(&mut self)
        ensures final(self)@ == old(self)@,
    {
    }

    pub fn into_buffer(self) -> (r: Vec<u8>)
        ensures r@ == self@.buf,
    {
        self.buf
    }
}


/// `readUnsignedByte`-style required byte: `EOFException` at the end.
pub open spec fn required_outcome(s: StreamView) -> (Result<u8, Failure>, StreamView) {
    let (r, next) = read_outcome(s);
    match r {
        Ok(v) => if v < 0 { (Err(Failure::Eof), next) } else { (Ok(v as u8), next) },
        Err(e) => (Err(Failure::Thrown(e)), next),
    }
}

/// `n` required bytes read one after another; the first failure stops it.
pub open spec fn required_bytes(s: StreamView, n: nat) -> (Result<Seq<u8>, Failure>, StreamView)
    decreases n,
{
    if n == 0 {
        (Ok(Seq::empty()), s)
    } else {
        let (r, mid) = required_bytes(s, (n - 1) as nat);
        match r {
            Err(f) => (Err(f), mid),
            Ok(bytes) => {
                let (b, next) = required_outcome(mid);
                match b {
                    Err(f) => (Err(f), next),
                    Ok(x) => (Ok(bytes.push(x)), next),
                }
            },
        }
    }
}

proof fn lemma_required_bytes_sticky(s: StreamView, k: nat, m: nat)
    requires k <= m, required_bytes(s, k).0 is Err,
    ensures required_bytes(s, m) == required_bytes(s, k),
    decreases m,
{
    if k < m {
        lemma_required_bytes_sticky(s, k, (m - 1) as nat);
    }
}

/// The unsigned big-endian value of a byte sequence.
pub open spec fn be_value(bytes: Seq<u8>) -> int
    decreases bytes.len(),
{
    if bytes.len() == 0 { 0 } else { be_value(bytes.drop_last()) * 256 + bytes.last() }
}

/// Maps a modelled byte read through a conversion of the bytes.
pub open spec fn map_bytes<T>(r: Result<Seq<u8>, Failure>, f: spec_fn(Seq<u8>) -> T) -> Result<T, Failure> {
    match r {
        Ok(b) => Ok(f(b)),
        Err(e) => Err(e),
    }
}

/// Java's modified UTF-8 decoding (as `readUTF` performs it): one byte for a
/// lead below `0x80` (a raw `0` included), two for `0xC0..=0xDF`, three for
/// `0xE0..=0xEF`; any other lead, a truncated sequence or a continuation byte
/// without the `10` prefix is malformed (`None`).
pub open spec fn decode_utf(b: Seq<u8>) -> Option<Seq<u16>>
    decreases b.len(),
{
    if b.len() == 0 {
        Some(Seq::empty())
    } else {
        let first = b[0];
        if first < 0x80 {
            match decode_utf(b.skip(1)) {
                Some(rest) => Some(seq![first as u16] + rest),
                None => None,
            }
        } else if 0xc0 <= first < 0xe0 {
            if b.len() < 2 || b[1] & 0xc0 != 0x80 {
                None
            } else {
                match decode_utf(b.skip(2)) {
                    Some(rest) => Some(seq![((((first & 0x1f) as u16) << 6u16) | ((b[1] & 0x3f) as u16)) as u16] + rest),
                    None => None,
                }
            }
        } else if 0xe0 <= first < 0xf0 {
            if b.len() < 3 || b[1] & 0xc0 != 0x80 || b[2] & 0xc0 != 0x80 {
                None
            } else {
                match decode_utf(b.skip(3)) {
                    Some(rest) => Some(seq![((((first & 0x0f) as u16) << 12u16) | (((b[1] & 0x3f) as u16) << 6u16)
                        | ((b[2] & 0x3f) as u16)) as u16] + rest),
                    None => None,
                }
            }
        } else {
            None
        }
    }
}

/// The modified UTF-8 bytes `writeUTF` emits for one UTF-16 code unit: `U+0000`
/// as `C0 80`, `0x01..=0x7F` as one byte, up to `0x7FF` as two, else three.
pub open spec fn encode_unit(u: u16) -> Seq<u8> {
    if u == 0 {
        seq![0xc0u8, 0x80u8]
    } else if u <= 0x7f {
        seq![u as u8]
    } else if u <= 0x7ff {
        seq![(0xc0u16 | (u >> 6u16)) as u8, (0x80u16 | (u & 0x3f)) as u8]
    } else {
        seq![(0xe0u16 | (u >> 12u16)) as u8, (0x80u16 | ((u >> 6u16) & 0x3f)) as u8, (0x80u16 | (u & 0x3f)) as u8]
    }
}

/// The modified UTF-8 encoding of a sequence of code units.
pub open spec fn encode_utf(chars: Seq<u16>) -> Seq<u8>
    decreases chars.len(),
{
    if chars.len() == 0 { Seq::empty() } else { encode_unit(chars[0]) + encode_utf(chars.drop_first()) }
}

proof fn lemma_decode_unit(u: u16, rest: Seq<u8>)
    ensures
        decode_utf(encode_unit(u) + rest) == match decode_utf(rest) {
            Some(r) => Some(seq![u] + r),
            None => None::<Seq<u16>>,
        },
{
    let b = encode_unit(u) + rest;
    let k = encode_unit(u).len() as int;
    assert(b.skip(k) =~= rest);
    if u == 0 {
        assert(b[0] == 0xc0 && b[1] == 0x80);
        assert(((((0xc0u8 & 0x1f) as u16) << 6u16) | ((0x80u8 & 0x3f) as u16)) as u16 == 0
            && 0x80u8 & 0xc0 == 0x80) by (bit_vector);
    } else if u <= 0x7f {
        assert(b[0] == u as u8);
        assert(u <= 0x7f ==> (u as u8) < 0x80 && ((u as u8) as u16) == u) by (bit_vector);
    } else if u <= 0x7ff {
        let f = (0xc0u16 | (u >> 6u16)) as u8;
        let g = (0x80u16 | (u & 0x3f)) as u8;
        assert(b[0] == f && b[1] == g);
        assert(b.len() >= 2);
        assert(0x80 <= u <= 0x7ff ==> 0xc0 <= f < 0xe0 && g & 0xc0 == 0x80
            && ((((f & 0x1f) as u16) << 6u16) | ((g & 0x3f) as u16)) as u16 == u) by (bit_vector)
            requires f == (0xc0u16 | (u >> 6u16)) as u8, g == (0x80u16 | (u & 0x3f)) as u8;
    } else {
        let f = (0xe0u16 | (u >> 12u16)) as u8;
        let g = (0x80u16 | ((u >> 6u16) & 0x3f)) as u8;
        let h = (0x80u16 | (u & 0x3f)) as u8;
        assert(b[0] == f && b[1] == g && b[2] == h);
        assert(b.len() >= 3);
        assert(0x800 <= u ==> 0xe0 <= f < 0xf0 && g & 0xc0 == 0x80 && h & 0xc0 == 0x80
            && ((((f & 0x0f) as u16) << 12u16) | (((g & 0x3f) as u16) << 6u16) | ((h & 0x3f) as u16)) as u16 == u)
            by (bit_vector)
            requires f == (0xe0u16 | (u >> 12u16)) as u8, g == (0x80u16 | ((u >> 6u16) & 0x3f)) as u8,
                h == (0x80u16 | (u & 0x3f)) as u8;
    }
}

/// Decoding the modified UTF-8 encoding of any code units gives them back,
/// `U+0000` and lone surrogates included.
pub proof fn lemma_utf_round_trip(chars: Seq<u16>)
    ensures decode_utf(encode_utf(chars)) == Some(chars),
    decreases chars.len(),
{
    if chars.len() == 0 {
    } else {
        lemma_utf_round_trip(chars.drop_first());
        lemma_decode_unit(chars[0], encode_utf(chars.drop_first()));
        assert(seq![chars[0]] + chars.drop_first() =~= chars);
    }
}


/// `256^n`.
pub open spec fn byte_limit(n: nat) -> int
    decreases n,
{
    if n == 0 { 1 } else { 256 * byte_limit((n - 1) as nat) }
}

proof fn lemma_byte_limit_monotone(i: nat, j: nat)
    requires i <= j,
    ensures 1 <= byte_limit(i) <= byte_limit(j),
    decreases j,
{
    if j > 0 {
        if i < j {
            lemma_byte_limit_monotone(i, (j - 1) as nat);
        } else {
            lemma_byte_limit_monotone((i - 1) as nat, (j - 1) as nat);
        }
    }
}

proof fn lemma_be_value_bound(bytes: Seq<u8>)
    ensures 0 <= be_value(bytes) < byte_limit(bytes.len()),
    decreases bytes.len(),
{
    if bytes.len() > 0 {
        lemma_be_value_bound(bytes.drop_last());
        let p = byte_limit((bytes.len() - 1) as nat);
        assert(be_value(bytes.drop_last()) * 256 + bytes.last() < p * 256) by (nonlinear_arith)
            requires be_value(bytes.drop_last()) < p, bytes.last() < 256;
    }
}

/// The unsigned big-endian value of up to eight bytes.
fn be_unsigned(bytes: &[u8]) -> (r: u64)
    requires bytes@.len() <= 8,
    ensures r == be_value(bytes@),
{
    let mut acc: u64 = 0;
    let mut i: usize = 0;
    while i < bytes.len()
        invariant
            i <= bytes@.len() <= 8,
            acc == be_value(bytes@.subrange(0, i as int)),
        decreases bytes@.len() - i,
    {
        proof {
            lemma_be_value_bound(bytes@.subrange(0, i as int));
            lemma_byte_limit_monotone(i as nat, 7);
            reveal_with_fuel(byte_limit, 8);
            assert(bytes@.subrange(0, i + 1).drop_last() =~= bytes@.subrange(0, i as int));
        }
        acc = acc * 256 + bytes[i] as u64;
        i = i + 1;
    }
    assert(bytes@.subrange(0, bytes@.len() as int) =~= bytes@);
    acc
}

/// `java.io.DataInputStream` over a `ByteArrayInputStream`; it owns the
/// stream and uses its single cursor.
#[derive(Debug, Clone)]
pub struct DataInputStream {
    input: ByteArrayInputStream,
}

impl View for DataInputStream {
    type V = StreamView;

    closed spec fn view(&self) -> StreamView {
        self.input@
    }
}

/// Eight zero bytes: the scratch buffer `readLong` fills.
pub open spec fn zeros(n: nat) -> Seq<i8> {
    Seq::new(n, |i: int| 0i8)
}

/// Signed destination bytes reinterpreted as unsigned.
pub open spec fn unsigned_bytes(b: Seq<i8>) -> Seq<u8> {
    b.map_values(|x: i8| x as u8)
}

impl DataInputStream {
    /// Copies a host slice into an owned stream.
    pub fn new(data: &[u8]) -> (r: Self)
        requires data@.len() <= i32::MAX,
        ensures r@ == (StreamView { buf: data@, pos: 0, mark: 0, count: data@.len() as i32 }),
    {
        Self::from_stream(ByteArrayInputStream::from_slice(data))
    }

    /// Takes ownership of a byte vector without copying it.
    pub fn from_bytes(data: Vec<u8>) -> (r: Self)
        requires data@.len() <= i32::MAX,
        ensures r@ == (StreamView { buf: data@, pos: 0, mark: 0, count: data@.len() as i32 }),
    {
        Self::from_stream(ByteArrayInputStream::new(data))
    }

    /// `new DataInputStream(input)`: no second cursor is introduced.
    pub fn from_stream(input: ByteArrayInputStream) -> (r: Self)
        ensures r@ == input@,
    {
        DataInputStream { input }
    }

    pub fn inner(&self) -> (r: &ByteArrayInputStream)
        ensures r@ == self@,
    {
        &self.input
    }

    pub fn inner_mut(&mut self) -> (r: &mut ByteArrayInputStream)
        ensures r@ == old(self)@, final(self)@ == final(r)@,
    {
        &mut self.input
    }

    pub fn into_inner(self) -> (r: ByteArrayInputStream)
        ensures r@ == self@,
    {
        self.input
    }

    /// Bytes consumed so far.
    pub fn position(&self) -> (r: i32)
        ensures r == self@.pos,
    {
        self.input.position()
    }

    pub fn available(&self) -> (r: i32)
        ensures r == wrap_i32(self@.count - self@.pos),
    {
        self.input.available()
    }

    pub fn is_empty(&self) -> (r: bool)
        ensures r == (self@.pos >= self@.count),
    {
        self.input.is_empty()
    }

    fn read_required(&mut self) -> (r: JavaResult<u8>)
        ensures agrees(r, required_outcome(old(self)@).0), final(self)@ == required_outcome(old(self)@).1,
    {
        let value = self.input.read()?;
        if value < 0 {
            Err(eof())
        } else {
            Ok(value as u8)
        }
    }

    fn read_required_bytes(&mut self, n: usize) -> (r: JavaResult<Vec<u8>>)
        ensures
            match (r, required_bytes(old(self)@, n as nat).0) {
                (Ok(v), Ok(b)) => v@ == b,
                (Err(e), Err(f)) => agrees(Err::<(), JavaError>(e), Err(f)),
                _ => false,
            },
            final(self)@ == required_bytes(old(self)@, n as nat).1,
            r is Ok && n > 0 ==> final(self)@.pos >= 1,
            r matches Ok(v) ==> v@.len() == n,
    {
        let mut bytes: Vec<u8> = Vec::new();
        let mut i: usize = 0;
        while i < n
            invariant
                i <= n,
                required_bytes(old(self)@, i as nat) == (Ok::<Seq<u8>, Failure>(bytes@), self@),
                i > 0 ==> self@.pos >= 1,
                bytes@.len() == i,
            decreases n - i,
        {
            proof { use_type_invariant(&self.input); }
            let ghost before = self@;
            let b = match self.read_required() {
                Ok(b) => b,
                Err(e) => {
                    proof { lemma_required_bytes_sticky(old(self)@, (i + 1) as nat, n as nat); }
                    return Err(e);
                },
            };
            bytes.push(b);
            i = i + 1;
        }
        Ok(bytes)
    }

    /// `readByte()`: signed.
    pub fn read_byte(&mut self) -> (r: JavaResult<i8>)
        ensures
            agrees(r, map_bytes(required_bytes(old(self)@, 1).0, |b: Seq<u8>| b[0] as i8)),
            final(self)@ == required_bytes(old(self)@, 1).1,
    {
        let b = self.read_required_bytes(1)?;
        Ok(b[0] as i8)
    }

    /// `readUnsignedByte()`.
    pub fn read_unsigned_byte(&mut self) -> (r: JavaResult<i32>)
        ensures
            agrees(r, map_bytes(required_bytes(old(self)@, 1).0, |b: Seq<u8>| b[0] as i32)),
            final(self)@ == required_bytes(old(self)@, 1).1,
    {
        let b = self.read_required_bytes(1)?;
        Ok(b[0] as i32)
    }

    /// `readBoolean()`: any non-zero byte is true.
    pub fn read_boolean(&mut self) -> (r: JavaResult<bool>)
        ensures
            agrees(r, map_bytes(required_bytes(old(self)@, 1).0, |b: Seq<u8>| b[0] != 0)),
            final(self)@ == required_bytes(old(self)@, 1).1,
    {
        let b = self.read_required_bytes(1)?;
        Ok(b[0] != 0)
    }

    /// `readShort()`: signed, big-endian.
    pub fn read_short(&mut self) -> (r: JavaResult<i16>)
        ensures
            agrees(r, map_bytes(required_bytes(old(self)@, 2).0, |b: Seq<u8>| be_value(b) as i16)),
            final(self)@ == required_bytes(old(self)@, 2).1,
    {
        let b = self.read_required_bytes(2)?;
        let v = be_unsigned(b.as_slice());
        proof {
            lemma_be_value_bound(b@);
            reveal_with_fuel(byte_limit, 3);
        }
        assert((v as u16) as i16 == v as i16) by (bit_vector) requires v < 0x1_0000;
        Ok(v as u16 as i16)
    }

    /// `readUnsignedShort()`.
    pub fn read_unsigned_short(&mut self) -> (r: JavaResult<i32>)
        ensures
            agrees(r, map_bytes(required_bytes(old(self)@, 2).0, |b: Seq<u8>| be_value(b) as i32)),
            final(self)@ == required_bytes(old(self)@, 2).1,
            r matches Ok(v) ==> 0 <= v <= 0xffff && final(self)@.pos >= 1
                && (required_bytes(old(self)@, 2).0 matches Ok(b) && v == be_value(b)),
    {
        let b = self.read_required_bytes(2)?;
        proof {
            lemma_be_value_bound(b@);
            reveal_with_fuel(byte_limit, 3);
        }
        Ok(be_unsigned(b.as_slice()) as i32)
    }

    /// `readChar()`: one UTF-16 code unit.
    pub fn read_char(&mut self) -> (r: JavaResult<u16>)
        ensures
            agrees(r, map_bytes(required_bytes(old(self)@, 2).0, |b: Seq<u8>| be_value(b) as u16)),
            final(self)@ == required_bytes(old(self)@, 2).1,
    {
        let b = self.read_required_bytes(2)?;
        Ok(be_unsigned(b.as_slice()) as u16)
    }

    /// `readInt()`: signed, big-endian.
    pub fn read_int(&mut self) -> (r: JavaResult<i32>)
        ensures
            agrees(r, map_bytes(required_bytes(old(self)@, 4).0, |b: Seq<u8>| be_value(b) as i32)),
            final(self)@ == required_bytes(old(self)@, 4).1,
    {
        let b = self.read_required_bytes(4)?;
        let v = be_unsigned(b.as_slice());
        proof {
            lemma_be_value_bound(b@);
            reveal_with_fuel(byte_limit, 5);
        }
        assert((v as u32) as i32 == v as i32) by (bit_vector) requires v < 0x1_0000_0000;
        Ok(v as u32 as i32)
    }
}


impl DataInputStream {
    /// `readFully(byte[])`: the available prefix is consumed before
    /// `EOFException` is raised.
    pub fn read_fully(&mut self, buffer: &mut [i8]) -> (r: JavaResult<()>)
        requires
            old(buffer)@.len() <= i32::MAX,
            old(buffer)@.len() > 0 ==> !stalls(old(self)@),
        ensures
            agrees(r, read_fully_outcome(old(self)@, old(buffer)@).0),
            final(self)@ == read_fully_outcome(old(self)@, old(buffer)@).1,
            final(buffer)@ == read_fully_outcome(old(self)@, old(buffer)@).2,
    {
        proof { use_type_invariant(&self.input); }
        let length = buffer.len() as i32;
        let ghost s0 = self@;
        let ghost b0 = buffer@;
        let mut consumed: i32 = 0;
        while consumed < length
            invariant
                0 <= consumed <= length, length == b0.len(), length <= i32::MAX,
                buffer@.len() == b0.len(), stream_wf(s0), s0 == old(self)@, b0 == old(buffer)@,
                length > 0 ==> !stalls(s0),
                consumed == 0 ==> self@ == s0 && buffer@ == b0,
                consumed > 0 ==> {
                    &&& 0 <= s0.pos < s0.count
                    &&& consumed == (if length <= s0.count - s0.pos { length as int } else { s0.count - s0.pos })
                    &&& self@ == (StreamView { pos: (s0.pos + consumed) as i32, ..s0 })
                    &&& buffer@ == copy_into(b0, 0, s0.buf, s0.pos as int, consumed as int)
                },
            decreases length - consumed,
        {
            let ghost before = self@;
            proof {
                if 0 <= before.pos < before.count {
                    super::lemma_wrap_i32_in_range(before.count - before.pos);
                }
            }
            let read = match self.input.read_range(buffer, consumed, length - consumed) {
                Ok(read) => read,
                Err(e) => {
                    assert(consumed == 0);
                    assert(s0.pos < s0.count);
                    assert(s0.pos < 0);
                    assert(e == JavaError::IndexOutOfBounds);
                    assert(read_fully_outcome(s0, b0).0 == Err::<(), Failure>(Failure::Thrown(JavaError::IndexOutOfBounds)));
                    return Err(e);
                },
            };
            if read < 0 {
                if consumed == 0 {
                    assert(s0.pos >= s0.count);
                    assert(read_fully_outcome(s0, b0).0 == Err::<(), Failure>(Failure::Eof));
                } else {
                    assert(read_fully_outcome(s0, b0).0 == Err::<(), Failure>(Failure::Eof));
                }
                return Err(eof());
            }
            proof {
                if consumed > 0 {
                    assert(before.pos >= before.count);
                }
                assert(read > 0);
                assert(buffer@ =~= copy_into(b0, 0, s0.buf, s0.pos as int, (consumed + read) as int));
            }
            consumed = consumed + read;
        }
        Ok(())
    }

    /// `read(byte[])`: a short read is not an error; `-1` at the end (even
    /// for an empty buffer), `0` for an empty buffer before the end.
    pub fn read(&mut self, buffer: &mut [i8]) -> (r: JavaResult<i32>)
        requires old(buffer)@.len() <= i32::MAX,
        ensures
            r == range_read_outcome(old(self)@, old(buffer)@, 0, old(buffer)@.len() as i32).0,
            final(self)@ == range_read_outcome(old(self)@, old(buffer)@, 0, old(buffer)@.len() as i32).1,
            final(buffer)@ == range_read_outcome(old(self)@, old(buffer)@, 0, old(buffer)@.len() as i32).2,
    {
        let length = buffer.len() as i32;
        self.input.read_range(buffer, 0, length)
    }

    /// Reads `count` signed bytes with `readFully` semantics.
    pub fn read_bytes(&mut self, count: usize) -> (r: JavaResult<Vec<i8>>)
        requires
            count <= i32::MAX,
            count > 0 ==> !stalls(old(self)@),
        ensures
            agrees(seq_result(r), match read_fully_outcome(old(self)@, zeros(count as nat)).0 {
                Ok(()) => Ok(read_fully_outcome(old(self)@, zeros(count as nat)).2),
                Err(f) => Err(f),
            }),
            final(self)@ == read_fully_outcome(old(self)@, zeros(count as nat)).1,
    {
        let mut bytes = vec![0i8; count];
        assert(bytes@ =~= zeros(count as nat));
        match self.read_fully(bytes.as_mut_slice()) {
            Ok(()) => Ok(bytes),
            Err(e) => Err(e),
        }
    }

    /// `readLong()`: eight big-endian bytes through `readFully`.
    pub fn read_long(&mut self) -> (r: JavaResult<i64>)
        requires !stalls(old(self)@),
        ensures
            agrees(r, match read_fully_outcome(old(self)@, zeros(8)).0 {
                Ok(()) => Ok(be_value(unsigned_bytes(read_fully_outcome(old(self)@, zeros(8)).2)) as i64),
                Err(f) => Err(f),
            }),
            final(self)@ == read_fully_outcome(old(self)@, zeros(8)).1,
    {
        let bytes = self.read_bytes(8)?;
        let unsigned = to_unsigned(bytes.as_slice());
        let v = be_unsigned(unsigned.as_slice());
        proof {
            lemma_be_value_bound(unsigned@);
            reveal_with_fuel(byte_limit, 9);
        }
        Ok(v as i64)
    }

    /// `readUTF()`: a two-byte unsigned length, then that many bytes of
    /// modified UTF-8, returned as UTF-16 code units.
    pub fn read_utf(&mut self) -> (r: JavaResult<Vec<u16>>)
        ensures
            ({
                let (len, mid) = required_bytes(old(self)@, 2);
                match len {
                    Err(f) => agrees(seq_result(r), Err(f)) && final(self)@ == mid,
                    Ok(b) => {
                        let (filled, end, out) = read_fully_outcome(mid, zeros(be_value(b) as nat));
                        &&& final(self)@ == end
                        &&& match filled {
                            Err(f) => agrees(seq_result(r), Err(f)),
                            Ok(()) => match decode_utf(unsigned_bytes(out)) {
                                Some(chars) => r matches Ok(v) && v@ == chars,
                                None => r matches Err(e) && is_utf_format_error(e),
                            },
                        }
                    },
                }
            }),
    {
        let length = self.read_unsigned_short()? as usize;
        proof {
            use_type_invariant(&self.input);
            if self@.pos < self@.count {
                super::lemma_wrap_i32_in_range(self@.count - self@.pos);
            }
        }
        let bytes = self.read_bytes(length)?;
        let unsigned = to_unsigned(bytes.as_slice());
        decode_modified_utf8(unsigned.as_slice())
    }

    /// `skip(n)`.
    pub fn skip(&mut self, count: i64) -> (r: JavaResult<i64>)
        ensures
            r == Ok::<i64, JavaError>(if count < wrap_i32(old(self)@.count - old(self)@.pos) {
                if count < 0 { 0 } else { count as int } } else { wrap_i32(old(self)@.count - old(self)@.pos) } as i64),
            final(self)@ == (StreamView { pos: (old(self)@.pos + r->Ok_0) as i32, ..old(self)@ }),
    {
        Ok(self.input.skip(count))
    }
}

fn to_unsigned(bytes: &[i8]) -> (r: Vec<u8>)
    ensures r@ == unsigned_bytes(bytes@),
{
    let mut out: Vec<u8> = Vec::new();
    let mut i: usize = 0;
    while i < bytes.len()
        invariant i <= bytes@.len(), out@ =~= unsigned_bytes(bytes@.subrange(0, i as int)),
        decreases bytes@.len() - i,
    {
        out.push(bytes[i] as u8);
        i = i + 1;
        assert(out@ =~= unsigned_bytes(bytes@.subrange(0, i as int)));
    }
    assert(bytes@.subrange(0, bytes@.len() as int) =~= bytes@);
    out
}

/// Decodes Java modified UTF-8 to UTF-16 code units.
fn decode_modified_utf8(bytes: &[u8]) -> (r: JavaResult<Vec<u16>>)
    ensures
        match decode_utf(bytes@) {
            Some(chars) => r matches Ok(v) && v@ == chars,
            None => r matches Err(e) && is_utf_format_error(e),
        },
{
    let mut decoded: Vec<u16> = Vec::new();
    let mut offset: usize = 0;
    assert(bytes@.skip(0) =~= bytes@);
    assert(forall|rest: Seq<u16>| decoded@ + rest =~= rest);
    while offset < bytes.len()
        invariant
            offset <= bytes@.len(),
            decode_utf(bytes@) == match decode_utf(bytes@.skip(offset as int)) {
                Some(rest) => Some(decoded@ + rest),
                None => None::<Seq<u16>>,
            },
        decreases bytes@.len() - offset,
    {
        let ghost tail = bytes@.skip(offset as int);
        let first = bytes[offset];
        if first < 0x80 {
            assert(tail.skip(1) =~= bytes@.skip(offset + 1));
            assert(decoded@ + (seq![first as u16] + decode_utf(tail.skip(1)).unwrap_or(Seq::empty()))
                =~= decoded@.push(first as u16) + decode_utf(tail.skip(1)).unwrap_or(Seq::empty()));
            decoded.push(first as u16);
            offset = offset + 1;
        } else if 0xc0 <= first && first < 0xe0 {
            if bytes.len() - offset < 2 {
                return Err(utf_data_format());
            }
            let second = bytes[offset + 1];
            if second & 0xc0 != 0x80 {
                return Err(utf_data_format());
            }
            let unit = (((first & 0x1f) as u16) << 6u16) | ((second & 0x3f) as u16);
            assert(tail.skip(2) =~= bytes@.skip(offset + 2));
            assert(decoded@ + (seq![unit] + decode_utf(tail.skip(2)).unwrap_or(Seq::empty()))
                =~= decoded@.push(unit) + decode_utf(tail.skip(2)).unwrap_or(Seq::empty()));
            decoded.push(unit);
            offset = offset + 2;
        } else if 0xe0 <= first && first < 0xf0 {
            if bytes.len() - offset < 3 {
                return Err(utf_data_format());
            }
            let second = bytes[offset + 1];
            let third = bytes[offset + 2];
            if second & 0xc0 != 0x80 || third & 0xc0 != 0x80 {
                return Err(utf_data_format());
            }
            let unit = (((first & 0x0f) as u16) << 12u16) | (((second & 0x3f) as u16) << 6u16) | ((third & 0x3f) as u16);
            assert(tail.skip(3) =~= bytes@.skip(offset + 3));
            assert(decoded@ + (seq![unit] + decode_utf(tail.skip(3)).unwrap_or(Seq::empty()))
                =~= decoded@.push(unit) + decode_utf(tail.skip(3)).unwrap_or(Seq::empty()));
            decoded.push(unit);
            offset = offset + 3;
        } else {
            return Err(utf_data_format());
        }
    }
    assert(bytes@.skip(bytes@.len() as int) =~= Seq::<u8>::empty());
    assert(decoded@ + Seq::<u16>::empty() =~= decoded@);
    Ok(decoded)
}

/// The low `n` bytes of `x`, big-endian (two's complement for the signed
/// values Java writes).
pub open spec fn be_bytes(x: nat, n: nat) -> Seq<u8>
    decreases n,
{
    if n == 0 { Seq::empty() } else { be_bytes(x / 256, (n - 1) as nat).push((x % 256) as u8) }
}

proof fn lemma_encode_push(chars: Seq<u16>, u: u16)
    ensures encode_utf(chars.push(u)) == encode_utf(chars) + encode_unit(u),
    decreases chars.len(),
{
    if chars.len() == 0 {
        assert(chars.push(u).drop_first() =~= Seq::<u16>::empty());
        assert(chars.push(u)[0] == u);
        assert(encode_utf(chars) =~= Seq::<u8>::empty());
        assert(encode_utf(chars.push(u).drop_first()) =~= Seq::<u8>::empty());
        assert(encode_unit(u) + Seq::<u8>::empty() =~= encode_unit(u));
        assert(Seq::<u8>::empty() + encode_unit(u) =~= encode_unit(u));
    } else {
        lemma_encode_push(chars.drop_first(), u);
        assert(chars.push(u).drop_first() =~= chars.drop_first().push(u));
        assert(chars.push(u)[0] == chars[0]);
        assert(encode_unit(chars[0]) + (encode_utf(chars.drop_first()) + encode_unit(u))
            =~= (encode_unit(chars[0]) + encode_utf(chars.drop_first())) + encode_unit(u));
    }
}

/// `java.io.DataOutputStream` over a `ByteArrayOutputStream`.
#[derive(Debug, Clone)]
pub struct DataOutputStream {
    data: Vec<u8>,
}

impl View for DataOutputStream {
    type V = Seq<u8>;

    closed spec fn view(&self) -> Seq<u8> {
        self.data@
    }
}

impl Default for DataOutputStream {
    fn default() -> (r: Self)
        ensures r@.len() == 0,
    {
        DataOutputStream { data: Vec::new() }
    }
}

fn be_fill(x: u64, n: usize) -> (r: Vec<u8>)
    requires n <= 8,
    ensures r@ == be_bytes(x as nat, n as nat),
{
    let mut out = vec![0u8; n];
    let mut y = x;
    let mut i = n;
    assert(out@.subrange(n as int, n as int) =~= Seq::<u8>::empty());
    assert(be_bytes(x as nat, n as nat) + Seq::<u8>::empty() =~= be_bytes(x as nat, n as nat));
    while i > 0
        invariant
            i <= n, out@.len() == n,
            be_bytes(x as nat, n as nat) == be_bytes(y as nat, i as nat) + out@.subrange(i as int, n as int),
        decreases i,
    {
        i = i - 1;
        let ghost before = out@;
        out.set(i, (y % 256) as u8);
        assert(out@.subrange(i as int, n as int) =~= seq![(y % 256) as u8] + before.subrange(i + 1, n as int));
        assert(be_bytes(y as nat, (i + 1) as nat) == be_bytes((y / 256) as nat, i as nat).push((y % 256) as u8));
        assert(be_bytes((y / 256) as nat, i as nat).push((y % 256) as u8) + before.subrange(i + 1, n as int)
            =~= be_bytes((y / 256) as nat, i as nat) + out@.subrange(i as int, n as int));
        y = y / 256;
    }
    assert(out@.subrange(0, n as int) =~= out@);
    assert(Seq::<u8>::empty() + out@ =~= out@);
    out
}

impl DataOutputStream {
    pub fn new() -> (r: Self)
        ensures r@.len() == 0,
    {
        DataOutputStream { data: Vec::new() }
    }

    /// `size()`.
    pub fn size(&self) -> (r: usize)
        ensures r == self@.len(),
    {
        self.data.len()
    }

    pub fn is_empty(&self) -> (r: bool)
        ensures r == (self@.len() == 0),
    {
        self.data.len() == 0
    }

    /// `toByteArray()`.
    pub fn into_bytes(self) -> (r: Vec<u8>)
        ensures r@ == self@,
    {
        self.data
    }

    pub fn as_bytes(&self) -> (r: &[u8])
        ensures r@ == self@,
    {
        self.data.as_slice()
    }

    /// `close()`: a byte-array sink keeps its bytes and stays writable.
    pub fn close(&mut self)
        ensures final(self)@ == old(self)@,
    {
    }

    fn append_be(&mut self, x: u64, n: usize)
        requires n <= 8,
        ensures final(self)@ == old(self)@ + be_bytes(x as nat, n as nat),
    {
        let mut bytes = be_fill(x, n);
        self.data.append(&mut bytes);
    }

    /// `writeByte(int)`: the low eight bits.
    pub fn write_byte(&mut self, value: i32)
        ensures final(self)@ == old(self)@.push(value as u8),
    {
        self.data.push(value as u8);
    }

    /// `writeBoolean(boolean)`.
    pub fn write_boolean(&mut self, value: bool)
        ensures final(self)@ == old(self)@.push(if value { 1u8 } else { 0u8 }),
    {
        self.data.push(if value { 1 } else { 0 });
    }

    /// `writeShort(int)`: the low sixteen bits, big-endian.
    pub fn write_short(&mut self, value: i32)
        ensures final(self)@ == old(self)@ + be_bytes(value as u16 as nat, 2),
    {
        self.append_be(value as u16 as u64, 2);
    }

    /// `writeChar(int)`.
    pub fn write_char(&mut self, value: i32)
        ensures final(self)@ == old(self)@ + be_bytes(value as u16 as nat, 2),
    {
        self.append_be(value as u16 as u64, 2);
    }

    /// `writeInt(int)`.
    pub fn write_int(&mut self, value: i32)
        ensures final(self)@ == old(self)@ + be_bytes(value as u32 as nat, 4),
    {
        self.append_be(value as u32 as u64, 4);
    }

    /// `writeLong(long)`.
    pub fn write_long(&mut self, value: i64)
        ensures final(self)@ == old(self)@ + be_bytes(value as u64 as nat, 8),
    {
        self.append_be(value as u64, 8);
    }

    /// `writeUTF(String)`: the two-byte modified-UTF-8 length, then the
    /// encoding; `UTFDataFormatException` when it exceeds 65535 bytes.
    pub fn write_utf(&mut self, chars: &[u16]) -> (r: JavaResult<()>)
        ensures
            encode_utf(chars@).len() <= 0xffff ==> r is Ok
                && final(self)@ == old(self)@ + be_bytes(encode_utf(chars@).len(), 2) + encode_utf(chars@),
            encode_utf(chars@).len() > 0xffff ==> final(self)@ == old(self)@
                && (r matches Err(JavaError::Io(m)) && m@ == utf_too_long_message()),
    {
        let byte_len = match modified_utf8_len(chars) {
            Some(n) => n,
            None => {
                return Err(JavaError::Io("UTFDataFormatException: encoded string too long".to_owned()));
            },
        };
        self.write_short(byte_len as i32);
        assert(byte_len as i32 as u16 == byte_len as u16);
        let ghost header = self@;
        let mut i: usize = 0;
        assert(chars@.take(0) =~= Seq::<u16>::empty());
        assert(header + Seq::<u8>::empty() =~= header);
        while i < chars.len()
            invariant
                i <= chars@.len(),
                self@ == header + encode_utf(chars@.take(i as int)),
            decreases chars@.len() - i,
        {
            let unit = chars[i];
            let ghost before = self@;
            if unit == 0 {
                self.data.push(0xc0);
                self.data.push(0x80);
            } else if unit <= 0x7f {
                self.data.push(unit as u8);
            } else if unit <= 0x7ff {
                self.data.push((0xc0 | (unit >> 6)) as u8);
                self.data.push((0x80 | (unit & 0x3f)) as u8);
            } else {
                self.data.push((0xe0 | (unit >> 12)) as u8);
                self.data.push((0x80 | ((unit >> 6) & 0x3f)) as u8);
                self.data.push((0x80 | (unit & 0x3f)) as u8);
            }
            proof {
                assert(self@ =~= before + encode_unit(unit));
                lemma_encode_push(chars@.take(i as int), unit);
                assert(chars@.take(i + 1) =~= chars@.take(i as int).push(unit));
            }
            i = i + 1;
        }
        assert(chars@.take(chars@.len() as int) =~= chars@);
        Ok(())
    }

    /// `write(byte[])`.
    pub fn write(&mut self, buffer: &[i8])
        ensures final(self)@ == old(self)@ + unsigned_bytes(buffer@),
    {
        let mut bytes = to_unsigned(buffer);
        self.data.append(&mut bytes);
    }

    /// `write(byte[], off, len)`.
    pub fn write_range(&mut self, buffer: &[i8], offset: usize, length: usize)
        requires offset + length <= buffer@.len(),
        ensures final(self)@ == old(self)@ + unsigned_bytes(buffer@.subrange(offset as int, offset + length)),
    {
        let ghost start = self@;
        let total = buffer.len();
        let end = offset + length;
        let mut i: usize = offset;
        assert(unsigned_bytes(buffer@.subrange(offset as int, offset as int)) =~= Seq::<u8>::empty());
        assert(start + Seq::<u8>::empty() =~= start);
        while i < end
            invariant
                offset <= i <= end, end == offset + length, end <= buffer@.len(),
                self@ == start + unsigned_bytes(buffer@.subrange(offset as int, i as int)),
            decreases end - i,
        {
            self.data.push(buffer[i] as u8);
            i = i + 1;
            assert(self@ =~= start + unsigned_bytes(buffer@.subrange(offset as int, i as int)));
        }
    }

    pub fn write_raw(&mut self, buffer: &[u8])
        ensures final(self)@ == old(self)@ + buffer@,
    {
        let mut bytes = slice_to_vec(buffer);
        self.data.append(&mut bytes);
    }
}

pub closed spec fn utf_too_long_message() -> Seq<char> {
    "UTFDataFormatException: encoded string too long"@
}

/// The modified UTF-8 length of `chars`, or `None` once it passes 65535.
fn modified_utf8_len(chars: &[u16]) -> (r: Option<usize>)
    ensures
        encode_utf(chars@).len() <= 0xffff ==> r == Some(encode_utf(chars@).len() as usize),
        encode_utf(chars@).len() > 0xffff ==> r is None,
{
    let mut total: usize = 0;
    let mut i: usize = 0;
    assert(chars@.take(0) =~= Seq::<u16>::empty());
    while i < chars.len()
        invariant
            i <= chars@.len(), total <= 0xffff,
            total == encode_utf(chars@.take(i as int)).len(),
        decreases chars@.len() - i,
    {
        let unit = chars[i];
        let width: usize = if unit == 0 { 2 } else if unit <= 0x7f { 1 } else if unit <= 0x7ff { 2 } else { 3 };
        proof {
            lemma_encode_push(chars@.take(i as int), unit);
            assert(chars@.take(i + 1) =~= chars@.take(i as int).push(unit));
        }
        if total + width > 0xffff {
            proof { lemma_encode_prefix_len(chars@, i + 1); }
            return None;
        }
        total = total + width;
        i = i + 1;
    }
    assert(chars@.take(chars@.len() as int) =~= chars@);
    Some(total)
}

proof fn lemma_encode_prefix_len(chars: Seq<u16>, k: int)
    requires 0 <= k <= chars.len(),
    ensures encode_utf(chars.take(k)).len() <= encode_utf(chars).len(),
    decreases chars.len() - k,
{
    if k < chars.len() {
        lemma_encode_prefix_len(chars, k + 1);
        lemma_encode_push(chars.take(k), chars[k]);
        assert(chars.take(k + 1) =~= chars.take(k).push(chars[k]));
    } else {
        assert(chars.take(k) =~= chars);
    }
}

/// Reading big-endian bytes recovers the written value modulo `256^n`.
pub proof fn lemma_be_bytes_value(x: nat, n: nat)
    ensures be_value(be_bytes(x, n)) == (x as int) % byte_limit(n), be_bytes(x, n).len() == n,
    decreases n,
{
    if n > 0 {
        lemma_be_bytes_value(x / 256, (n - 1) as nat);
        let l = byte_limit((n - 1) as nat);
        lemma_byte_limit_monotone(0, (n - 1) as nat);
        assert(be_bytes(x, n).drop_last() =~= be_bytes(x / 256, (n - 1) as nat));
        vstd::arithmetic::div_mod::lemma_mod_breakdown(x as int, 256, l);
        assert((x as int) % (256 * l) == 256 * (((x / 256) as int) % l) + (x as int) % 256);
        assert(byte_limit(n) == 256 * l);
    }
}

/// A stream positioned at least `n` bytes before `count` hands out exactly
/// the next `n` bytes of its array and advances by `n`.
pub proof fn lemma_required_bytes_in_range(s: StreamView, n: nat)
    requires 0 <= s.pos, s.pos + n <= s.count, stream_wf(s),
    ensures
        required_bytes(s, n) == (Ok::<Seq<u8>, Failure>(s.buf.subrange(s.pos as int, s.pos + n)),
            StreamView { pos: (s.pos + n) as i32, ..s }),
    decreases n,
{
    if n > 0 {
        lemma_required_bytes_in_range(s, (n - 1) as nat);
        let mid = StreamView { pos: (s.pos + n - 1) as i32, ..s };
        super::lemma_wrap_i32_in_range(mid.pos + 1);
        let b = s.buf[s.pos + n - 1];
        assert(read_outcome(mid).0 == Ok::<i32, JavaError>(b as i32));
        assert(required_outcome(mid).0 == Ok::<u8, Failure>(b));
        assert(required_outcome(mid).1 == StreamView { pos: (s.pos + n) as i32, ..s });
        assert(s.buf.subrange(s.pos as int, s.pos + n - 1).push(s.buf[s.pos + n - 1])
            =~= s.buf.subrange(s.pos as int, s.pos + n));
    } else {
        assert(s.buf.subrange(s.pos as int, s.pos + n) =~= Seq::<u8>::empty());
    }
}

/// `writeInt` followed by `readInt` on a stream over the written bytes gives
/// the value back, and consumes exactly the four bytes.
pub proof fn lemma_int_round_trip(value: i32)
    ensures ({
        let bytes = be_bytes(value as u32 as nat, 4);
        let s = StreamView { buf: bytes, pos: 0, mark: 0, count: 4 };
        &&& required_bytes(s, 4).0 == Ok::<Seq<u8>, Failure>(bytes)
        &&& be_value(bytes) as i32 == value
        &&& required_bytes(s, 4).1.pos == 4
    }),
{
    let bytes = be_bytes(value as u32 as nat, 4);
    lemma_be_bytes_value(value as u32 as nat, 4);
    reveal_with_fuel(byte_limit, 5);
    let s = StreamView { buf: bytes, pos: 0, mark: 0, count: 4 };
    lemma_required_bytes_in_range(s, 4);
    assert(bytes.subrange(0, 4) =~= bytes);
    let u = value as u32;
    vstd::arithmetic::div_mod::lemma_small_mod(u as nat, 0x1_0000_0000);
    assert(((value as u32) as int) as i32 == value) by (bit_vector);
}

/// `writeShort` followed by `readShort` gives back the low sixteen bits as a
/// signed `short`.
pub proof fn lemma_short_round_trip(value: i32)
    ensures ({
        let bytes = be_bytes(value as u16 as nat, 2);
        let s = StreamView { buf: bytes, pos: 0, mark: 0, count: 2 };
        &&& required_bytes(s, 2).0 == Ok::<Seq<u8>, Failure>(bytes)
        &&& be_value(bytes) as i16 == value as i16
    }),
{
    let bytes = be_bytes(value as u16 as nat, 2);
    lemma_be_bytes_value(value as u16 as nat, 2);
    reveal_with_fuel(byte_limit, 3);
    let s = StreamView { buf: bytes, pos: 0, mark: 0, count: 2 };
    lemma_required_bytes_in_range(s, 2);
    assert(bytes.subrange(0, 2) =~= bytes);
    let u = value as u16;
    vstd::arithmetic::div_mod::lemma_small_mod(u as nat, 0x1_0000);
    assert(((value as u16) as int) as i16 == value as i16) by (bit_vector);
}

/// `writeLong` followed by `readLong` gives the value back.
pub proof fn lemma_long_round_trip(value: i64)
    ensures ({
        let bytes = be_bytes(value as u64 as nat, 8);
        let s = StreamView { buf: bytes, pos: 0, mark: 0, count: 8 };
        &&& read_fully_outcome(s, zeros(8)).0 == Ok::<(), Failure>(())
        &&& be_value(unsigned_bytes(read_fully_outcome(s, zeros(8)).2)) as i64 == value
    }),
{
    let bytes = be_bytes(value as u64 as nat, 8);
    lemma_be_bytes_value(value as u64 as nat, 8);
    reveal_with_fuel(byte_limit, 9);
    let s = StreamView { buf: bytes, pos: 0, mark: 0, count: 8 };
    let out = read_fully_outcome(s, zeros(8)).2;
    assert(unsigned_bytes(out) =~= bytes) by {
        assert forall|i: int| 0 <= i < 8 implies unsigned_bytes(out)[i] == bytes[i] by {
            let b = bytes[i];
            assert((b as i8) as u8 == b) by (bit_vector);
        }
    }
    let u = value as u64;
    vstd::arithmetic::div_mod::lemma_small_mod(u as nat, 0x1_0000_0000_0000_0000);
    assert(((value as u64) as int) as i64 == value) by (bit_vector);
}

/// `writeUTF` followed by `readUTF` on a stream over the written bytes gives
/// back the same UTF-16 code units (whenever the encoding fits the length
/// prefix, which is when `writeUTF` succeeds).
pub proof fn lemma_utf_stream_round_trip(chars: Seq<u16>)
    requires encode_utf(chars).len() <= 0xffff,
    ensures ({
        let written = be_bytes(encode_utf(chars).len(), 2) + encode_utf(chars);
        let s = StreamView { buf: written, pos: 0, mark: 0, count: written.len() as i32 };
        let (len, mid) = required_bytes(s, 2);
        &&& len matches Ok(b) && be_value(b) == encode_utf(chars).len()
        &&& read_fully_outcome(mid, zeros(encode_utf(chars).len())).0 == Ok::<(), Failure>(())
        &&& decode_utf(unsigned_bytes(read_fully_outcome(mid, zeros(encode_utf(chars).len())).2)) == Some(chars)
    }),
{
    let enc = encode_utf(chars);
    let n = enc.len();
    let header = be_bytes(n, 2);
    lemma_be_bytes_value(n, 2);
    reveal_with_fuel(byte_limit, 3);
    let written = header + enc;
    let s = StreamView { buf: written, pos: 0, mark: 0, count: written.len() as i32 };
    lemma_required_bytes_in_range(s, 2);
    assert(written.subrange(0, 2) =~= header);
    vstd::arithmetic::div_mod::lemma_small_mod(n, 0x1_0000);
    let mid = StreamView { pos: 2, ..s };
    assert(required_bytes(s, 2).1 == mid);
    let out = read_fully_outcome(mid, zeros(n)).2;
    if n == 0 {
        if chars.len() > 0 {
            assert(encode_unit(chars[0]).len() > 0);
            assert(false);
        }
        assert(chars =~= Seq::<u16>::empty());
        assert(unsigned_bytes(out) =~= Seq::<u8>::empty());
    } else {
        assert(mid.pos < mid.count);
        assert(out == copy_into(zeros(n), 0, written, 2, n as int));
    }
    assert(unsigned_bytes(out) =~= enc) by {
        assert forall|i: int| 0 <= i < n implies unsigned_bytes(out)[i] == enc[i] by {
            let b = enc[i];
            assert(written[2 + i] == b);
            assert((b as i8) as u8 == b) by (bit_vector);
        }
    }
    lemma_utf_round_trip(chars);
}

/// The bytes one code unit takes in modified UTF-8: two for `U+0000`, one
/// up to `0x7f`, two up to `0x7ff`, three above.
pub open spec fn unit_width(u: u16) -> nat {
    if u == 0 {
        2
    } else if u <= 0x7f {
        1
    } else if u <= 0x7ff {
        2
    } else {
        3
    }
}

/// The sum of the units' widths.
pub open spec fn utf_width(chars: Seq<u16>) -> nat
    decreases chars.len(),
{
    if chars.len() == 0 {
        0
    } else {
        unit_width(chars[0]) + utf_width(chars.drop_first())
    }
}

proof fn lemma_unit_bytes(u: u16)
    ensures
        encode_unit(u).len() == unit_width(u),
        forall|i: int| 0 <= i < encode_unit(u).len() ==> encode_unit(u)[i] != 0,
{
    assert((0x80u16 | (u & 0x3f)) as u8 != 0) by (bit_vector);
    assert((0x80u16 | ((u >> 6u16) & 0x3f)) as u8 != 0) by (bit_vector);
    if u == 0 {
    } else if u <= 0x7f {
        assert(u as u8 != 0) by (bit_vector)
            requires
                0 < u <= 0x7f,
        ;
    } else if u <= 0x7ff {
        assert((0xc0u16 | (u >> 6u16)) as u8 != 0) by (bit_vector)
            requires
                u <= 0x7ff,
        ;
    } else {
        assert((0xe0u16 | (u >> 12u16)) as u8 != 0) by (bit_vector);
    }
}

/// Modified UTF-8, as `writeUTF` writes it, holds no zero byte (so it is
/// safe in C strings), and its length is the sum of the units' widths.
pub proof fn lemma_utf_has_no_zero_byte(chars: Seq<u16>)
    ensures
        encode_utf(chars).len() == utf_width(chars),
        forall|i: int| 0 <= i < encode_utf(chars).len() ==> encode_utf(chars)[i] != 0,
    decreases chars.len(),
{
    if chars.len() > 0 {
        lemma_utf_has_no_zero_byte(chars.drop_first());
        lemma_unit_bytes(chars[0]);
        let a = encode_unit(chars[0]);
        let b = encode_utf(chars.drop_first());
        assert forall|i: int| 0 <= i < (a + b).len() implies (a + b)[i] != 0 by {
            if i >= a.len() {
                assert((a + b)[i] == b[i - a.len()]);
            }
        }
    }
}

} // verus!
