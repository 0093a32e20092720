//! Bounded, allocation-free primitives for game-specific wire decoders: a
//! cursor over a byte slice that reads fixed-width integers in either byte
//! order and never moves when a read fails.

use vstd::prelude::*;

verus! {

#[derive(Clone, Copy, Debug, Eq, PartialEq, Structural)]
pub enum DecodeError {
    UnexpectedEof { offset: usize, needed: usize },
    LengthOverflow,
    TrailingData { offset: usize, remaining: usize },
}

#[derive(Clone, Copy, Debug, Eq, PartialEq)]
pub struct Reader<'a> {
    bytes: &'a [u8],
    offset: usize,
}

/// Big-endian value of two bytes.
pub open spec fn be16(b0: u8, b1: u8) -> int {
    b0 * 256 + b1
}

/// Big-endian value of four bytes.
pub open spec fn be32(b0: u8, b1: u8, b2: u8, b3: u8) -> int {
    b0 * 0x1000000 + b1 * 0x10000 + b2 * 0x100 + b3
}

/// Two's-complement reinterpretation of an unsigned value of `bits` bits.
pub open spec fn signed_of(value: int, bits: nat) -> int {
    if value >= vstd::arithmetic::power2::pow2((bits - 1) as nat) {
        value - vstd::arithmetic::power2::pow2(bits)
    } else {
        value
    }
}

impl<'a> Reader<'a> {
    /// The whole input.
    pub closed spec fn data(&self) -> Seq<u8> {
        self.bytes@
    }

    /// The cursor.
    pub closed spec fn cursor(&self) -> int {
        self.offset as int
    }

    /// The cursor never passes the end of the input.
    pub open spec fn wf(&self) -> bool {
        0 <= self.cursor() <= self.data().len()
    }

    /// The error a read of `needed` bytes at the cursor fails with when it
    /// does not fit.
    pub open spec fn short_read(&self, needed: int) -> DecodeError {
        if self.cursor() + needed > usize::MAX {
            DecodeError::LengthOverflow
        } else {
            DecodeError::UnexpectedEof { offset: self.cursor() as usize, needed: needed as usize }
        }
    }

    /// Whether `needed` more bytes remain.
    pub open spec fn fits(&self, needed: int) -> bool {
        self.cursor() + needed <= self.data().len()
    }

    /// The byte `i` places past the cursor.
    pub open spec fn ahead(&self, i: int) -> u8 {
        self.data()[self.cursor() + i]
    }

    /// What every failed read guarantees: the error, and an unmoved cursor.
    pub open spec fn failed_read(old_reader: Self, new_reader: Self, needed: int, e: DecodeError) -> bool {
        &&& !old_reader.fits(needed)
        &&& e == old_reader.short_read(needed)
        &&& new_reader == old_reader
    }

    /// What every successful read guarantees: the cursor moved by `needed`.
    pub open spec fn advanced(old_reader: Self, new_reader: Self, needed: int) -> bool {
        &&& old_reader.fits(needed)
        &&& new_reader.data() == old_reader.data()
        &&& new_reader.cursor() == old_reader.cursor() + needed
        &&& new_reader.wf()
    }

    pub fn new(bytes: &'a [u8]) -> (r: Self)
        ensures
            r.wf(),
            r.data() == bytes@,
            r.cursor() == 0,
    {
        Self { bytes, offset: 0 }
    }

    pub fn position(&self) -> (r: usize)
        ensures
            r == self.cursor(),
    {
        self.offset
    }

    pub fn remaining(&self) -> (r: usize)
        requires
            self.wf(),
        ensures
            r == self.data().len() - self.cursor(),
    {
        self.bytes.len() - self.offset
    }

    /// The next `length` bytes, borrowed from the input.
    pub fn read_exact(&mut self, length: usize) -> (r: Result<&'a [u8], DecodeError>)
        requires
            old(self).wf(),
        ensures
            r is Ok <==> old(self).fits(length as int),
            r matches Ok(s) ==> Self::advanced(*old(self), *final(self), length as int)
                && s@ == old(self).data().subrange(old(self).cursor(), old(self).cursor() + length),
            r matches Err(e) ==> Self::failed_read(*old(self), *final(self), length as int, e),
    {
        let len = self.bytes.len();
        let end = match self.offset.checked_add(length) {
            Some(end) => end,
            None => return Err(DecodeError::LengthOverflow),
        };
        if end > len {
            return Err(DecodeError::UnexpectedEof { offset: self.offset, needed: length });
        }
        let value = vstd::slice::slice_subrange(self.bytes, self.offset, end);
        self.offset = end;
        Ok(value)
    }

    pub fn read_u8(&mut self) -> (r: Result<u8, DecodeError>)
        requires
            old(self).wf(),
        ensures
            r is Ok <==> old(self).fits(1),
            r matches Ok(v) ==> Self::advanced(*old(self), *final(self), 1) && v == old(self).ahead(0),
            r matches Err(e) ==> Self::failed_read(*old(self), *final(self), 1, e),
    {
        let bytes = self.read_exact(1)?;
        Ok(bytes[0])
    }

    pub fn read_i8(&mut self) -> (r: Result<i8, DecodeError>)
        requires
            old(self).wf(),
        ensures
            r is Ok <==> old(self).fits(1),
            r matches Ok(v) ==> Self::advanced(*old(self), *final(self), 1)
                && v == signed_of(old(self).ahead(0) as int, 8),
            r matches Err(e) ==> Self::failed_read(*old(self), *final(self), 1, e),
    {
        let byte = self.read_u8()?;
        proof {
            vstd::arithmetic::power2::lemma2_to64();
        }
        if byte >= 128 {
            Ok((byte as i16 - 256) as i8)
        } else {
            Ok(byte as i8)
        }
    }

    pub fn read_u16_be(&mut self) -> (r: Result<u16, DecodeError>)
        requires
            old(self).wf(),
        ensures
            r is Ok <==> old(self).fits(2),
            r matches Ok(v) ==> Self::advanced(*old(self), *final(self), 2)
                && v == be16(old(self).ahead(0), old(self).ahead(1)),
            r matches Err(e) ==> Self::failed_read(*old(self), *final(self), 2, e),
    {
        let bytes = self.read_exact(2)?;
        Ok(bytes[0] as u16 * 256 + bytes[1] as u16)
    }

    pub fn read_i16_be(&mut self) -> (r: Result<i16, DecodeError>)
        requires
            old(self).wf(),
        ensures
            r is Ok <==> old(self).fits(2),
            r matches Ok(v) ==> Self::advanced(*old(self), *final(self), 2)
                && v == signed_of(be16(old(self).ahead(0), old(self).ahead(1)), 16),
            r matches Err(e) ==> Self::failed_read(*old(self), *final(self), 2, e),
    {
        let value = self.read_u16_be()?;
        proof {
            vstd::arithmetic::power2::lemma2_to64();
        }
        Ok(to_i16(value))
    }

    pub fn read_i32_be(&mut self) -> (r: Result<i32, DecodeError>)
        requires
            old(self).wf(),
        ensures
            r is Ok <==> old(self).fits(4),
            r matches Ok(v) ==> Self::advanced(*old(self), *final(self), 4)
                && v == signed_of(
                be32(old(self).ahead(0), old(self).ahead(1), old(self).ahead(2), old(self).ahead(3)),
                32,
            ),
            r matches Err(e) ==> Self::failed_read(*old(self), *final(self), 4, e),
    {
        let value = self.read_u32_be()?;
        proof {
            vstd::arithmetic::power2::lemma2_to64();
        }
        if value >= 0x8000_0000 {
            Ok((value as i64 - 0x1_0000_0000i64) as i32)
        } else {
            Ok(value as i32)
        }
    }

    pub fn read_u32_be(&mut self) -> (r: Result<u32, DecodeError>)
        requires
            old(self).wf(),
        ensures
            r is Ok <==> old(self).fits(4),
            r matches Ok(v) ==> Self::advanced(*old(self), *final(self), 4)
                && v == be32(old(self).ahead(0), old(self).ahead(1), old(self).ahead(2), old(self).ahead(3)),
            r matches Err(e) ==> Self::failed_read(*old(self), *final(self), 4, e),
    {
        let bytes = self.read_exact(4)?;
        Ok(bytes[0] as u32 * 0x1000000 + bytes[1] as u32 * 0x10000 + bytes[2] as u32 * 0x100
            + bytes[3] as u32)
    }

    /// Little-endian `u16`. Some handset serializers hand-roll little-endian
    /// headers (e.g. `low + (high << 8)`) even though `DataInputStream` is
    /// big-endian, so both orders are needed across the corpus.
    pub fn read_u16_le(&mut self) -> (r: Result<u16, DecodeError>)
        requires
            old(self).wf(),
        ensures
            r is Ok <==> old(self).fits(2),
            r matches Ok(v) ==> Self::advanced(*old(self), *final(self), 2)
                && v == be16(old(self).ahead(1), old(self).ahead(0)),
            r matches Err(e) ==> Self::failed_read(*old(self), *final(self), 2, e),
    {
        let bytes = self.read_exact(2)?;
        Ok(bytes[1] as u16 * 256 + bytes[0] as u16)
    }

    pub fn read_i16_le(&mut self) -> (r: Result<i16, DecodeError>)
        requires
            old(self).wf(),
        ensures
            r is Ok <==> old(self).fits(2),
            r matches Ok(v) ==> Self::advanced(*old(self), *final(self), 2)
                && v == signed_of(be16(old(self).ahead(1), old(self).ahead(0)), 16),
            r matches Err(e) ==> Self::failed_read(*old(self), *final(self), 2, e),
    {
        let value = self.read_u16_le()?;
        proof {
            vstd::arithmetic::power2::lemma2_to64();
        }
        Ok(to_i16(value))
    }

    /// Advance the cursor by `count` bytes, failing (without moving) if fewer
    /// remain — useful for walking a directory-addressed archive by skipping
    /// prior entries.
    pub fn skip(&mut self, count: usize) -> (r: Result<(), DecodeError>)
        requires
            old(self).wf(),
        ensures
            r is Ok <==> old(self).fits(count as int),
            r is Ok ==> Self::advanced(*old(self), *final(self), count as int),
            r matches Err(e) ==> Self::failed_read(*old(self), *final(self), count as int, e),
    {
        match self.read_exact(count) {
            Ok(_) => Ok(()),
            Err(e) => Err(e),
        }
    }

    /// Move the cursor to an absolute `offset`, failing (without moving) if it
    /// is past the end of the input.
    pub fn seek(&mut self, offset: usize) -> (r: Result<(), DecodeError>)
        requires
            old(self).wf(),
        ensures
            r is Ok <==> offset <= old(self).data().len(),
            r is Ok ==> final(self).data() == old(self).data() && final(self).cursor() == offset
                && final(self).wf(),
            r matches Err(e) ==> *final(self) == *old(self) && e == (DecodeError::UnexpectedEof {
                offset: old(self).cursor() as usize,
                needed: (offset - old(self).data().len()) as usize,
            }),
    {
        if offset > self.bytes.len() {
            return Err(DecodeError::UnexpectedEof { offset: self.offset, needed: offset - self.bytes.len() });
        }
        self.offset = offset;
        Ok(())
    }

    /// Succeeds exactly when the whole input has been consumed.
    pub fn finish(self) -> (r: Result<(), DecodeError>)
        requires
            self.wf(),
        ensures
            r is Ok <==> self.cursor() == self.data().len(),
            r matches Err(e) ==> e == (DecodeError::TrailingData {
                offset: self.cursor() as usize,
                remaining: (self.data().len() - self.cursor()) as usize,
            }),
    {
        if self.remaining() == 0 {
            Ok(())
        } else {
            Err(DecodeError::TrailingData { offset: self.offset, remaining: self.remaining() })
        }
    }
}

fn to_i16(value: u16) -> (r: i16)
    ensures
        r == (if value >= 0x8000 { value - 0x10000 } else { value as int }),
{
    if value >= 0x8000 {
        (value as i32 - 0x10000) as i16
    } else {
        value as i16
    }
}

/// A read that fits leaves the reader well formed with the cursor exactly
/// `needed` further on, and a read that does not fit changes nothing; so a
/// sequence of reads consumes the input front to back without gaps.
pub proof fn lemma_reads_compose(a: Reader, b: Reader, c: Reader, n: int, m: int)
    requires
        a.wf(),
        n >= 0,
        m >= 0,
        Reader::advanced(a, b, n),
        Reader::advanced(b, c, m),
    ensures
        Reader::advanced(a, c, n + m),
{
}

} // verus!
