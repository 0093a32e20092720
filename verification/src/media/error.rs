//! Structural errors of the byte-level audio readers.

use vstd::prelude::*;

verus! {

#[derive(Debug, Clone, PartialEq, Eq)]
pub enum Error {
    UnexpectedEof { offset: usize, needed: usize, remaining: usize },
    NegativeCount { offset: usize, field: &'static str, value: i64 },
    InvalidUtf8 { offset: usize, field: &'static str },
    InvalidMagic { format: &'static str },
    InvalidValue { offset: usize, field: &'static str, value: u64 },
    MissingTerminator { offset: usize, field: &'static str },
    ChecksumMismatch { offset: usize, stored: u32, computed: u32 },
    Decompression { offset: usize },
    LengthMismatch { declared: usize, actual: usize },
    TrailingBytes { offset: usize, remaining: usize },
}

} // verus!
