//! `java.lang.Math` integer helpers whose Java edges differ from naive Rust:
//! `Math.abs(Integer.MIN_VALUE) == Integer.MIN_VALUE` and `-MIN == MIN`.

use vstd::prelude::*;
use super::wrap_i32;

verus! {

/// `Math.max(int, int)`.
pub fn imax(left: i32, right: i32) -> (r: i32)
    ensures r == if left >= right { left } else { right },
{
    if left >= right { left } else { right }
}

/// `Math.min(int, int)`.
pub fn imin(left: i32, right: i32) -> (r: i32)
    ensures r == if left <= right { left } else { right },
{
    if left <= right { left } else { right }
}

/// `Math.abs(int)`: the negation wraps, so `abs(MIN) == MIN`.
pub fn iabs(value: i32) -> (r: i32)
    ensures r == if value >= 0 { value as int } else { wrap_i32(-value) },
{
    if value >= 0 { value } else { ineg(value) }
}

/// Unary `-` on an `int`, wrapping at `MIN`.
pub fn ineg(value: i32) -> (r: i32)
    ensures r == wrap_i32(-value),
{
    0i32.wrapping_sub(value)
}

/// `Math.abs` agrees with its mathematical meaning everywhere except at
/// `Integer.MIN_VALUE`, which it maps to itself.
pub proof fn lemma_iabs_edges(value: i32)
    ensures
        value != i32::MIN ==> (if value >= 0 { value as int } else { wrap_i32(-value) }) == super::abs(value as int),
        value == i32::MIN ==> wrap_i32(-value) == i32::MIN,
{
}

} // verus!
