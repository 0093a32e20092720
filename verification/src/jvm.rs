//! JVM primitive semantics: wrapping arithmetic, division, shifts, narrowing
//! casts, checked array access and deterministic clocks.
//!
//! Two spellings of the same semantics are offered: the `i32_*`/`i64_*`
//! surface and the bytecode-mnemonic one (`ishl`, `java_div`, ...). The proof
//! functions at the end of this file show that both spellings agree.

pub mod array;
pub mod io;
pub mod object;
pub mod math;
pub mod parse;
pub mod random;
pub mod thread;

use vstd::prelude::*;
use crate::text::{decimal_spec, with_decimal};

verus! {

/// A thrown Java exception, as far as the runtime layers model them.
#[derive(Debug, Clone, PartialEq, Eq)]
pub enum JavaError {
    NullPointer,
    IndexOutOfBounds,
    ArrayIndexOutOfBounds { index: i32, length: i32 },
    NegativeArraySize { length: i32 },
    Arithmetic,
    IllegalArgument(&'static str),
    IllegalState(&'static str),
    IllegalThreadState,
    ClassCast,
    Io(String),
    ConnectionNotFound(String),
    RecordStore(String),
    Media(String),
}

pub type JavaResult<T> = Result<T, JavaError>;

/// The text a Java exception prints as: its class name, then its detail.
pub open spec fn error_text(e: JavaError) -> Seq<char> {
    match e {
        JavaError::NullPointer => "NullPointerException"@,
        JavaError::IndexOutOfBounds => "IndexOutOfBoundsException"@,
        JavaError::ArrayIndexOutOfBounds { index, length } => "ArrayIndexOutOfBoundsException: index "@
            + decimal_spec(index as int) + ", length "@ + decimal_spec(length as int),
        JavaError::NegativeArraySize { length } => "NegativeArraySizeException: length "@ + decimal_spec(length as int),
        JavaError::Arithmetic => "ArithmeticException"@,
        JavaError::IllegalArgument(m) => "IllegalArgumentException: "@ + m@,
        JavaError::IllegalState(m) => "IllegalStateException: "@ + m@,
        JavaError::IllegalThreadState => "IllegalThreadStateException"@,
        JavaError::ClassCast => "ClassCastException"@,
        JavaError::Io(m) => "IOException: "@ + m@,
        JavaError::ConnectionNotFound(m) => "ConnectionNotFoundException: "@ + m@,
        JavaError::RecordStore(m) => "RecordStoreException: "@ + m@,
        JavaError::Media(m) => "MediaException: "@ + m@,
    }
}

impl JavaError {
    /// The text the exception prints as.
    pub fn message(&self) -> (r: String)
        ensures
            r@ == error_text(*self),
    {
        match self {
            JavaError::NullPointer => String::from_str("NullPointerException"),
            JavaError::IndexOutOfBounds => String::from_str("IndexOutOfBoundsException"),
            JavaError::ArrayIndexOutOfBounds { index, length } => {
                let mut r = with_decimal("ArrayIndexOutOfBoundsException: index ", *index as i64);
                let tail = with_decimal(", length ", *length as i64);
                r.append(tail.as_str());
                r
            },
            JavaError::NegativeArraySize { length } => with_decimal(
                "NegativeArraySizeException: length ",
                *length as i64,
            ),
            JavaError::Arithmetic => String::from_str("ArithmeticException"),
            JavaError::IllegalArgument(m) => String::from_str("IllegalArgumentException: ").concat(m),
            JavaError::IllegalState(m) => String::from_str("IllegalStateException: ").concat(m),
            JavaError::IllegalThreadState => String::from_str("IllegalThreadStateException"),
            JavaError::ClassCast => String::from_str("ClassCastException"),
            JavaError::Io(m) => String::from_str("IOException: ").concat(m.as_str()),
            JavaError::ConnectionNotFound(m) => String::from_str("ConnectionNotFoundException: ").concat(m.as_str()),
            JavaError::RecordStore(m) => String::from_str("RecordStoreException: ").concat(m.as_str()),
            JavaError::Media(m) => String::from_str("MediaException: ").concat(m.as_str()),
        }
    }
}

/// Reduces a mathematical integer into the two's-complement `int` range.
pub open spec fn wrap_i32(x: int) -> int {
    let m = x % 0x1_0000_0000;
    if m > 0x7fff_ffff { m - 0x1_0000_0000 } else { m }
}

/// Reduces a mathematical integer into the two's-complement `long` range.
pub open spec fn wrap_i64(x: int) -> int {
    let m = x % 0x1_0000_0000_0000_0000;
    if m > 0x7fff_ffff_ffff_ffff { m - 0x1_0000_0000_0000_0000 } else { m }
}

pub open spec fn abs(a: int) -> int {
    if a < 0 { -a } else { a }
}

/// Java integer division on mathematical integers: rounds toward zero.
pub open spec fn trunc_div(a: int, b: int) -> int {
    let q = abs(a) / abs(b);
    if (a < 0) != (b < 0) { -q } else { q }
}

/// Java integer remainder: its sign follows the dividend.
pub open spec fn trunc_rem(a: int, b: int) -> int {
    a - b * trunc_div(a, b)
}

/// What `idiv` yields: `ArithmeticException` on a zero divisor, otherwise the
/// truncated quotient wrapped into `int` (so `MIN / -1 == MIN`).
pub open spec fn java_idiv(a: i32, b: i32) -> JavaResult<i32> {
    if b == 0 { Err(JavaError::Arithmetic) } else { Ok(wrap_i32(trunc_div(a as int, b as int)) as i32) }
}

pub open spec fn java_irem(a: i32, b: i32) -> JavaResult<i32> {
    if b == 0 { Err(JavaError::Arithmetic) } else { Ok(trunc_rem(a as int, b as int) as i32) }
}

pub open spec fn java_ldiv_spec(a: i64, b: i64) -> JavaResult<i64> {
    if b == 0 { Err(JavaError::Arithmetic) } else { Ok(wrap_i64(trunc_div(a as int, b as int)) as i64) }
}

pub open spec fn java_lrem_spec(a: i64, b: i64) -> JavaResult<i64> {
    if b == 0 { Err(JavaError::Arithmetic) } else { Ok(trunc_rem(a as int, b as int) as i64) }
}

/// `ishl`: the distance is masked to its low five bits.
pub open spec fn spec_ishl(value: i32, distance: i32) -> i32 {
    value << ((distance & 31) as u32)
}

pub open spec fn spec_ishr(value: i32, distance: i32) -> i32 {
    value >> ((distance & 31) as u32)
}

/// `iushr`: shift the unsigned bit pattern, zero-filling from the left.
pub open spec fn spec_iushr(value: i32, distance: i32) -> i32 {
    ((value as u32) >> ((distance & 31) as u32)) as i32
}

pub open spec fn spec_lshl(value: i64, distance: i32) -> i64 {
    value << ((distance & 63) as u32)
}

pub open spec fn spec_lshr(value: i64, distance: i32) -> i64 {
    value >> ((distance & 63) as u32)
}

pub open spec fn spec_lushr(value: i64, distance: i32) -> i64 {
    ((value as u64) >> ((distance & 63) as u32)) as i64
}

pub(crate) proof fn lemma_wrap_i32_in_range(x: int)
    requires i32::MIN <= x <= i32::MAX,
    ensures wrap_i32(x) == x,
{
}

pub(crate) proof fn lemma_wrap_i64_in_range(x: int)
    requires i64::MIN <= x <= i64::MAX,
    ensures wrap_i64(x) == x,
{
}

pub fn i32_add(left: i32, right: i32) -> (r: i32)
    ensures r == wrap_i32(left + right),
{
    left.wrapping_add(right)
}

pub fn i32_sub(left: i32, right: i32) -> (r: i32)
    ensures r == wrap_i32(left - right),
{
    left.wrapping_sub(right)
}

pub fn i32_mul(left: i32, right: i32) -> (r: i32)
    ensures r == wrap_i32(left * right),
{
    left.wrapping_mul(right)
}

pub fn i64_add(left: i64, right: i64) -> (r: i64)
    ensures r == wrap_i64(left + right),
{
    left.wrapping_add(right)
}

pub fn i64_sub(left: i64, right: i64) -> (r: i64)
    ensures r == wrap_i64(left - right),
{
    left.wrapping_sub(right)
}

pub fn i64_mul(left: i64, right: i64) -> (r: i64)
    ensures r == wrap_i64(left * right),
{
    left.wrapping_mul(right)
}

fn i32_quotient(left: i32, right: i32) -> (r: i32)
    requires right != 0,
    ensures r == wrap_i32(trunc_div(left as int, right as int)),
{
    if left == i32::MIN && right == -1 {
        proof { lemma_trunc_div_bounds(left as int, right as int); }
        i32::MIN
    } else {
        let q = left.checked_div(right);
        proof {
            let t = trunc_div(left as int, right as int);
            lemma_trunc_div_bounds(left as int, right as int);
            assert(i32::MIN <= t <= i32::MAX);
            lemma_wrap_i32_in_range(t);
        }
        q.unwrap()
    }
}

fn i64_quotient(left: i64, right: i64) -> (r: i64)
    requires right != 0,
    ensures r == wrap_i64(trunc_div(left as int, right as int)),
{
    if left == i64::MIN && right == -1 {
        proof { lemma_trunc_div_bounds(left as int, right as int); }
        i64::MIN
    } else {
        let q = left.checked_div(right);
        proof {
            let t = trunc_div(left as int, right as int);
            lemma_trunc_div_bounds(left as int, right as int);
            assert(i64::MIN <= t <= i64::MAX);
            lemma_wrap_i64_in_range(t);
        }
        q.unwrap()
    }
}

proof fn lemma_trunc_div_bounds(a: int, b: int)
    requires b != 0,
    ensures abs(trunc_div(a, b)) <= abs(a), b == -1 ==> trunc_div(a, b) == -a,
        abs(b) >= 2 ==> 2 * abs(trunc_div(a, b)) <= abs(a),
{
    if abs(b) >= 2 {
        assert(2 * (abs(a) / abs(b)) <= abs(a)) by (nonlinear_arith)
            requires abs(b) >= 2, abs(a) >= 0;
    }
    assert(abs(a) / abs(b) <= abs(a)) by (nonlinear_arith)
        requires abs(b) >= 1, abs(a) >= 0;
    if b == -1 {
        assert(abs(a) / 1 == abs(a));
    }
}

proof fn lemma_trunc_rem_formula(x: int, d: int)
    requires d != 0,
    ensures trunc_rem(x, d) == (if x == 0 {
            0
        } else if x > 0 && d > 0 {
            x % d
        } else if x < 0 && d < 0 {
            ((x * -1) % (d * -1)) * -1
        } else if x < 0 {
            ((x * -1) % d) * -1
        } else {
            x % (d * -1)
        }),
{
    let ax = abs(x);
    let ad = abs(d);
    let q = ax / ad;
    assert(ax % ad == ax - ad * q) by (nonlinear_arith)
        requires ad > 0, q == ax / ad;
    if x == 0 {
        assert(q == 0);
    } else if x > 0 && d > 0 {
        assert(trunc_rem(x, d) == x - d * q);
    } else if x < 0 && d < 0 {
        assert(x * -1 == ax && d * -1 == ad);
        assert(x - d * q == (ax - ad * q) * -1) by (nonlinear_arith)
            requires ax == -x, ad == -d;
    } else if x < 0 {
        assert(x * -1 == ax && d == ad);
        assert(trunc_rem(x, d) == x - d * (-q));
        assert(x - d * (-q) == (ax - ad * q) * -1) by (nonlinear_arith)
            requires ax == -x, ad == d;
    } else {
        assert(x == ax && d * -1 == ad);
        assert(trunc_rem(x, d) == x - d * (-q));
        assert(x - d * (-q) == ax - ad * q) by (nonlinear_arith)
            requires ax == x, ad == -d;
    }
}

proof fn lemma_trunc_rem_bounds(a: int, b: int)
    requires b != 0,
    ensures abs(trunc_rem(a, b)) < abs(b), abs(trunc_rem(a, b)) <= abs(a),
        trunc_rem(a, b) == 0 || ((trunc_rem(a, b) < 0) == (a < 0)),
{
    let q = abs(a) / abs(b);
    let r = abs(a) % abs(b);
    assert(abs(a) == abs(b) * q + r && 0 <= r < abs(b)) by (nonlinear_arith)
        requires abs(b) > 0, abs(a) >= 0, q == abs(a) / abs(b), r == abs(a) % abs(b);
    if a < 0 && b < 0 {
        assert(trunc_rem(a, b) == a - b * q);
        assert(a - b * q == -(abs(a) - abs(b) * q)) by (nonlinear_arith)
            requires a < 0, b < 0, abs(a) == -a, abs(b) == -b;
    } else if a < 0 {
        assert(trunc_rem(a, b) == a - b * (-q));
        assert(a - b * (-q) == -(abs(a) - abs(b) * q)) by (nonlinear_arith)
            requires a < 0, b > 0, abs(a) == -a, abs(b) == b;
    } else if b < 0 {
        assert(trunc_rem(a, b) == a - b * (-q));
        assert(a - b * (-q) == abs(a) - abs(b) * q) by (nonlinear_arith)
            requires a >= 0, b < 0, abs(a) == a, abs(b) == -b;
    } else {
        assert(trunc_rem(a, b) == a - b * q);
    }
}

fn i32_remainder(left: i32, right: i32) -> (r: i32)
    requires right != 0,
    ensures r == trunc_rem(left as int, right as int),
{
    if left == i32::MIN && right == -1 {
        proof {
            lemma_trunc_div_bounds(left as int, right as int);
            assert(trunc_rem(left as int, right as int) == left - (-1) * (-(left as int)));
        }
        0
    } else {
        let q = left.checked_rem(right);
        proof {
            lemma_trunc_rem_bounds(left as int, right as int);
            lemma_trunc_rem_formula(left as int, right as int);
        }
        q.unwrap()
    }
}

fn i64_remainder(left: i64, right: i64) -> (r: i64)
    requires right != 0,
    ensures r == trunc_rem(left as int, right as int),
{
    if left == i64::MIN && right == -1 {
        proof {
            lemma_trunc_div_bounds(left as int, right as int);
            assert(trunc_rem(left as int, right as int) == left - (-1) * (-(left as int)));
        }
        0
    } else {
        let q = left.checked_rem(right);
        proof {
            lemma_trunc_rem_bounds(left as int, right as int);
            lemma_trunc_rem_formula(left as int, right as int);
        }
        q.unwrap()
    }
}

pub fn i32_div(left: i32, right: i32) -> (r: JavaResult<i32>)
    ensures r == java_idiv(left, right),
{
    if right == 0 { Err(JavaError::Arithmetic) } else { Ok(i32_quotient(left, right)) }
}

pub fn i32_rem(left: i32, right: i32) -> (r: JavaResult<i32>)
    ensures r == java_irem(left, right),
{
    if right == 0 { Err(JavaError::Arithmetic) } else { Ok(i32_remainder(left, right)) }
}

pub fn i64_div(left: i64, right: i64) -> (r: JavaResult<i64>)
    ensures r == java_ldiv_spec(left, right),
{
    if right == 0 { Err(JavaError::Arithmetic) } else { Ok(i64_quotient(left, right)) }
}

pub fn i64_rem(left: i64, right: i64) -> (r: JavaResult<i64>)
    ensures r == java_lrem_spec(left, right),
{
    if right == 0 { Err(JavaError::Arithmetic) } else { Ok(i64_remainder(left, right)) }
}


pub fn i32_shl(value: i32, distance: i32) -> (r: i32)
    ensures r == spec_ishl(value, distance),
{
    let d = (distance & 31) as u32;
    assert(d % 32 == d) by (bit_vector) requires d == (distance & 31) as u32;
    value.wrapping_shl(d)
}

pub fn i32_shr(value: i32, distance: i32) -> (r: i32)
    ensures r == spec_ishr(value, distance),
{
    let d = (distance & 31) as u32;
    assert(d % 32 == d) by (bit_vector) requires d == (distance & 31) as u32;
    value.wrapping_shr(d)
}

pub fn i32_ushr(value: i32, distance: i32) -> (r: i32)
    ensures r == spec_iushr(value, distance),
{
    let d = (distance & 31) as u32;
    assert(d < 32) by (bit_vector) requires d == (distance & 31) as u32;
    ((value as u32) >> d) as i32
}

pub fn i64_shl(value: i64, distance: i32) -> (r: i64)
    ensures r == spec_lshl(value, distance),
{
    let d = (distance & 63) as u32;
    assert(d % 64 == d) by (bit_vector) requires d == (distance & 63) as u32;
    value.wrapping_shl(d)
}

pub fn i64_shr(value: i64, distance: i32) -> (r: i64)
    ensures r == spec_lshr(value, distance),
{
    let d = (distance & 63) as u32;
    assert(d % 64 == d) by (bit_vector) requires d == (distance & 63) as u32;
    value.wrapping_shr(d)
}

pub fn i64_ushr(value: i64, distance: i32) -> (r: i64)
    ensures r == spec_lushr(value, distance),
{
    let d = (distance & 63) as u32;
    assert(d < 64) by (bit_vector) requires d == (distance & 63) as u32;
    ((value as u64) >> d) as i64
}

/// `i2b`: keep the low eight bits, reinterpreted as signed.
pub fn narrow_byte(value: i32) -> (r: i8)
    ensures r == value as i8,
{
    value as i8
}

/// `i2s`: keep the low sixteen bits, reinterpreted as signed.
pub fn narrow_short(value: i32) -> (r: i16)
    ensures r == value as i16,
{
    value as i16
}

/// `i2c`: keep the low sixteen bits as an unsigned UTF-16 code unit.
pub fn narrow_char(value: i32) -> (r: u16)
    ensures r == value as u16,
{
    value as u16
}

/// `newarray int`: a zero-filled array, or `NegativeArraySizeException`.
pub fn new_i32_array(length: i32) -> (r: JavaResult<Vec<i32>>)
    ensures
        length < 0 ==> r == Err::<Vec<i32>, JavaError>(JavaError::NegativeArraySize { length }),
        length >= 0 ==> (r matches Ok(v) && v@ == Seq::new(length as nat, |i: int| 0i32)),
{
    if length < 0 {
        Err(JavaError::NegativeArraySize { length })
    } else {
        let v = vec![0i32; length as usize];
        assert(v@ == Seq::new(length as nat, |i: int| 0i32));
        Ok(v)
    }
}

/// The exception Java raises for an array access at `index` into an array of
/// `len` elements, or `None` when the access is in bounds.
pub open spec fn bounds_failure(index: i32, len: nat) -> Option<JavaError> {
    if index < 0 || index >= len as i32 {
        Some(JavaError::ArrayIndexOutOfBounds { index, length: len as i32 })
    } else {
        None
    }
}

/// A length truncated to `int` never exceeds the real length when it is
/// non-negative, so an index below it is in bounds.
proof fn lemma_truncated_length(len: usize)
    ensures (len as i32) >= 0 ==> (len as i32) as int <= len as int,
{
    assert((len as i32) >= 0 ==> ((len as i32) as usize) <= len) by (bit_vector);
}

/// Element read with Java's null check followed by the signed bounds check.
pub fn array_ref<T>(values: Option<&[T]>, index: i32) -> (r: JavaResult<&T>)
    ensures
        values is None ==> r == Err::<&T, JavaError>(JavaError::NullPointer),
        values matches Some(v) ==> match bounds_failure(index, v@.len()) {
            Some(e) => r == Err::<&T, JavaError>(e),
            None => r matches Ok(x) && 0 <= index < v@.len() && *x == v@[index as int],
        },
{
    match values {
        None => Err(JavaError::NullPointer),
        Some(values) => java_array_ref(values, index),
    }
}

/// Slice-typed element read with Java's signed-index bounds check.
pub fn java_array_ref<T>(values: &[T], index: i32) -> (r: JavaResult<&T>)
    ensures
        match bounds_failure(index, values@.len()) {
            Some(e) => r == Err::<&T, JavaError>(e),
            None => r matches Ok(x) && 0 <= index < values@.len() && *x == values@[index as int],
        },
{
    let length = values.len() as i32;
    if index < 0 || index >= length {
        Err(JavaError::ArrayIndexOutOfBounds { index, length })
    } else {
        proof { lemma_truncated_length(values@.len() as usize); }
        Ok(&values[index as usize])
    }
}


/// Mutable element access with Java's signed-index bounds check.
pub fn java_array_mut<T>(values: &mut [T], index: i32) -> (r: JavaResult<&mut T>)
    ensures
        match bounds_failure(index, old(values)@.len()) {
            Some(e) => r == Err::<&mut T, JavaError>(e) && final(values)@ == old(values)@,
            None => r matches Ok(x) && 0 <= index < old(values)@.len() && *x == old(values)@[index as int]
                && final(values)@ == old(values)@.update(index as int, *final(x)),
        },
{
    let length = values.len() as i32;
    if index < 0 || index >= length {
        Err(JavaError::ArrayIndexOutOfBounds { index, length })
    } else {
        proof { lemma_truncated_length(values@.len() as usize); }
        Ok(&mut values[index as usize])
    }
}


/// Mutable element access with Java's null check before the bounds check.
pub fn array_mut<T>(values: Option<&mut [T]>, index: i32) -> (r: JavaResult<&mut T>)
    ensures
        values is None ==> r == Err::<&mut T, JavaError>(JavaError::NullPointer),
        values is Some ==> match bounds_failure(index, (*values->Some_0)@.len()) {
            Some(e) => r == Err::<&mut T, JavaError>(e) && (*final(values->Some_0))@ == (*values->Some_0)@,
            None => r matches Ok(x) && 0 <= index < (*values->Some_0)@.len()
                && *x == (*values->Some_0)@[index as int]
                && (*final(values->Some_0))@ == (*values->Some_0)@.update(index as int, *final(x)),
        },
{
    match values {
        None => Err(JavaError::NullPointer),
        Some(values) => java_array_mut(values, index),
    }
}


/// The outcome of `values[first][second]` on a two-dimensional Java array: the
/// outer index is checked before the inner one, as the JVM does.
pub open spec fn bounds_failure_2d<T>(values: Seq<Vec<T>>, first: i32, second: i32) -> Option<JavaError> {
    match bounds_failure(first, values.len()) {
        Some(e) => Some(e),
        None => bounds_failure(second, values[first as int]@.len()),
    }
}

/// Mutable access into a two-dimensional array, outer dimension first.
pub fn java_array_2d_mut<T>(values: &mut [Vec<T>], first: i32, second: i32) -> (r: JavaResult<&mut T>)
    ensures
        match bounds_failure_2d(old(values)@, first, second) {
            Some(e) => r == Err::<&mut T, JavaError>(e) && final(values)@ == old(values)@,
            None => r matches Ok(x) && 0 <= first < old(values)@.len()
                && 0 <= second < old(values)@[first as int]@.len()
                && *x == old(values)@[first as int]@[second as int]
                && final(values)@.len() == old(values)@.len()
                && (forall|i: int| 0 <= i < old(values)@.len() && i != first ==> final(values)@[i] == old(values)@[i])
                && final(values)@[first as int]@ == old(values)@[first as int]@.update(second as int, *final(x)),
        },
{
    let outer = values.len() as i32;
    if first < 0 || first >= outer {
        return Err(JavaError::ArrayIndexOutOfBounds { index: first, length: outer });
    }
    proof { lemma_truncated_length(values@.len() as usize); }
    let inner = values[first as usize].len() as i32;
    if second < 0 || second >= inner {
        return Err(JavaError::ArrayIndexOutOfBounds { index: second, length: inner });
    }
    proof { lemma_truncated_length(values@[first as int]@.len() as usize); }
    Ok(&mut values[first as usize][second as usize])
}


/// Two-dimensional access with Java's null check before both bounds checks.
pub fn array_2d_mut<T>(values: Option<&mut [Vec<T>]>, first: i32, second: i32) -> (r: JavaResult<&mut T>)
    ensures
        values is None ==> r == Err::<&mut T, JavaError>(JavaError::NullPointer),
        values is Some ==> match bounds_failure_2d((*values->Some_0)@, first, second) {
            Some(e) => r == Err::<&mut T, JavaError>(e) && (*final(values->Some_0))@ == (*values->Some_0)@,
            None => r matches Ok(x) && 0 <= first < (*values->Some_0)@.len()
                && 0 <= second < (*values->Some_0)@[first as int]@.len()
                && *x == (*values->Some_0)@[first as int]@[second as int]
                && (*final(values->Some_0))@.len() == (*values->Some_0)@.len()
                && (forall|i: int| 0 <= i < (*values->Some_0)@.len() && i != first
                    ==> (*final(values->Some_0))@[i] == (*values->Some_0)@[i])
                && (*final(values->Some_0))@[first as int]@
                    == (*values->Some_0)@[first as int]@.update(second as int, *final(x)),
        },
{
    match values {
        None => Err(JavaError::NullPointer),
        Some(values) => java_array_2d_mut(values, first, second),
    }
}

/// A source of `System.currentTimeMillis()`.
pub trait Clock {
    fn current_time_millis(&self) -> i64;

    /// Steps a deterministic clock forward; a real wall clock ignores it.
    fn advance(&mut self, delta_millis: i64) {
    }
}

/// A deterministic clock whose time only moves when the host says so.
#[derive(Debug, Default)]
pub struct VirtualClock {
    millis: i64,
}

impl View for VirtualClock {
    type V = i64;

    closed spec fn view(&self) -> i64 {
        self.millis
    }
}

impl VirtualClock {
    pub fn new(millis: i64) -> (r: Self)
        ensures r@ == millis,
    {
        VirtualClock { millis }
    }

    pub fn set(&mut self, millis: i64)
        ensures final(self)@ == millis,
    {
        self.millis = millis;
    }

    /// Advances with Java `long` wrap-around.
    pub fn advance(&mut self, delta_millis: i64)
        ensures final(self)@ == wrap_i64(old(self)@ + delta_millis),
    {
        self.millis = i64_add(self.millis, delta_millis);
    }
}

impl Clock for VirtualClock {
    fn current_time_millis(&self) -> (r: i64)
        ensures r == self@,
    {
        self.millis
    }

    fn advance(&mut self, delta_millis: i64)
        ensures final(self)@ == wrap_i64(old(self)@ + delta_millis),
    {
        VirtualClock::advance(self, delta_millis);
    }
}

/// `idiv` in the bytecode spelling; identical semantics to [`i32_div`].
pub fn java_div(a: i32, b: i32) -> (r: JavaResult<i32>)
    ensures r == java_idiv(a, b),
{
    if b == 0 {
        return Err(JavaError::Arithmetic);
    }
    Ok(i32_quotient(a, b))
}

/// `irem`; the sign of a non-zero result follows the dividend.
pub fn java_rem(a: i32, b: i32) -> (r: JavaResult<i32>)
    ensures r == java_irem(a, b),
{
    if b == 0 {
        return Err(JavaError::Arithmetic);
    }
    Ok(i32_remainder(a, b))
}

/// `ldiv`.
pub fn java_ldiv(a: i64, b: i64) -> (r: JavaResult<i64>)
    ensures r == java_ldiv_spec(a, b),
{
    if b == 0 {
        return Err(JavaError::Arithmetic);
    }
    Ok(i64_quotient(a, b))
}

/// `lrem`.
pub fn java_lrem(a: i64, b: i64) -> (r: JavaResult<i64>)
    ensures r == java_lrem_spec(a, b),
{
    if b == 0 {
        return Err(JavaError::Arithmetic);
    }
    Ok(i64_remainder(a, b))
}

/// `ishl`: the count is taken modulo 32.
pub fn ishl(x: i32, n: i32) -> (r: i32)
    ensures r == spec_ishl(x, n),
{
    let k = n as u32;
    assert(k % 32 == (n & 31) as u32) by (bit_vector) requires k == n as u32;
    x.wrapping_shl(k)
}

/// `ishr`: arithmetic shift, count modulo 32.
pub fn ishr(x: i32, n: i32) -> (r: i32)
    ensures r == spec_ishr(x, n),
{
    let k = n as u32;
    assert(k % 32 == (n & 31) as u32) by (bit_vector) requires k == n as u32;
    x.wrapping_shr(k)
}

/// `iushr`: logical shift, count modulo 32.
pub fn iushr(x: i32, n: i32) -> (r: i32)
    ensures r == spec_iushr(x, n),
{
    let k = (n & 31) as u32;
    assert(k < 32) by (bit_vector) requires k == (n & 31) as u32;
    ((x as u32) >> k) as i32
}

/// `lshl`: the count is taken modulo 64.
pub fn lshl(x: i64, n: i32) -> (r: i64)
    ensures r == spec_lshl(x, n),
{
    let k = n as u32;
    assert(k % 64 == (n & 63) as u32) by (bit_vector) requires k == n as u32;
    x.wrapping_shl(k)
}

/// `lshr`.
pub fn lshr(x: i64, n: i32) -> (r: i64)
    ensures r == spec_lshr(x, n),
{
    let k = n as u32;
    assert(k % 64 == (n & 63) as u32) by (bit_vector) requires k == n as u32;
    x.wrapping_shr(k)
}

/// `lushr`.
pub fn lushr(x: i64, n: i32) -> (r: i64)
    ensures r == spec_lushr(x, n),
{
    let k = (n & 63) as u32;
    assert(k < 64) by (bit_vector) requires k == (n & 63) as u32;
    ((x as u64) >> k) as i64
}

/// Java's division identity: whenever `b != 0`, the quotient and remainder
/// recombine to the dividend under `int` arithmetic, `(a / b) * b + a % b == a`
/// (including the `MIN / -1` overflow case).
pub proof fn lemma_div_rem_recombine(a: i32, b: i32)
    requires b != 0,
    ensures
        java_idiv(a, b) matches Ok(q) && java_irem(a, b) matches Ok(r)
            && wrap_i32(q * b + r) == a,
{
    let t = trunc_div(a as int, b as int);
    lemma_trunc_div_bounds(a as int, b as int);
    if a == i32::MIN && b == -1 {
        assert(t == 0x8000_0000);
        assert(wrap_i32(t) == i32::MIN);
        assert(trunc_rem(a as int, b as int) == a - (-1) * (-(a as int)));
        assert(wrap_i32(i32::MIN * -1 + 0) == i32::MIN);
    } else {
        assert(i32::MIN <= t <= i32::MAX);
        lemma_wrap_i32_in_range(t);
        lemma_trunc_rem_bounds(a as int, b as int);
        assert(t * b + trunc_rem(a as int, b as int) == a) by (nonlinear_arith)
            requires trunc_rem(a as int, b as int) == a - b * t;
        lemma_wrap_i32_in_range(a as int);
    }
}

/// The same identity for `long`.
pub proof fn lemma_ldiv_lrem_recombine(a: i64, b: i64)
    requires b != 0,
    ensures
        java_ldiv_spec(a, b) matches Ok(q) && java_lrem_spec(a, b) matches Ok(r)
            && wrap_i64(q * b + r) == a,
{
    let t = trunc_div(a as int, b as int);
    lemma_trunc_div_bounds(a as int, b as int);
    if a == i64::MIN && b == -1 {
        assert(t == 0x8000_0000_0000_0000);
        assert(wrap_i64(t) == i64::MIN);
        assert(trunc_rem(a as int, b as int) == a - (-1) * (-(a as int)));
        assert(wrap_i64(i64::MIN * -1 + 0) == i64::MIN);
    } else {
        assert(i64::MIN <= t <= i64::MAX);
        lemma_wrap_i64_in_range(t);
        lemma_trunc_rem_bounds(a as int, b as int);
        assert(t * b + trunc_rem(a as int, b as int) == a) by (nonlinear_arith)
            requires trunc_rem(a as int, b as int) == a - b * t;
        lemma_wrap_i64_in_range(a as int);
    }
}

/// Advancing a virtual clock twice equals one advance by the wrapped sum.
pub proof fn lemma_advance_composes(start: i64, first: i64, second: i64)
    ensures wrap_i64(wrap_i64(start + first) + second) == wrap_i64(start + wrap_i64(first + second)),
{
    let m: int = 0x1_0000_0000_0000_0000;
    let total = start + first + second;
    let k1 = lemma_wrap_i64_congruent(start + first);
    let k2 = lemma_wrap_i64_congruent(first + second);
    lemma_wrap_i64_unique(wrap_i64(start + first) + second, total, -k1);
    lemma_wrap_i64_unique(start + wrap_i64(first + second), total, -k2);
}

/// `wrap_i64(x)` differs from `x` by a multiple of 2^64 and lies in range.
proof fn lemma_wrap_i64_congruent(x: int) -> (k: int)
    ensures
        i64::MIN <= wrap_i64(x) <= i64::MAX,
        x - wrap_i64(x) == k * 0x1_0000_0000_0000_0000,
{
    let m: int = 0x1_0000_0000_0000_0000;
    let r = x % m;
    let k = x / m;
    vstd::arithmetic::div_mod::lemma_fundamental_div_mod(x, m);
    assert(x == k * m + r && 0 <= r < m) by (nonlinear_arith) requires m > 0, r == x % m, k == x / m, x == m * (x / m) + x % m;
    if r > 0x7fff_ffff_ffff_ffff {
        assert(x - wrap_i64(x) == (k + 1) * m) by (nonlinear_arith)
            requires x == k * m + r, wrap_i64(x) == r - m;
        k + 1
    } else {
        k
    }
}

/// Two integers that differ by a multiple of 2^64 wrap to the same `long`.
proof fn lemma_wrap_i64_unique(x: int, y: int, k: int)
    requires x - y == k * 0x1_0000_0000_0000_0000,
    ensures wrap_i64(x) == wrap_i64(y),
{
    let m: int = 0x1_0000_0000_0000_0000;
    assert(x == m * k + y) by (nonlinear_arith) requires x - y == k * m;
    vstd::arithmetic::div_mod::lemma_mod_multiples_vanish(k, y, m);
}

} // verus!
