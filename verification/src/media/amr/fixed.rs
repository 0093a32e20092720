//! The 3GPP fixed-point basic operators the AMR-NB decoder is defined in.
//!
//! AMR-NB is specified as bit-exact fixed-point arithmetic, so each operator
//! here states its exact result, saturation quirks included:
//!
//! - [`l_shr`] returns `0` for shifts of 31 or more, including for negative
//!   inputs, where an arithmetic shift would give `-1`.
//! - [`l_mult`] special-cases the single product `0x4000_0000` (that is,
//!   `-32768 * -32768`) to `i32::MAX`.
//! - [`mult`] saturates only on the positive side: a 16x16 product divided
//!   by `2^15` can exceed `i16::MAX` but never falls below `i16::MIN`.
//!
//! A right shift by `n` is floor division by `2^n`, as the arithmetic shift
//! of two's-complement integers is.

use vstd::prelude::*;
use vstd::arithmetic::power2::{lemma2_to64, lemma_pow2_adds, lemma_pow2_pos, lemma_pow2_strictly_increases, pow2};
use vstd::arithmetic::div_mod::lemma_fundamental_div_mod_converse;

verus! {

/// `x` clamped to the 16-bit range.
pub open spec fn sat16(x: int) -> i16 {
    if x > 32767 {
        32767
    } else if x < -32768 {
        -32768i16
    } else {
        x as i16
    }
}

/// `x` clamped to the 32-bit range.
pub open spec fn sat32(x: int) -> i32 {
    if x > 0x7fff_ffff {
        0x7fff_ffff
    } else if x < -0x8000_0000 {
        -0x8000_0000i32
    } else {
        x as i32
    }
}

/// The arithmetic right shift of `x` by `n`: `x / 2^n`, rounded down.
pub open spec fn shift_down(x: int, n: nat) -> int {
    x / (pow2(n) as int)
}

/// A left shift by `n` that saturates, by the sign of `x`, when bits would
/// be lost: `x * 2^n` where that fits `lo..=hi`.
pub open spec fn shift_up(x: int, n: nat, lo: int, hi: int) -> int {
    if lo <= x * pow2(n) <= hi {
        x * pow2(n)
    } else if x > 0 {
        hi
    } else {
        lo
    }
}

/// `2^n` for small `n`.
fn pow2_u64(n: u32) -> (r: u64)
    requires
        n <= 62,
    ensures
        r == pow2(n as nat),
{
    let mut r: u64 = 1;
    let mut i: u32 = 0;
    proof {
        lemma2_to64();
    }
    while i < n
        invariant
            i <= n <= 62,
            r == pow2(i as nat),
        decreases n - i,
    {
        proof {
            lemma_pow2_adds(i as nat, 1);
            if i < 62 {
                lemma_pow2_strictly_increases(i as nat, 62);
            }
            lemma2_to64();
            vstd::arithmetic::power2::lemma2_to64_rest();
        }
        r = r * 2;
        i += 1;
    }
    r
}

/// The arithmetic right shift of a 32-bit value.
fn asr32(x: i32, n: u32) -> (r: i32)
    requires
        n <= 31,
    ensures
        r == shift_down(x as int, n as nat),
{
    let d = pow2_u64(n);
    let k = pow2_u64(31 - n);
    let u: u64 = (x as i64 + 0x8000_0000i64) as u64;
    proof {
        lemma_pow2_pos(n as nat);
    }
    let q = u / d;
    proof {
        lemma_pow2_adds(n as nat, (31 - n) as nat);
        lemma2_to64();
        let di = d as int;
        let rem = (u as int) % di;
        vstd::arithmetic::div_mod::lemma_fundamental_div_mod(u as int, di);
        assert(u as int == di * (q as int) + rem);
        assert(u as int == (q as int) * di + rem) by (nonlinear_arith)
            requires
                u as int == di * (q as int) + rem,
        ;
        assert(k as int * di == 0x8000_0000);
        assert(x as int == (q as int - k as int) * di + rem) by (nonlinear_arith)
            requires
                u as int == (q as int) * di + rem,
                k as int * di == 0x8000_0000,
                u as int == x as int + 0x8000_0000,
        ;
        lemma_fundamental_div_mod_converse(x as int, di, q as int - k as int, rem);
        assert(q as int <= u as int) by (nonlinear_arith)
            requires
                u as int == (q as int) * di + rem,
                0 <= rem,
                di >= 1,
                q >= 0,
        ;
    }
    (q as i64 - k as i64) as i32
}

/// `add`: 16-bit addition saturating to the 16-bit range.
pub fn add(var1: i16, var2: i16) -> (r: i16)
    ensures
        r == sat16(var1 + var2),
{
    let s = var1 as i32 + var2 as i32;
    if s > 32767 {
        32767
    } else if s < -32768 {
        -32768
    } else {
        s as i16
    }
}

/// `sub`: 16-bit subtraction saturating to the 16-bit range.
pub fn sub(var1: i16, var2: i16) -> (r: i16)
    ensures
        r == sat16(var1 - var2),
{
    let s = var1 as i32 - var2 as i32;
    if s > 32767 {
        32767
    } else if s < -32768 {
        -32768
    } else {
        s as i16
    }
}

/// `negate`: negation with `i16::MIN` mapped to `i16::MAX`.
pub fn negate(var1: i16) -> (r: i16)
    ensures
        r == sat16(-var1),
{
    if var1 == i16::MIN {
        i16::MAX
    } else {
        -var1
    }
}

/// `mult`: `var1 * var2 / 2^15` rounded down, saturating high only.
pub fn mult(var1: i16, var2: i16) -> (r: i16)
    ensures
        r == (if shift_down(var1 * var2, 15) > 32767 {
            32767
        } else {
            shift_down(var1 * var2, 15)
        }),
{
    proof {
        lemma_products(var1, var2);
    }
    let product = asr32(var1 as i32 * var2 as i32, 15);
    proof {
        lemma_shift15_bounds((var1 * var2) as int);
    }
    if product > 0x7fff {
        i16::MAX
    } else {
        product as i16
    }
}

proof fn lemma_products(a: i16, b: i16)
    ensures
        -0x3fff_8000 <= a * b <= 0x4000_0000,
{
    assert(-0x3fff_8000 <= a * b <= 0x4000_0000) by (nonlinear_arith)
        requires
            -32768 <= a <= 32767,
            -32768 <= b <= 32767,
    ;
}

proof fn lemma_shift15_bounds(p: int)
    requires
        -0x3fff_8000 <= p <= 0x4000_4000,
    ensures
        -32768 <= shift_down(p, 15) <= 32768,
{
    lemma2_to64();
    assert(pow2(15) == 32768);
}

/// `mult_r`: `(var1 * var2 + 2^14) / 2^15` rounded down, saturating.
pub fn mult_r(var1: i16, var2: i16) -> (r: i16)
    ensures
        r == sat16(shift_down(var1 * var2 + 0x4000, 15)),
{
    proof {
        lemma_products(var1, var2);
        lemma_shift15_bounds(var1 * var2 + 0x4000);
    }
    let product = asr32(var1 as i32 * var2 as i32 + 0x4000, 15);
    if product > 32767 {
        32767
    } else if product < -32768 {
        -32768
    } else {
        product as i16
    }
}

/// A 16-bit value shifted up by `count <= 31`, saturating.
fn shl16(var1: i16, count: u32) -> (r: i16)
    requires
        count <= 31,
    ensures
        r == shift_up(var1 as int, count as nat, -32768, 32767),
{
    let p = pow2_u64(count);
    proof {
        lemma2_to64();
        lemma_pow2_strictly_increases(count as nat, 32);
        assert(-0x8000_0000_0000 <= var1 * pow2(count as nat) <= 0x8000_0000_0000) by (nonlinear_arith)
            requires
                -32768 <= var1 <= 32767,
                0 < pow2(count as nat) < 0x1_0000_0000,
        ;
    }
    let wide = var1 as i64 * p as i64;
    if -32768 <= wide && wide <= 32767 {
        wide as i16
    } else if var1 > 0 {
        i16::MAX
    } else {
        i16::MIN
    }
}

/// `shl`: left shift saturating on lost bits; a negative count shifts right
/// by at most 15.
pub fn shl(var1: i16, var2: i16) -> (r: i16)
    ensures
        var2 < 0 ==> r == shift_down(var1 as int, if -var2 > 15 { 15 } else { (-var2) as nat }),
        var2 >= 0 ==> r == shift_up(var1 as int, if var2 > 31 { 31 } else { var2 as nat }, -32768, 32767),
{
    if var2 < 0 {
        let count: u32 = if var2 < -15 { 15 } else { (-(var2 as i32)) as u32 };
        let s = asr32(var1 as i32, count);
        proof {
            lemma_shift_down_i16(var1 as int, count as nat);
        }
        return s as i16;
    }
    let count: u32 = if var2 > 31 { 31 } else { var2 as u32 };
    shl16(var1, count)
}

proof fn lemma_shift_down_i16(x: int, n: nat)
    requires
        -32768 <= x <= 32767,
    ensures
        -32768 <= shift_down(x, n) <= 32767,
{
    lemma_pow2_pos(n);
    let d = pow2(n) as int;
    assert(-32768 <= x / d <= 32767) by (nonlinear_arith)
        requires
            -32768 <= x <= 32767,
            d >= 1,
    ;
}

/// `shr`: arithmetic right shift by at most 15; a negative count shifts
/// left, by at most 15, with saturation.
pub fn shr(var1: i16, var2: i16) -> (r: i16)
    ensures
        var2 >= 0 ==> r == shift_down(var1 as int, if var2 > 15 { 15 } else { var2 as nat }),
        var2 < 0 ==> r == shift_up(var1 as int, if -var2 > 15 { 15 } else { (-var2) as nat }, -32768, 32767),
{
    if var2 == 0 {
        proof {
            lemma2_to64();
        }
        return var1;
    }
    if var2 > 0 {
        let count: u32 = if var2 > 15 { 15 } else { var2 as u32 };
        let s = asr32(var1 as i32, count);
        proof {
            lemma_shift_down_i16(var1 as int, count as nat);
        }
        return s as i16;
    }
    let count: u32 = if var2 < -15 { 15 } else { (-(var2 as i32)) as u32 };
    shl16(var1, count)
}

/// `L_add`: 32-bit addition saturating to the 32-bit range.
pub fn l_add(var1: i32, var2: i32) -> (r: i32)
    ensures
        r == sat32(var1 + var2),
{
    let s = var1 as i64 + var2 as i64;
    if s > 0x7fff_ffff {
        i32::MAX
    } else if s < -0x8000_0000 {
        i32::MIN
    } else {
        s as i32
    }
}

/// `L_sub`: 32-bit subtraction saturating to the 32-bit range.
pub fn l_sub(var1: i32, var2: i32) -> (r: i32)
    ensures
        r == sat32(var1 - var2),
{
    let s = var1 as i64 - var2 as i64;
    if s > 0x7fff_ffff {
        i32::MAX
    } else if s < -0x8000_0000 {
        i32::MIN
    } else {
        s as i32
    }
}

/// The result of `L_mult`: the doubled product, except that the one product
/// `0x4000_0000` gives `i32::MAX`.
pub open spec fn l_mult_spec(var1: i16, var2: i16) -> i32 {
    if var1 * var2 == 0x4000_0000 {
        0x7fff_ffff
    } else {
        (2 * (var1 * var2)) as i32
    }
}

/// `L_mult`: `var1 * var2 * 2`, with the reference's `0x4000_0000` special
/// case.
pub fn l_mult(var1: i16, var2: i16) -> (r: i32)
    ensures
        r == l_mult_spec(var1, var2),
        var1 * var2 != 0x4000_0000 ==> r == 2 * (var1 * var2),
{
    proof {
        lemma_products(var1, var2);
    }
    let product = var1 as i32 * var2 as i32;
    if product != 0x4000_0000 {
        product * 2
    } else {
        i32::MAX
    }
}

/// `L_mac`: `acc + L_mult(var1, var2)`, saturating.
pub fn l_mac(acc: i32, var1: i16, var2: i16) -> (r: i32)
    ensures
        r == sat32(acc + l_mult_spec(var1, var2)),
{
    l_add(acc, l_mult(var1, var2))
}

/// `L_msu`: `acc - L_mult(var1, var2)`, saturating.
pub fn l_msu(acc: i32, var1: i16, var2: i16) -> (r: i32)
    ensures
        r == sat32(acc - l_mult_spec(var1, var2)),
{
    l_sub(acc, l_mult(var1, var2))
}

/// What `L_shl` gives: a positive count shifts up with saturation; a count
/// of zero or below shifts down, and a downward count of 31 or more gives 0.
pub open spec fn l_shl_spec(var1: i32, var2: i16) -> i32 {
    if var2 > 0 {
        shift_up(var1 as int, var2 as nat, -0x8000_0000, 0x7fff_ffff) as i32
    } else if -var2 < 31 {
        shift_down(var1 as int, (-var2) as nat) as i32
    } else {
        0
    }
}

proof fn lemma_shift_down_i32(x: int, n: nat)
    requires
        -0x8000_0000 <= x <= 0x7fff_ffff,
    ensures
        -0x8000_0000 <= shift_down(x, n) <= 0x7fff_ffff,
        n >= 1 ==> -0x4000_0000 <= shift_down(x, n) <= 0x3fff_ffff,
{
    lemma_pow2_pos(n);
    let d = pow2(n) as int;
    assert(-0x8000_0000 <= x / d <= 0x7fff_ffff) by (nonlinear_arith)
        requires
            -0x8000_0000 <= x <= 0x7fff_ffff,
            d >= 1,
    ;
    if n >= 1 {
        lemma_pow2_strictly_increases(0, n);
        lemma2_to64();
        assert(-0x4000_0000 <= x / d <= 0x3fff_ffff) by (nonlinear_arith)
            requires
                -0x8000_0000 <= x <= 0x7fff_ffff,
                d >= 2,
        ;
    }
}

/// `L_shl`: 32-bit left shift saturating on lost bits; a negative count
/// shifts right.
pub fn l_shl(var1: i32, var2: i16) -> (r: i32)
    ensures
        r == l_shl_spec(var1, var2),
{
    if var2 > 0 {
        if var2 > 31 {
            proof {
                lemma2_to64();
                if var2 > 32 {
                    lemma_pow2_strictly_increases(32, var2 as nat);
                }
                let p = pow2(var2 as nat) as int;
                assert(p >= 0x1_0000_0000);
                if var1 != 0 {
                    assert(var1 * p > 0x7fff_ffff || var1 * p < -0x8000_0000) by (nonlinear_arith)
                        requires
                            var1 != 0,
                            p >= 0x1_0000_0000,
                    ;
                    assert(var1 > 0 ==> var1 * p > 0x7fff_ffff) by (nonlinear_arith)
                        requires
                            p >= 0x1_0000_0000,
                    ;
                } else {
                    assert(var1 * p == 0);
                }
            }
            return if var1 == 0 {
                0
            } else if var1 < 0 {
                i32::MIN
            } else {
                i32::MAX
            };
        }
        let p = pow2_u64(var2 as u32);
        proof {
            lemma2_to64();
            lemma_pow2_strictly_increases(var2 as nat, 32);
            assert(-0x8000_0000_0000_0000 < var1 * pow2(var2 as nat) < 0x8000_0000_0000_0000) by (nonlinear_arith)
                requires
                    -0x8000_0000 <= var1 <= 0x7fff_ffff,
                    0 < pow2(var2 as nat) < 0x1_0000_0000,
            ;
        }
        let wide = var1 as i64 * p as i64;
        if -0x8000_0000 <= wide && wide <= 0x7fff_ffff {
            wide as i32
        } else if var1 > 0 {
            i32::MAX
        } else {
            i32::MIN
        }
    } else {
        let count = -(var2 as i32);
        if count < 31 {
            proof {
                lemma_shift_down_i32(var1 as int, count as nat);
            }
            asr32(var1, count as u32)
        } else {
            0
        }
    }
}

/// What `L_shr` gives: a positive count below 31 shifts down, one of 31 or
/// more gives 0 even for a negative input, and a count of zero or below
/// shifts up by at most 31 with saturation.
pub open spec fn l_shr_spec(var1: i32, var2: i16) -> i32 {
    if var2 > 0 {
        if var2 < 31 {
            shift_down(var1 as int, var2 as nat) as i32
        } else {
            0
        }
    } else {
        l_shl_spec(var1, if var2 < -31 { 31 } else { -var2 } as i16)
    }
}

/// `L_shr`: 32-bit arithmetic right shift; a negative count shifts left with
/// saturation.
pub fn l_shr(var1: i32, var2: i16) -> (r: i32)
    ensures
        r == l_shr_spec(var1, var2),
{
    if var2 > 0 {
        if var2 < 31 {
            proof {
                lemma_shift_down_i32(var1 as int, var2 as nat);
            }
            asr32(var1, var2 as u32)
        } else {
            0
        }
    } else {
        l_shl(var1, if var2 < -31 { 31 } else { -var2 })
    }
}

/// What `L_shr_r` gives: [`l_shr`] plus the last bit shifted out (bit
/// `var2 - 1` of `var1`), and 0 for counts above 31.
pub open spec fn l_shr_r_spec(var1: i32, var2: i16) -> int {
    if var2 > 31 {
        0
    } else if var2 > 0 {
        l_shr_spec(var1, var2) + shift_down(var1 as int, (var2 - 1) as nat) % 2
    } else {
        l_shr_spec(var1, var2) as int
    }
}

/// `L_shr_r`: [`l_shr`] with rounding from the last bit shifted out.
pub fn l_shr_r(var1: i32, var2: i16) -> (r: i32)
    ensures
        r == l_shr_r_spec(var1, var2),
{
    if var2 > 31 {
        return 0;
    }
    let result = l_shr(var1, var2);
    if var2 > 0 {
        let k = (var2 - 1) as u32;
        let h = asr32(var1, k);
        proof {
            lemma_shift_down_i32(var1 as int, k as nat);
        }
        let half = asr32(h, 1);
        proof {
            lemma2_to64();
            assert(pow2(1) == 2);
            vstd::arithmetic::div_mod::lemma_fundamental_div_mod(h as int, 2);
        }
        let bit = h - 2 * half;
        proof {
            assert(bit == (h as int) % 2);
            if var2 < 31 {
                lemma_shift_down_i32(var1 as int, var2 as nat);
            }
        }
        result + bit
    } else {
        result
    }
}

/// `pv_round`: round a 32-bit accumulator into its high 16 bits.
pub fn round16(var1: i32) -> (r: i16)
    ensures
        r == shift_down(sat32(var1 + 0x8000) as int, 16),
{
    let s = l_add(var1, 0x8000);
    proof {
        lemma_shift_down_i32(s as int, 16);
        lemma2_to64();
        let d = pow2(16) as int;
        assert(d == 0x1_0000);
        assert(-32768 <= (s as int) / d <= 32767) by (nonlinear_arith)
            requires
                -0x8000_0000 <= s <= 0x7fff_ffff,
                d == 0x1_0000,
        ;
    }
    asr32(s, 16) as i16
}

/// Whether `n` left shifts bring magnitude `m` into `[2^(top-1), 2^top)`.
pub open spec fn normalises(m: int, n: int, top: nat) -> bool {
    &&& 0 <= n
    &&& pow2((top - 1) as nat) <= m * pow2(n as nat) < pow2(top)
}

/// `norm_l`: the left shifts that normalise a nonzero 32-bit value (its
/// magnitude into `[2^30, 2^31)`), and 0 for zero.
pub fn norm_l(var1: i32) -> (r: i16)
    requires
        var1 != i32::MIN,
    ensures
        var1 == 0 ==> r == 0,
        var1 != 0 ==> normalises(if var1 < 0 { -var1 } else { var1 as int }, r as int, 31),
{
    if var1 == 0 {
        return 0;
    }
    let m: u64 = if var1 < 0 { (-(var1 as i64)) as u64 } else { var1 as u64 };
    proof {
        lemma2_to64();
    }
    normalise(m, 31) as i16
}

/// `norm_s`: the left shifts that normalise a nonzero 16-bit value (its
/// magnitude into `[2^14, 2^15)`), and 0 for zero.
pub fn norm_s(var1: i16) -> (r: i16)
    requires
        var1 != i16::MIN,
    ensures
        var1 == 0 ==> r == 0,
        var1 != 0 ==> normalises(if var1 < 0 { -var1 } else { var1 as int }, r as int, 15),
{
    if var1 == 0 {
        return 0;
    }
    let m: u64 = if var1 < 0 { (-(var1 as i32)) as u64 } else { var1 as u64 };
    proof {
        lemma2_to64();
    }
    normalise(m, 15) as i16
}

/// The shifts that bring `m` into `[2^(top-1), 2^top)`.
fn normalise(m: u64, top: u32) -> (r: u32)
    requires
        1 <= top <= 31,
        1 <= m < pow2(top as nat),
    ensures
        r < top,
        normalises(m as int, r as int, top as nat),
{
    proof {
        lemma2_to64();
        lemma_pow2_strictly_increases(top as nat, 32);
        lemma_pow2_adds((top - 1) as nat, 1);
    }
    let half = pow2_u64(top - 1);
    let mut v = m;
    let mut n: u32 = 0;
    proof {
        lemma2_to64();
    }
    while v < half
        invariant
            1 <= top <= 31,
            half == pow2((top - 1) as nat),
            pow2(top as nat) == half * 2,
            half <= 0x4000_0000,
            1 <= v < pow2(top as nat),
            v == m * pow2(n as nat),
            n < top,
            m >= 1,
        decreases top - n,
    {
        proof {
            lemma_pow2_adds(n as nat, 1);
            lemma2_to64();
            lemma_pow2_pos(n as nat);
            assert(pow2(n as nat) <= v) by (nonlinear_arith)
                requires
                    v == m * pow2(n as nat),
                    m >= 1,
                    pow2(n as nat) > 0,
            ;
            if n as int > (top - 1) as int {
                lemma_pow2_strictly_increases((top - 1) as nat, n as nat);
            }
            assert(n + 1 < top);
        }
        let ghost before = v;
        v = v * 2;
        n += 1;
        proof {
            assert(v == m * pow2(n as nat)) by (nonlinear_arith)
                requires
                    before == m * pow2((n - 1) as nat),
                    v == 2 * before,
                    pow2(n as nat) == pow2((n - 1) as nat) * 2,
            ;
        }
    }
    n
}

/// `div_s`: the fraction `var1 / var2` in Q15, for `0 < var1 < var2`;
/// 0 when the numerator is negative, zero, or exceeds the denominator,
/// and `i16::MAX` when the two are equal.
pub fn div_s(var1: i16, var2: i16) -> (r: i16)
    ensures
        (var1 > var2 || var1 <= 0) ==> r == 0,
        0 < var1 == var2 ==> r == 32767,
        0 < var1 < var2 ==> r == (var1 * 32768) / (var2 as int),
{
    if var1 > var2 || var1 < 0 {
        return 0;
    }
    if var1 == 0 {
        return 0;
    }
    if var1 == var2 {
        return i16::MAX;
    }
    let d = var2 as i32;
    let mut out: i32 = 0;
    let mut num = var1 as i32;
    let mut scale: i32 = 1;
    let mut round: u32 = 0;
    proof {
        lemma2_to64();
    }
    while round < 15
        invariant
            0 < var1 < var2,
            d == var2,
            round <= 15,
            scale == pow2(round as nat),
            var1 * scale == out * d + num,
            0 <= num < d,
            0 <= out < scale,
        decreases 15 - round,
    {
        proof {
            lemma2_to64();
            lemma_pow2_adds(round as nat, 1);
            lemma_pow2_strictly_increases(round as nat, 15);
        }
        let ghost o = out as int;
        let ghost nm = num as int;
        let ghost sc = scale as int;
        out = out * 2;
        num = num * 2;
        scale = scale * 2;
        if num >= d {
            num = num - d;
            out = out + 1;
        }
        round += 1;
        proof {
            assert(var1 * scale == out * d + num) by (nonlinear_arith)
                requires
                    var1 * sc == o * d + nm,
                    scale == sc * 2,
                    (out == 2 * o && num == 2 * nm) || (out == 2 * o + 1 && num == 2 * nm - d),
            ;
        }
    }
    proof {
        lemma2_to64();
        lemma_fundamental_div_mod_converse(var1 * 32768, d as int, out as int, num as int);
    }
    out as i16
}

} // verus!
