//! 18-decimal fixed-point arithmetic (WAD) and 27-decimal arithmetic (RAY)
//! on `i128`, with a 256-bit intermediate product for `a * b / d`.

use vstd::prelude::*;
use vstd::arithmetic::div_mod::*;
use vstd::arithmetic::mul::*;
use vstd::arithmetic::power2::*;
use vstd::bits::*;

verus! {

/// Errors of the fixed-point library.
#[derive(Copy, Clone, Debug, PartialEq, Eq, Structural)]
pub enum MathError {
    Overflow,
    DivisionByZero,
    InvalidInput,
}

/// An 18-decimal fixed-point number: the value is `self.0 / SCALE`.
#[derive(Copy, Clone, Debug, PartialEq, Eq, PartialOrd, Ord, Structural)]
pub struct Fixed(pub i128);

/// 10^18.
pub const SCALE: i128 = 1_000_000_000_000_000_000;
/// ln(2) * SCALE.
pub const LN2: i128 = 693_147_180_559_945_309;
/// WAD — 10^18, the standard 18-decimal fixed-point unit (same as `SCALE`).
pub const WAD: i128 = 1_000_000_000_000_000_000;
/// RAY — 10^27, the high-precision 27-decimal fixed-point unit.
pub const RAY: i128 = 1_000_000_000_000_000_000_000_000_000;

/// 2^64 and 2^128 as mathematical integers.
pub open spec fn two64() -> int { 0x1_0000_0000_0000_0000 }
pub open spec fn two127() -> int { 0x8000_0000_0000_0000_0000_0000_0000_0000 }

pub open spec fn abs(x: int) -> int { if x < 0 { -x } else { x } }

/// `a * b / d` truncated toward zero, or `None` when `d == 0` or the
/// quotient does not fit in an `i128`.
pub open spec fn mul_div_spec(a: int, b: int, d: int) -> Option<int> {
    if d == 0 {
        None
    } else {
        let q = (abs(a) * abs(b)) / abs(d);
        if q > i128::MAX {
            None
        } else if ((a < 0) != (b < 0)) != (d < 0) {
            Some(-q)
        } else {
            Some(q)
        }
    }
}

/// What `mul_div` gives, as a library result.
pub open spec fn mul_div_result(a: int, b: int, d: int) -> Result<Fixed, MathError> {
    match mul_div_spec(a, b, d) {
        Some(q) => Ok(Fixed(q as i128)),
        None => Err(MathError::Overflow),
    }
}

proof fn lemma_split64(x: u128)
    ensures
        x & 0xFFFF_FFFF_FFFF_FFFF == x % 0x1_0000_0000_0000_0000,
        x >> 64 == x / 0x1_0000_0000_0000_0000,
        x == (x / 0x1_0000_0000_0000_0000) * 0x1_0000_0000_0000_0000 + x % 0x1_0000_0000_0000_0000,
{
    assert(x & 0xFFFF_FFFF_FFFF_FFFF == x % 0x1_0000_0000_0000_0000) by (bit_vector);
    assert(x >> 64 == x / 0x1_0000_0000_0000_0000) by (bit_vector);
}

proof fn lemma_join(m: u128, l: u128)
    requires
        l < 0x1_0000_0000_0000_0000,
    ensures
        (m << 64) | l == (m % 0x1_0000_0000_0000_0000) * 0x1_0000_0000_0000_0000 + l,
{
    assert((m << 64) | l == (m % 0x1_0000_0000_0000_0000) * 0x1_0000_0000_0000_0000 + l)
        by (bit_vector)
        requires
            l < 0x1_0000_0000_0000_0000,
    ;
}

proof fn lemma_shift_in(r: u128, t: u128)
    requires
        r < 0x8000_0000_0000_0000_0000_0000_0000_0000,
    ensures
        (r << 1) | (t & 1) == r * 2 + (t & 1),
        t & 1 == t % 2,
{
    assert((r << 1) | (t & 1) == r * 2 + (t & 1)) by (bit_vector)
        requires
            r < 0x8000_0000_0000_0000_0000_0000_0000_0000,
    ;
    assert(t & 1 == t % 2) by (bit_vector);
}

proof fn lemma_one_shl(i: u128)
    requires
        i < 128,
    ensures
        (1u128 << i) == pow2(i as nat),
    decreases i,
{
    if i == 0 {
        assert((1u128 << 0u128) == 1) by (bit_vector);
        lemma2_to64();
    } else {
        let j: u128 = (i - 1) as u128;
        lemma_one_shl(j);
        assert((1u128 << i) == 2 * (1u128 << j)) by (bit_vector)
            requires j < 127, i == j + 1,
        ;
        lemma_pow2_unfold(i as nat);
    }
}

proof fn lemma_set_bit(q: u128, i: u128)
    requires
        i < 128,
        (q >> i) & 1 == 0,
    ensures
        q | (1u128 << i) == q + (1u128 << i),
{
    assert(q | (1u128 << i) == q + (1u128 << i)) by (bit_vector)
        requires
            i < 128,
            (q >> i) & 1 == 0,
    ;
}

proof fn lemma_small_product(x: int, y: int)
    requires
        0 <= x < 0x1_0000_0000_0000_0000,
        0 <= y < 0x1_0000_0000_0000_0000,
    ensures
        0 <= x * y <= 0xFFFF_FFFF_FFFF_FFFE_0000_0000_0000_0001,
{
    assert(0 <= x * y <= 0xFFFF_FFFF_FFFF_FFFF * 0xFFFF_FFFF_FFFF_FFFF) by (nonlinear_arith)
        requires
            0 <= x < 0x1_0000_0000_0000_0000,
            0 <= y < 0x1_0000_0000_0000_0000,
    ;
}

/// The schoolbook product of two split 128-bit numbers.
proof fn lemma_product_split(a: int, b: int, ah: int, al: int, bh: int, bl: int)
    requires
        a == ah * two64() + al,
        b == bh * two64() + bl,
    ensures
        a * b == (ah * bh) * (two64() * two64()) + (al * bh + ah * bl) * two64() + al * bl,
{
    assert(a * b == (ah * bh) * (two64() * two64()) + (al * bh + ah * bl) * two64() + al * bl)
        by (nonlinear_arith)
        requires
            a == ah * two64() + al,
            b == bh * two64() + bl,
    ;
}

proof fn lemma_prefix_doubles(h: int, e: int, e2: int, l: int, l2: int, bit: int)
    requires
        e2 == 2 * e,
        l2 == 2 * l + bit,
    ensures
        h * e2 + l2 == 2 * (h * e + l) + bit,
{
    assert(h * e2 + l2 == 2 * (h * e + l) + bit) by (nonlinear_arith)
        requires e2 == 2 * e, l2 == 2 * l + bit,
    ;
}

/// One step of binary long division: shifting a bit into the remainder.
proof fn lemma_long_division_step(p: int, d: int, bit: int)
    requires
        d > 0,
        p >= 0,
        0 <= bit <= 1,
    ensures
        (2 * p + bit) / d == 2 * (p / d) + (if 2 * (p % d) + bit >= d { 1int } else { 0int }),
        (2 * p + bit) % d == 2 * (p % d) + bit - (if 2 * (p % d) + bit >= d { d } else { 0int }),
{
    let q = p / d;
    let r = p % d;
    lemma_fundamental_div_mod(p, d);
    if 2 * r + bit >= d {
        assert(2 * p + bit == (2 * q + 1) * d + (2 * r + bit - d)) by (nonlinear_arith)
            requires p == d * q + r,
        ;
        lemma_fundamental_div_mod_converse(2 * p + bit, d, 2 * q + 1, 2 * r + bit - d);
    } else {
        assert(2 * p + bit == (2 * q) * d + (2 * r + bit)) by (nonlinear_arith)
            requires p == d * q + r,
        ;
        lemma_fundamental_div_mod_converse(2 * p + bit, d, 2 * q, 2 * r + bit);
    }
}

/// `(x / 2^(k-1))` in terms of `x / 2^k` and the bit at position `k - 1`.
proof fn lemma_next_prefix(x: nat, k: nat)
    requires
        k >= 1,
    ensures
        x / pow2((k - 1) as nat) == 2 * (x / pow2(k)) + (x / pow2((k - 1) as nat)) % 2,
{
    let km = (k - 1) as nat;
    lemma_pow2_unfold(k);
    lemma_pow2_pos(km);
    let y = x / pow2(km);
    lemma_div_denominator(x as int, pow2(km) as int, 2);
    lemma_mul_is_commutative(pow2(km) as int, 2);
    lemma_fundamental_div_mod(y as int, 2);
}

/// `a * b / d` on unsigned 128-bit values with a 256-bit intermediate product.
/// The second component reports that the quotient does not fit in 128 bits.
/// The divisor is at most 2^127 (the magnitude of an `i128`).
pub fn mul_div_u128(a: u128, b: u128, d: u128) -> (res: (u128, bool))
    requires
        0 < d <= 0x8000_0000_0000_0000_0000_0000_0000_0000,
    ensures
        res.1 <==> (a * b) / (d as int) > u128::MAX,
        !res.1 ==> res.0 == (a * b) / (d as int),
        res.1 ==> res.0 == 0,
{
    if let Some(prod) = a.checked_mul(b) {
        proof {
            lemma_div_is_ordered_by_denominator(prod as int, 1, d as int);
        }
        return (prod / d, false);
    }
    let a_low = a & 0xFFFFFFFFFFFFFFFF;
    let a_high = a >> 64;
    let b_low = b & 0xFFFFFFFFFFFFFFFF;
    let b_high = b >> 64;
    proof {
        lemma_split64(a);
        lemma_split64(b);
        lemma_small_product(a_low as int, b_low as int);
        lemma_small_product(a_low as int, b_high as int);
        lemma_small_product(a_high as int, b_low as int);
        lemma_small_product(a_high as int, b_high as int);
    }
    let p0 = a_low * b_low;
    let p1 = a_low * b_high;
    let p2 = a_high * b_low;
    let p3 = a_high * b_high;
    proof {
        lemma_split64(p0);
        lemma_split64(p1);
        lemma_split64(p2);
    }
    let mid = (p1 & 0xFFFFFFFFFFFFFFFF) + (p2 & 0xFFFFFFFFFFFFFFFF) + (p0 >> 64);
    proof {
        lemma_split64(mid);
    }
    let high = p3 + (p1 >> 64) + (p2 >> 64) + (mid >> 64);
    let low = (mid << 64) | (p0 & 0xFFFFFFFFFFFFFFFF);
    proof {
        lemma_join(mid, p0 & 0xFFFFFFFFFFFFFFFF);
        lemma_product_split(a as int, b as int, a_high as int, a_low as int, b_high as int, b_low as int);
        assert(low == (mid % 0x1_0000_0000_0000_0000u128) * two64() + p0 % 0x1_0000_0000_0000_0000u128);
        assert(mid == p1 % 0x1_0000_0000_0000_0000u128 + p2 % 0x1_0000_0000_0000_0000u128 + p0 / 0x1_0000_0000_0000_0000u128);
        assert(high == p3 + p1 / 0x1_0000_0000_0000_0000u128 + p2 / 0x1_0000_0000_0000_0000u128 + mid / 0x1_0000_0000_0000_0000u128);
        assert(p1 == (p1 / 0x1_0000_0000_0000_0000u128) * two64() + p1 % 0x1_0000_0000_0000_0000u128);
        assert(p2 == (p2 / 0x1_0000_0000_0000_0000u128) * two64() + p2 % 0x1_0000_0000_0000_0000u128);
        assert(p0 == (p0 / 0x1_0000_0000_0000_0000u128) * two64() + p0 % 0x1_0000_0000_0000_0000u128);
        assert(mid == (mid / 0x1_0000_0000_0000_0000u128) * two64() + mid % 0x1_0000_0000_0000_0000u128);
        assert(a * b == p3 * (two64() * two64()) + (p1 + p2) * two64() + p0);
        assert(a * b == high * (two64() * two64()) + low) by (nonlinear_arith)
            requires
                a * b == p3 * (two64() * two64()) + (p1 + p2) * two64() + p0,
                low == (mid % 0x1_0000_0000_0000_0000u128) * two64() + p0 % 0x1_0000_0000_0000_0000u128,
                mid == p1 % 0x1_0000_0000_0000_0000u128 + p2 % 0x1_0000_0000_0000_0000u128 + p0 / 0x1_0000_0000_0000_0000u128,
                high == p3 + p1 / 0x1_0000_0000_0000_0000u128 + p2 / 0x1_0000_0000_0000_0000u128 + mid / 0x1_0000_0000_0000_0000u128,
                p1 == (p1 / 0x1_0000_0000_0000_0000u128) * two64() + p1 % 0x1_0000_0000_0000_0000u128,
                p2 == (p2 / 0x1_0000_0000_0000_0000u128) * two64() + p2 % 0x1_0000_0000_0000_0000u128,
                p0 == (p0 / 0x1_0000_0000_0000_0000u128) * two64() + p0 % 0x1_0000_0000_0000_0000u128,
                mid == (mid / 0x1_0000_0000_0000_0000u128) * two64() + mid % 0x1_0000_0000_0000_0000u128,
        ;
        assert(pow2(128) == two64() * two64()) by {
            lemma2_to64();
            lemma_pow2_adds(64, 64);
        }
    }
    let ghost ab: int = a * b;
    if high >= d {
        proof {
            // a * b >= d * 2^128, so the quotient is at least 2^128.
            assert(ab >= d * (two64() * two64())) by (nonlinear_arith)
                requires ab == high * (two64() * two64()) + low, high >= d, low >= 0,
            ;
            lemma_div_is_ordered(d * (two64() * two64()), ab, d as int);
            lemma_div_multiples_vanish(two64() * two64(), d as int);
        }
        return (0, true);
    }
    let mut quotient = 0u128;
    let mut remainder = high;
    let mut i: u128 = 128;
    proof {
        lemma2_to64();
        lemma_pow2_pos(128);
        lemma_basic_div(low as int, pow2(128) as int);
        lemma_small_mod(high as nat, d as nat);
        lemma_basic_div(high as int, d as int);
        assert((128 - i) as nat == 0);
        assert(pow2(0) == 1);
        assert((low as nat) / pow2(i as nat) == 0);
        assert(high * pow2((128 - i) as nat) + (low as nat) / pow2(i as nat) == high);
        assert(remainder == (high * pow2((128 - i) as nat) + (low as nat) / pow2(i as nat)) % (d as int));
    }
    while i > 0
        invariant
            0 < d <= 0x8000_0000_0000_0000_0000_0000_0000_0000,
            i <= 128,
            high < d,
            ab == high * pow2(128) + low,
            remainder < d,
            remainder == (high * pow2((128 - i) as nat) + (low as nat) / pow2(i as nat)) % (d as int),
            quotient == ((high * pow2((128 - i) as nat) + (low as nat) / pow2(i as nat)) / (d as int)) * pow2(i as nat),
        decreases i,
    {
        let ghost k: nat = i as nat;
        let ghost p: int = high * pow2((128 - k) as nat) + (low as nat) / pow2(k);
        i = i - 1;
        let ghost km: nat = i as nat;
        proof {
            lemma_u128_shr_is_div(low, i);
            lemma_shift_in(remainder, low >> i);
            lemma_next_prefix(low as nat, k);
            lemma_pow2_unfold((128 - km) as nat);
            lemma_pow2_unfold(k);
            lemma_pow2_pos(km);
            lemma_pow2_pos((128 - k) as nat);
            lemma_div_pos_is_pos(low as int, pow2(k) as int);
        }
        let ghost bit: int = ((low >> i) & 1) as int;
        let ghost p2: int = high * pow2((128 - km) as nat) + (low as nat) / pow2(km);
        proof {
            assert(pow2((128 - km) as nat) == 2 * pow2((128 - k) as nat));
            assert((low as nat) / pow2(km) == 2 * ((low as nat) / pow2(k)) + bit);
            lemma_prefix_doubles(high as int, pow2((128 - k) as nat) as int, pow2((128 - km) as nat) as int,
                ((low as nat) / pow2(k)) as int, ((low as nat) / pow2(km)) as int, bit);
            assert(p >= 0) by (nonlinear_arith)
                requires p == high * pow2((128 - k) as nat) + (low as nat) / pow2(k), high >= 0,
                    pow2((128 - k) as nat) > 0, (low as nat) / pow2(k) >= 0,
            ;
            lemma_long_division_step(p, d as int, bit);
        }
        remainder = (remainder << 1) | ((low >> i) & 1);
        if remainder >= d {
            remainder -= d;
            proof {
                let q = p / (d as int);
                assert(quotient == (2 * q) * pow2(km)) by (nonlinear_arith)
                    requires quotient == q * pow2(k), pow2(k) == 2 * pow2(km),
                ;
                lemma_u128_shr_is_div(quotient, i);
                assert(pow2(km) > 0);
                lemma_div_multiples_vanish(2 * q, pow2(km) as int);
                lemma_mul_is_commutative(2 * q, pow2(km) as int);
                lemma_mod_multiples_basic(q, 2);
                assert((quotient >> i) & 1 == (quotient >> i) % 2) by (bit_vector);
                lemma_set_bit(quotient, i);
                lemma_one_shl(i);
                assert(((2 * q + 1) * pow2(km)) == quotient + pow2(km)) by (nonlinear_arith)
                    requires quotient == (2 * q) * pow2(km),
                ;
            }
            quotient |= 1 << i;
        } else {
            proof {
                let q = p / (d as int);
                assert(quotient == (2 * q) * pow2(km)) by (nonlinear_arith)
                    requires quotient == q * pow2(k), pow2(k) == 2 * pow2(km),
                ;
            }
        }
    }
    proof {
        assert(pow2(0) == 1) by { lemma2_to64(); }
        assert(i == 0);
        assert((low as nat) / pow2(0) == low);
        assert((128 - i) as nat == 128);
        let t = (high * pow2(128) + (low as nat) / pow2(0)) / (d as int);
        assert(quotient == t * pow2(0));
        assert(t * pow2(0) == t * 1);
        lemma_mul_basics(t);
        assert(quotient == t);
        assert(high * pow2(128) + (low as nat) / pow2(0) == high * pow2(128) + low);
        assert(quotient == ((high * pow2(128) + low) / (d as int)));
        assert(quotient == ab / (d as int));
        lemma_div_by_multiple_is_strongly_ordered(low as int, two64() * two64(), 1, two64() * two64());
        assert(high * pow2(128) + low < d * pow2(128)) by (nonlinear_arith)
            requires high < d, low < pow2(128), high >= 0,
        ;
        lemma_div_strictly_bounded_by_mul(high * pow2(128) + low, d as int, pow2(128) as int);
    }
    (quotient, false)
}

proof fn lemma_div_strictly_bounded_by_mul(x: int, d: int, m: int)
    requires
        d > 0,
        0 <= x < d * m,
    ensures
        x / d < m,
{
    assert(m > 0) by (nonlinear_arith)
        requires d > 0, 0 <= x < d * m,
    ;
    lemma_mul_is_commutative(d, m);
    lemma_div_by_multiple_is_strongly_ordered(x, m * d, m, d);
    lemma_div_by_multiple(m, d);
}

/// Magnitude of an `i128` as a `u128`.
fn unsigned_abs(x: i128) -> (r: u128)
    ensures
        r == abs(x as int),
{
    if x < 0 {
        ((-(x + 1)) as u128) + 1
    } else {
        x as u128
    }
}

/// `a * b / d` with a 256-bit intermediate product, truncated toward zero.
/// `None` when `d == 0` or the quotient does not fit in an `i128`.
pub fn mul_div(a: i128, b: i128, d: i128) -> (r: Option<i128>)
    ensures
        r == (match mul_div_spec(a as int, b as int, d as int) {
            Some(q) => Some(q as i128),
            None => None,
        }),
        r matches Some(v) ==> mul_div_spec(a as int, b as int, d as int) == Some(v as int),
{
    if d == 0 {
        return None;
    }
    let a_abs = unsigned_abs(a);
    let b_abs = unsigned_abs(b);
    let d_abs = unsigned_abs(d);

    let (res_abs, overflow) = mul_div_u128(a_abs, b_abs, d_abs);
    if overflow || res_abs > (i128::MAX as u128) {
        return None;
    }

    let res = res_abs as i128;
    if (a < 0) ^ (b < 0) ^ (d < 0) {
        Some(-res)
    } else {
        Some(res)
    }
}

} // verus!

verus! {

/// Integer division truncated toward zero, for a positive divisor.
pub open spec fn trunc_div(x: int, y: int) -> int {
    if x >= 0 { x / y } else { -((-x) / y) }
}

/// The remainder that goes with `trunc_div` (it has the sign of `x`).
pub open spec fn trunc_rem(x: int, y: int) -> int {
    x - y * trunc_div(x, y)
}

pub open spec fn in_i128(x: int) -> bool {
    i128::MIN <= x <= i128::MAX
}

/// A checked `i128` result: `Ok` when `x` fits, `Err(Overflow)` otherwise.
pub open spec fn checked_result(x: int) -> Result<Fixed, MathError> {
    if in_i128(x) { Ok(Fixed(x as i128)) } else { Err(MathError::Overflow) }
}

/// The partial sums of the Taylor series of e^(r / SCALE), scaled by SCALE:
/// from term `i` on, each term is the previous one times `r / (i * SCALE)`,
/// truncated; the sum stops at the first zero term or after term 24.
pub open spec fn exp_series(term: int, r: int, i: int, acc: int) -> Result<int, MathError>
    decreases 25 - i,
{
    if i >= 25 {
        Ok(acc)
    } else {
        match mul_div_spec(term, r, i * SCALE) {
            None => Err(MathError::Overflow),
            Some(t) => if t == 0 {
                Ok(acc)
            } else if !in_i128(acc + t) {
                Err(MathError::Overflow)
            } else {
                exp_series(t, r, i + 1, acc + t)
            },
        }
    }
}

/// e^(x / SCALE) scaled by SCALE, computed as 2^n * e^r with
/// `n = x / LN2` and `r = x % LN2` (both truncated toward zero). A
/// non-negative power of two multiplies the series result, which overflows
/// when the product does not fit an `i128`; a negative one is an arithmetic
/// right shift.
pub open spec fn exp_spec(x: int) -> Result<Fixed, MathError> {
    if x == 0 {
        Ok(Fixed(SCALE))
    } else if x < -42 * SCALE {
        Ok(Fixed(0))
    } else if x > 88 * SCALE {
        Err(MathError::Overflow)
    } else {
        let n = trunc_div(x, LN2 as int);
        let r = trunc_rem(x, LN2 as int);
        match exp_series(SCALE as int, r, 1, SCALE as int) {
            Err(e) => Err(e),
            Ok(s) => if n >= 0 {
                if !in_i128(s * pow2(n as nat)) {
                    Err(MathError::Overflow)
                } else {
                    Ok(Fixed((s * pow2(n as nat)) as i128))
                }
            } else {
                Ok(Fixed((s as i128) >> ((-n) as u32)))
            },
        }
    }
}

/// Doubling `s * 2^k` overflows, so does `s * 2^n` for any larger `n`.
proof fn lemma_doubling_overflow(s: int, k: nat, n: nat)
    requires
        k < n,
        !in_i128(2 * (s * pow2(k))),
    ensures
        !in_i128(s * pow2(n)),
{
    lemma_pow2_unfold(k + 1);
    lemma_pow2_adds(k + 1, (n - k - 1) as nat);
    lemma_pow2_pos((n - k - 1) as nat);
    assert(n == (k + 1) + (n - k - 1) as nat);
    let c = 2 * (s * pow2(k));
    let m = pow2((n - k - 1) as nat);
    assert(s * pow2(n) == c * m) by (nonlinear_arith)
        requires pow2(n) == pow2(k + 1) * m, pow2(k + 1) == 2 * pow2(k), c == 2 * (s * pow2(k));
    assert(!in_i128(c * m)) by (nonlinear_arith)
        requires !in_i128(c), m >= 1;
}

/// Range reduction for ln: halves `x` while it exceeds 2 * SCALE and doubles
/// it while it is below SCALE, counting the halvings in `n`.
pub open spec fn ln_reduce_down(x: int, n: int) -> (int, int)
    decreases x,
{
    if x > 2 * SCALE && x > 0 { ln_reduce_down(x / 2, n + 1) } else { (x, n) }
}

pub open spec fn ln_reduce_up(x: int, n: int) -> (int, int)
    decreases if 0 < x < SCALE { SCALE - x } else { 0 },
{
    if 0 < x < SCALE { ln_reduce_up(2 * x, n - 1) } else { (x, n) }
}

/// The Newton iteration y <- y + 2 * (x - e^y) / (x + e^y) for ln(x), at most
/// `left` more steps, stopping after a step of magnitude at most 1.
pub open spec fn ln_newton(x: int, y: int, left: nat) -> Result<int, MathError>
    decreases left,
{
    if left == 0 {
        Ok(y)
    } else {
        match exp_spec(y) {
            Err(e) => Err(e),
            Ok(ey) => {
                let num = 2 * (x - ey.0);
                let den = x + ey.0;
                if !in_i128(x - ey.0) || !in_i128(num) || !in_i128(den) {
                    Err(MathError::Overflow)
                } else {
                    match mul_div_spec(num, SCALE as int, den) {
                        None => Err(MathError::Overflow),
                        Some(delta) => if !in_i128(y + delta) {
                            Err(MathError::Overflow)
                        } else if abs(delta) <= 1 {
                            Ok(y + delta)
                        } else {
                            ln_newton(x, y + delta, (left - 1) as nat)
                        },
                    }
                }
            },
        }
    }
}

/// ln(x / SCALE) scaled by SCALE: range reduction to [SCALE, 2 * SCALE],
/// eight Newton steps from 0, then n * LN2 added back.
pub open spec fn ln_spec(x: int) -> Result<Fixed, MathError> {
    if x <= 0 {
        Err(MathError::InvalidInput)
    } else {
        let (x1, n1) = ln_reduce_down(x, 0);
        let (x2, n2) = ln_reduce_up(x1, n1);
        match ln_newton(x2, 0, 8) {
            Err(e) => Err(e),
            Ok(y) => if !in_i128(n2 * LN2) {
                Err(MathError::Overflow)
            } else {
                checked_result(y + n2 * LN2)
            },
        }
    }
}

/// x^y = e^(y * ln x), with 0^0 = 1 and 0^y = 0 otherwise.
pub open spec fn pow_spec(x: int, y: int) -> Result<Fixed, MathError> {
    if x == 0 {
        if y == 0 { Ok(Fixed(SCALE)) } else { Ok(Fixed(0)) }
    } else if x < 0 {
        Err(MathError::InvalidInput)
    } else {
        match ln_spec(x) {
            Err(e) => Err(e),
            Ok(lnx) => match mul_div_result(y, lnx.0 as int, SCALE as int) {
                Err(e) => Err(e),
                Ok(ylnx) => exp_spec(ylnx.0 as int),
            },
        }
    }
}

impl Fixed {
    /// The fixed-point zero.
    pub fn zero() -> (r: Fixed)
        ensures
            r.0 == 0,
    {
        Fixed(0)
    }

    /// The fixed-point one (SCALE).
    pub fn one() -> (r: Fixed)
        ensures
            r.0 == SCALE,
    {
        Fixed(SCALE)
    }

    pub fn from_int(v: i128) -> (r: Result<Fixed, MathError>)
        ensures
            r == checked_result(v * SCALE),
    {
        match v.checked_mul(SCALE) {
            Some(x) => Ok(Fixed(x)),
            None => Err(MathError::Overflow),
        }
    }

    pub fn to_int(self) -> (r: i128)
        ensures
            r == trunc_div(self.0 as int, SCALE as int),
    {
        self.0 / SCALE
    }

    pub fn add(self, other: Fixed) -> (r: Result<Fixed, MathError>)
        ensures
            r == checked_result(self.0 + other.0),
    {
        match self.0.checked_add(other.0) {
            Some(x) => Ok(Fixed(x)),
            None => Err(MathError::Overflow),
        }
    }

    pub fn sub(self, other: Fixed) -> (r: Result<Fixed, MathError>)
        ensures
            r == checked_result(self.0 - other.0),
    {
        match self.0.checked_sub(other.0) {
            Some(x) => Ok(Fixed(x)),
            None => Err(MathError::Overflow),
        }
    }

    pub fn mul(self, other: Fixed) -> (r: Result<Fixed, MathError>)
        ensures
            r == mul_div_result(self.0 as int, other.0 as int, SCALE as int),
    {
        match mul_div(self.0, other.0, SCALE) {
            Some(x) => Ok(Fixed(x)),
            None => Err(MathError::Overflow),
        }
    }

    pub fn div(self, other: Fixed) -> (r: Result<Fixed, MathError>)
        ensures
            other.0 == 0 ==> r == Err::<Fixed, MathError>(MathError::DivisionByZero),
            other.0 != 0 ==> r == mul_div_result(self.0 as int, SCALE as int, other.0 as int),
    {
        if other.0 == 0 {
            return Err(MathError::DivisionByZero);
        }
        match mul_div(self.0, SCALE, other.0) {
            Some(x) => Ok(Fixed(x)),
            None => Err(MathError::Overflow),
        }
    }

    /// Exponential function e^x.
    /// Uses range reduction: e^x = 2^n * e^r where r = x - n*ln(2).
    pub fn exp(self) -> (r: Result<Fixed, MathError>)
        ensures
            r == exp_spec(self.0 as int),
    {
        if self.0 == 0 {
            return Ok(Fixed::one());
        }
        if self.0 < -42 * SCALE {
            return Ok(Fixed::zero());
        }
        if self.0 > 88 * SCALE {
            return Err(MathError::Overflow);
        }

        let x = self.0;
        let n = x / LN2;
        let r = x % LN2;

        let mut result = SCALE;
        let mut term = SCALE;
        let mut i: i128 = 1;
        let ghost total = exp_series(SCALE as int, r as int, 1, SCALE as int);
        while i < 25
            invariant_except_break
                x == self.0,
                x != 0,
                -42 * SCALE <= x <= 88 * SCALE,
                n == trunc_div(x as int, LN2 as int),
                r == trunc_rem(x as int, LN2 as int),
                total == exp_series(SCALE as int, r as int, 1, SCALE as int),
                1 <= i <= 25,
                total == exp_series(term as int, r as int, i as int, result as int),
            ensures
                x == self.0,
                n == trunc_div(x as int, LN2 as int),
                r == trunc_rem(x as int, LN2 as int),
                total == exp_series(SCALE as int, r as int, 1, SCALE as int),
                total == Ok::<int, MathError>(result as int),
            decreases 25 - i,
        {
            term = match mul_div(term, r, i * SCALE) {
                Some(t) => t,
                None => return Err(MathError::Overflow),
            };
            if term == 0 {
                break;
            }
            result = match result.checked_add(term) {
                Some(v) => v,
                None => return Err(MathError::Overflow),
            };
            i = i + 1;
        }
        if n >= 0 {
            // Multiply by 2^n, refusing any bit that would be lost.
            let ghost s = result as int;
            let mut k: i128 = 0;
            proof {
                lemma2_to64();
                assert(pow2(0) == 1);
                assert(s * pow2(0) == s);
            }
            while k < n
                invariant
                    0 <= k <= n,
                    result as int == s * pow2(k as nat),
                    x == self.0,
                    -42 * SCALE <= x <= 88 * SCALE,
                    x != 0,
                    n == trunc_div(x as int, LN2 as int),
                    r == trunc_rem(x as int, LN2 as int),
                    total == exp_series(SCALE as int, r as int, 1, SCALE as int),
                    total == Ok::<int, MathError>(s),
                decreases n - k,
            {
                proof {
                    lemma_pow2_unfold((k + 1) as nat);
                }
                result = match result.checked_mul(2) {
                    Some(v) => v,
                    None => {
                        proof {
                            lemma_doubling_overflow(s, k as nat, n as nat);
                        }
                        return Err(MathError::Overflow);
                    },
                };
                assert(result as int == s * pow2((k + 1) as nat)) by (nonlinear_arith)
                    requires
                        result as int == 2 * (s * pow2(k as nat)),
                        pow2((k + 1) as nat) == 2 * pow2(k as nat);
                k = k + 1;
            }
        } else {
            result >>= (-n) as u32;
        }
        Ok(Fixed(result))
    }

    /// Natural logarithm ln(x)
    /// Uses Newton's method with a good initial guess
    pub fn ln(self) -> (r: Result<Fixed, MathError>)
        ensures
            r == ln_spec(self.0 as int),
    {
        if self.0 <= 0 {
            return Err(MathError::InvalidInput);
        }

        let mut x = self.0;
        let mut n = 0i128;

        // Range reduction: ln(x) = ln(x / 2^n) + n*ln(2)
        // Bring x to [1, 2] range
        proof {
            lemma2_to64();
            lemma2_to64_rest();
            lemma_mul_basics(x as int);
        }
        while x > 2 * SCALE
            invariant
                x > 0,
                0 <= n <= 126,
                x * pow2(n as nat) <= i128::MAX,
                n > 0 ==> x >= SCALE,
                ln_reduce_down(self.0 as int, 0) == ln_reduce_down(x as int, n as int),
            decreases x,
        {
            proof {
                assert(x >> 1 == x / 2) by (bit_vector)
                    requires x > 0,
                ;
                lemma_pow2_unfold((n + 1) as nat);
                assert((x / 2) * pow2((n + 1) as nat) <= x * pow2(n as nat)) by (nonlinear_arith)
                    requires pow2((n + 1) as nat) == 2 * pow2(n as nat), x > 0,
                ;
                assert(pow2(n as nat) <= i128::MAX) by (nonlinear_arith)
                    requires x * pow2(n as nat) <= i128::MAX, x >= 1,
                ;
                if n >= 126 {
                    if n > 126 { lemma_pow2_strictly_increases(126, n as nat); }
                    lemma2_to64();
                    lemma2_to64_rest();
                    lemma_pow2_adds(64, 62);
                    assert(pow2(126) == 0x4000_0000_0000_0000_0000_0000_0000_0000);
                    assert(x * pow2(n as nat) > i128::MAX) by (nonlinear_arith)
                        requires x > 2 * SCALE, pow2(n as nat) >= 0x4000_0000_0000_0000_0000_0000_0000_0000,
                    ;
                }
            }
            x >>= 1;
            n += 1;
        }
        let ghost red1 = ln_reduce_down(self.0 as int, 0);
        proof {
            assert(pow2(0) == 1);
        }
        while x < SCALE
            invariant
                x > 0,
                n > 0 ==> x >= SCALE,
                n <= 0 ==> x >= pow2((-n) as nat),
                n <= 127,
                ln_reduce_up(red1.0, red1.1) == ln_reduce_up(x as int, n as int),
            decreases if x < SCALE { SCALE - x } else { 0 },
        {
            proof {
                assert(n <= 0);
                if -n >= 60 {
                    if -n > 60 { lemma_pow2_strictly_increases(60, (-n) as nat); }
                    lemma2_to64();
                    lemma2_to64_rest();
                    assert(pow2(60) == 0x1000_0000_0000_0000);
                }
                lemma_pow2_unfold((-n + 1) as nat);
                assert(x << 1 == 2 * x) by (bit_vector)
                    requires 0 < x < 0x1_0000_0000_0000_0000,
                ;
            }
            x <<= 1;
            n -= 1;
        }

        // ln(x) for x in [1, 2] using Newton's method
        // y_{n+1} = y_n + 2 * (x - e^y_n) / (x + e^y_n)
        let mut y = 0i128; // ln(1) = 0 is a good start for [1, 2]

        let ghost reduced = ln_reduce_up(red1.0, red1.1);
        proof {
            assert(reduced == (x as int, n as int));
        }
        let mut k: u32 = 0;
        while k < 8
            invariant_except_break
                self.0 > 0,
                ln_spec(self.0 as int) == (match ln_newton(x as int, 0, 8) {
                    Err(e) => Err(e),
                    Ok(yy) => if !in_i128(n * LN2) {
                        Err(MathError::Overflow)
                    } else {
                        checked_result(yy + n * LN2)
                    },
                }),
                k <= 8,
                reduced == (x as int, n as int),
                ln_newton(x as int, 0, 8) == ln_newton(x as int, y as int, (8 - k) as nat),
            ensures
                ln_spec(self.0 as int) == (match ln_newton(x as int, 0, 8) {
                    Err(e) => Err(e),
                    Ok(yy) => if !in_i128(n * LN2) {
                        Err(MathError::Overflow)
                    } else {
                        checked_result(yy + n * LN2)
                    },
                }),
                ln_newton(x as int, 0, 8) == Ok::<int, MathError>(y as int),
            decreases 8 - k,
        {
            let ey = Fixed(y).exp()?;
            let diff = match x.checked_sub(ey.0) {
                Some(v) => v,
                None => return Err(MathError::Overflow),
            };
            let num = match diff.checked_mul(2) {
                Some(v) => v,
                None => return Err(MathError::Overflow),
            };
            let den = match x.checked_add(ey.0) {
                Some(v) => v,
                None => return Err(MathError::Overflow),
            };
            // (num * SCALE) / den
            let delta = match mul_div(num, SCALE, den) {
                Some(v) => v,
                None => return Err(MathError::Overflow),
            };
            y = match y.checked_add(delta) {
                Some(v) => v,
                None => return Err(MathError::Overflow),
            };
            let delta_abs = if delta < 0 { -delta } else { delta };
            if delta_abs <= 1 {
                break;
            }
            k = k + 1;
        }

        // Add n * ln(2)
        let nln2 = match n.checked_mul(LN2) {
            Some(v) => v,
            None => return Err(MathError::Overflow),
        };
        match y.checked_add(nln2) {
            Some(v) => Ok(Fixed(v)),
            None => Err(MathError::Overflow),
        }
    }

    /// x^y = e^(y * ln x).
    pub fn pow(self, y: Fixed) -> (r: Result<Fixed, MathError>)
        ensures
            r == pow_spec(self.0 as int, y.0 as int),
    {
        if self.0 == 0 {
            return if y.0 == 0 {
                Ok(Fixed::one())
            } else {
                Ok(Fixed::zero())
            };
        }
        if self.0 < 0 {
            return Err(MathError::InvalidInput);
        }

        let lnx = self.ln()?;
        let ylnx = y.mul(lnx)?;
        ylnx.exp()
    }
}

/// Multiply two WAD fixed-point numbers: `(a * b) / WAD`.
/// The intermediate product is computed with full 256-bit precision, so
/// results are exact up to the final truncation. Overflow returns
/// `MathError::Overflow` instead of panicking.
pub fn wad_mul(a: i128, b: i128) -> (r: Result<i128, MathError>)
    ensures
        r == (match mul_div_spec(a as int, b as int, WAD as int) {
            Some(q) => Ok(q as i128),
            None => Err(MathError::Overflow),
        }),
{
    match mul_div(a, b, WAD) {
        Some(v) => Ok(v),
        None => Err(MathError::Overflow),
    }
}

/// Divide two WAD fixed-point numbers: `(a * WAD) / b`.
/// A zero divisor returns `MathError::DivisionByZero`.
pub fn wad_div(a: i128, b: i128) -> (r: Result<i128, MathError>)
    ensures
        b == 0 ==> r == Err::<i128, MathError>(MathError::DivisionByZero),
        b != 0 ==> r == (match mul_div_spec(a as int, WAD as int, b as int) {
            Some(q) => Ok(q as i128),
            None => Err(MathError::Overflow),
        }),
{
    if b == 0 {
        return Err(MathError::DivisionByZero);
    }
    match mul_div(a, WAD, b) {
        Some(v) => Ok(v),
        None => Err(MathError::Overflow),
    }
}

/// Multiply two RAY fixed-point numbers: `(a * b) / RAY`.
pub fn ray_mul(a: i128, b: i128) -> (r: Result<i128, MathError>)
    ensures
        r == (match mul_div_spec(a as int, b as int, RAY as int) {
            Some(q) => Ok(q as i128),
            None => Err(MathError::Overflow),
        }),
{
    match mul_div(a, b, RAY) {
        Some(v) => Ok(v),
        None => Err(MathError::Overflow),
    }
}

/// Divide two RAY fixed-point numbers: `(a * RAY) / b`.
/// A zero divisor returns `MathError::DivisionByZero`.
pub fn ray_div(a: i128, b: i128) -> (r: Result<i128, MathError>)
    ensures
        b == 0 ==> r == Err::<i128, MathError>(MathError::DivisionByZero),
        b != 0 ==> r == (match mul_div_spec(a as int, RAY as int, b as int) {
            Some(q) => Ok(q as i128),
            None => Err(MathError::Overflow),
        }),
{
    if b == 0 {
        return Err(MathError::DivisionByZero);
    }
    match mul_div(a, RAY, b) {
        Some(v) => Ok(v),
        None => Err(MathError::Overflow),
    }
}


/// A fixed-point result as the raw `i128` it holds.
pub open spec fn raw(r: Result<Fixed, MathError>) -> Result<i128, MathError> {
    match r {
        Ok(f) => Ok(f.0),
        Err(e) => Err(e),
    }
}

/// The math contract's entry points, on raw `i128` fixed-point values.
pub struct Math;

impl Math {
    pub fn exp(x: i128) -> (r: Result<i128, MathError>)
        ensures
            r == raw(exp_spec(x as int)),
    {
        match Fixed(x).exp() {
            Ok(f) => Ok(f.0),
            Err(e) => Err(e),
        }
    }

    pub fn ln(x: i128) -> (r: Result<i128, MathError>)
        ensures
            r == raw(ln_spec(x as int)),
    {
        match Fixed(x).ln() {
            Ok(f) => Ok(f.0),
            Err(e) => Err(e),
        }
    }

    pub fn pow(x: i128, y: i128) -> (r: Result<i128, MathError>)
        ensures
            r == raw(pow_spec(x as int, y as int)),
    {
        match Fixed(x).pow(Fixed(y)) {
            Ok(f) => Ok(f.0),
            Err(e) => Err(e),
        }
    }

    pub fn wad_mul(a: i128, b: i128) -> (r: Result<i128, MathError>)
        ensures
            r == (match mul_div_spec(a as int, b as int, WAD as int) {
                Some(q) => Ok(q as i128),
                None => Err(MathError::Overflow),
            }),
    {
        wad_mul(a, b)
    }

    pub fn wad_div(a: i128, b: i128) -> (r: Result<i128, MathError>)
        ensures
            b == 0 ==> r == Err::<i128, MathError>(MathError::DivisionByZero),
            b != 0 ==> r == (match mul_div_spec(a as int, WAD as int, b as int) {
                Some(q) => Ok(q as i128),
                None => Err(MathError::Overflow),
            }),
    {
        wad_div(a, b)
    }

    pub fn ray_mul(a: i128, b: i128) -> (r: Result<i128, MathError>)
        ensures
            r == (match mul_div_spec(a as int, b as int, RAY as int) {
                Some(q) => Ok(q as i128),
                None => Err(MathError::Overflow),
            }),
    {
        ray_mul(a, b)
    }

    pub fn ray_div(a: i128, b: i128) -> (r: Result<i128, MathError>)
        ensures
            b == 0 ==> r == Err::<i128, MathError>(MathError::DivisionByZero),
            b != 0 ==> r == (match mul_div_spec(a as int, RAY as int, b as int) {
                Some(q) => Ok(q as i128),
                None => Err(MathError::Overflow),
            }),
    {
        ray_div(a, b)
    }
}

/// Multiplying or dividing by one unit (`WAD` or `RAY`) gives the value
/// back, for every value but `i128::MIN`, whose magnitude has no `i128`.
pub proof fn law_unit_is_neutral(a: i128)
    requires
        a != i128::MIN,
    ensures
        mul_div_spec(a as int, WAD as int, WAD as int) == Some(a as int),
        mul_div_spec(a as int, RAY as int, RAY as int) == Some(a as int),
{
    vstd::arithmetic::div_mod::lemma_div_by_multiple(abs(a as int), WAD as int);
    vstd::arithmetic::div_mod::lemma_div_by_multiple(abs(a as int), RAY as int);
}

/// An exact WAD division round-trips: when `a * WAD` is a multiple `q * b`
/// of `b` and `q` fits an `i128`, dividing `a` by `b` gives `q` and
/// multiplying `q` by `b` gives `a` back. (`i128::MIN` is left out: its
/// magnitude has no `i128`, so multiplying back is refused as overflow.)
pub proof fn law_wad_round_trip(a: i128, b: i128, q: int)
    requires
        b != 0,
        a != i128::MIN,
        q * b == a * WAD,
        -i128::MAX <= q <= i128::MAX,
    ensures
        mul_div_spec(a as int, WAD as int, b as int) == Some(q),
        mul_div_spec(q, b as int, WAD as int) == Some(a as int),
{
    let aa = abs(a as int);
    let ab = abs(b as int);
    let aq = abs(q);
    let w = WAD as int;
    assert(aq * ab == aa * w) by (nonlinear_arith)
        requires q * b == a * w, aq == abs(q), ab == abs(b as int), aa == abs(a as int), w > 0;
    assert(ab > 0);
    vstd::arithmetic::div_mod::lemma_div_by_multiple(aq, ab);
    vstd::arithmetic::div_mod::lemma_div_by_multiple(aa, w);
    assert((aa * w) / ab == aq);
    assert((aq * ab) / w == aa);
    // Signs: q has the sign of a * b.
    if a as int == 0 {
        assert(q * b == 0);
        assert(q == 0) by (nonlinear_arith) requires q * b == 0, b != 0;
    } else if a > 0 {
        assert((q > 0) == (b > 0)) by (nonlinear_arith) requires q * b == a * w, a > 0, w > 0, b != 0;
    } else {
        assert((q < 0) == (b > 0)) by (nonlinear_arith) requires q * b == a * w, a < 0, w > 0, b != 0;
    }
}

/// An arithmetic right shift of a non-negative value by `j` divides it by
/// 2^j, rounding down.
proof fn lemma_shr_is_div(v: i128, j: u32)
    requires
        v >= 0,
        j < 127,
    ensures
        v >> j >= 0,
        (v >> j) as int == (v as int) / (pow2(j as nat) as int),
    decreases j,
{
    if j == 0 {
        assert(v >> 0u32 == v) by (bit_vector);
        lemma2_to64();
    } else {
        let i: u32 = (j - 1) as u32;
        lemma_shr_is_div(v, i);
        let w = v >> i;
        assert(v >> j == w >> 1u32) by (bit_vector)
            requires j == i + 1, i < 126, w == v >> i;
        assert(w >= 0 ==> w >> 1u32 >= 0 && (w >> 1u32) as int == w as int / 2) by (bit_vector);
        lemma_pow2_unfold(j as nat);
        lemma_pow2_pos(i as nat);
        lemma_div_denominator(v as int, pow2(i as nat) as int, 2);
        assert(pow2(i as nat) as int * 2 == pow2(j as nat) as int);
        assert((w as int) / 2 == ((v as int) / (pow2(i as nat) as int)) / 2);
    }
}

/// The truncated quotient and remainder of `k * LN2` by LN2.
proof fn lemma_ln2_multiple(k: int)
    ensures
        trunc_div(k * LN2, LN2 as int) == k,
        trunc_rem(k * LN2, LN2 as int) == 0,
{
    if k >= 0 {
        assert(k * LN2 >= 0) by (nonlinear_arith) requires k >= 0;
        lemma_div_by_multiple(k, LN2 as int);
    } else {
        assert(k * LN2 < 0) by (nonlinear_arith) requires k < 0;
        assert(-(k * LN2) == (-k) * LN2) by (nonlinear_arith);
        lemma_div_by_multiple(-k, LN2 as int);
    }
}

/// The series for a remainder of zero is exactly one.
proof fn lemma_series_at_zero()
    ensures
        exp_series(SCALE as int, 0, 1, SCALE as int) == Ok::<int, MathError>(SCALE as int),
{
    assert(abs(0) == 0);
    assert(abs(SCALE as int) == SCALE);
    assert(abs(1 * SCALE) == SCALE);
    assert(abs(SCALE as int) * abs(0) == 0);
    assert(0int / (SCALE as int) == 0);
    assert(mul_div_spec(SCALE as int, 0, 1 * SCALE) == Some(0int));
}

/// e^(k ln 2) = 2^k: at a whole multiple of ln 2, `exp` is SCALE times that
/// power of two, exactly for k > 0 (or `Overflow` where it does not fit an
/// i128) and rounded down for k < 0.
pub proof fn law_exp_of_ln2_multiples(k: int)
    requires
        -60 <= k <= 126,
    ensures
        k >= 0 ==> exp_spec(k * LN2) == checked_result(SCALE * pow2(k as nat)),
        k < 0 ==> exp_spec(k * LN2) == Ok::<Fixed, MathError>(Fixed(((SCALE as int) / (pow2((-k) as nat) as int)) as i128)),
{
    lemma_ln2_multiple(k);
    lemma_series_at_zero();
    if k == 0 {
        lemma2_to64();
    } else if k > 0 {
        assert(k * LN2 <= 88 * SCALE) by (nonlinear_arith) requires 0 < k <= 126;
        assert(k * LN2 > 0) by (nonlinear_arith) requires k > 0;
    } else {
        assert(k * LN2 >= -42 * SCALE) by (nonlinear_arith) requires -60 <= k < 0;
        assert(k * LN2 < 0) by (nonlinear_arith) requires k < 0;
        lemma_shr_is_div(SCALE, (-k) as u32);
    }
}

/// e^(x + ln 2) = 2 e^x for x > 0: one more ln 2 doubles the result
/// exactly (or overflows where the double does not fit).
pub proof fn law_exp_doubles_per_ln2(x: int)
    requires
        0 < x,
        x + LN2 <= 88 * SCALE,
    ensures
        exp_spec(x) matches Ok(v) ==> exp_spec(x + LN2) == checked_result(2 * v.0),
{
    let l = LN2 as int;
    let n = trunc_div(x, l);
    let r = trunc_rem(x, l);
    lemma_fundamental_div_mod(x, l);
    let q = x / l;
    let m = x % l;
    assert(x + l == l * (q + 1) + m);
    lemma_div_multiples_vanish_fancy(q + 1, m, l);
    assert(trunc_div(x + l, l) == n + 1);
    assert(trunc_rem(x + l, l) == r);
    if let Ok(v) = exp_spec(x) {
        assert(q >= 0) by (nonlinear_arith) requires x > 0, l > 0, q == x / l;
        match exp_series(SCALE as int, r, 1, SCALE as int) {
            Err(_) => {},
            Ok(sr) => {
                lemma_pow2_unfold((n + 1) as nat);
                let p = pow2(n as nat) as int;
                assert(sr * pow2((n + 1) as nat) == 2 * (sr * p)) by (nonlinear_arith)
                    requires pow2((n + 1) as nat) == 2 * p;
                assert(v.0 == sr * p);
            },
        }
    }
}

} // verus!
