//! IEEE 754 binary16 and binary32, by their bit patterns.
//!
//! ```text
//!            sign  exponent  mantissa   bias   subnormal value
//!   binary16   1      5         10       15    mant * 2^-24
//!   binary32   1      8         23      127    mant * 2^-149
//! ```
use super::blocks;
use crate::bits::F32Bits;
use vstd::arithmetic::power2::*;
use vstd::prelude::*;

verus! {

/// The magnitude of a binary16 number in units of 2^-24, from its pattern without
/// the sign.  Infinity counts as the number that would follow the largest.
pub open spec fn f16_units(h: nat) -> nat {
    let e = h / 1024;
    let m = h % 1024;
    if e == 0 {
        m
    } else {
        (1024 + m) * pow2((e - 1) as nat)
    }
}

/// The magnitude of a binary32 number in units of 2^-149, from its pattern without
/// the sign.  Infinity counts as the number that would follow the largest.
pub open spec fn f32_units(b: nat) -> nat {
    let e = b / 0x80_0000;
    let m = b % 0x80_0000;
    if e == 0 {
        m
    } else {
        (0x80_0000 + m) * pow2((e - 1) as nat)
    }
}

/// The magnitude of a binary16 number in units of 2^-149.
pub open spec fn f16_fine(h: nat) -> nat {
    f16_units(h) * pow2(125)
}

/// The pattern of `m * 2^(e - 136)`, for a positive `m` below 2048.
pub open spec fn normalized(m: nat, e: nat) -> nat
    decreases e,
{
    if m >= 1024 || e == 0 {
        (e * 0x80_0000 + (m - 1024) * 8192) as nat
    } else {
        normalized(2 * m, (e - 1) as nat)
    }
}

/// The binary32 pattern, without the sign, of a binary16 magnitude.
pub open spec fn widened_magnitude(h: nat) -> nat {
    let e = h / 1024;
    let m = h % 1024;
    if e == 31 {
        0x7f80_0000 + m * 8192
    } else if e > 0 {
        (e + 112) * 0x80_0000 + m * 8192
    } else if m == 0 {
        0
    } else {
        normalized(m, 113)
    }
}

/// The binary32 pattern of a binary16 number.
pub open spec fn widened(h: u16) -> u32 {
    (h as nat / 0x8000 * 0x8000_0000 + widened_magnitude(h as nat % 0x8000)) as u32
}

proof fn lemma_normalized(m: nat, e: nat)
    requires
        1 <= m < 2048,
        103 <= e <= 113,
        m < 1024 ==> m * pow2((e - 103) as nat) >= 1024,
    ensures
        f32_units(normalized(m, e)) == m * 8192 * pow2((e - 1) as nat),
        normalized(m, e) < 0x7f80_0000,
    decreases e,
{
    if m >= 1024 {
        let b = normalized(m, e);
        assert(b == e * 0x80_0000 + (m - 1024) * 8192);
        assert(b / 0x80_0000 == e);
        assert(b % 0x80_0000 == (m - 1024) * 8192);
        assert(0x80_0000 + (m - 1024) * 8192 == m * 8192);
    } else {
        assert(e > 103) by {
            lemma2_to64();
            if e == 103 {
                assert(m * pow2(0) == m) by (nonlinear_arith)
                    requires
                        pow2(0) == 1,
                ;
            }
        }
        lemma_pow2_unfold((e - 103) as nat);
        lemma_pow2_unfold((e - 1) as nat);
        let p = pow2((e - 104) as nat);
        let q = pow2((e - 2) as nat);
        assert((2 * m) * p == m * (2 * p)) by (nonlinear_arith);
        lemma_normalized(2 * m, (e - 1) as nat);
        assert((2 * m) * 8192 * q == m * 8192 * (2 * q)) by (nonlinear_arith);
    }
}

/// Every subnormal binary16 number is a normal binary32 number.
proof fn lemma_subnormal(m: nat)
    requires
        1 <= m < 1024,
    ensures
        f32_units(normalized(m, 113)) == m * pow2(125),
        normalized(m, 113) < 0x7f80_0000,
{
    lemma2_to64();
    assert(pow2(10) == 1024);
    assert(m * 1024 >= 1024);
    lemma_normalized(m, 113);
    lemma_pow2_adds(13, 112);
    assert(m * 8192 * pow2(112) == m * (8192 * pow2(112))) by (nonlinear_arith);
}

/// Widening a half-precision number is exact, and keeps its sign; infinities and
/// NaNs stay what they are, with the payload in the high bits.
pub proof fn law_widening_is_exact(h: u16)
    ensures
        widened(h) / 0x8000_0000 == h / 0x8000,
        widened(h) as nat % 0x8000_0000 == widened_magnitude(h as nat % 0x8000),
        h as nat % 0x8000 < 0x7c00 ==> f32_units(widened(h) as nat % 0x8000_0000) == f16_fine(
            h as nat % 0x8000,
        ) && widened(h) as nat % 0x8000_0000 < 0x7f80_0000,
        h as nat % 0x8000 >= 0x7c00 ==> widened(h) as nat % 0x8000_0000 == 0x7f80_0000 + (h as nat
            % 0x8000 - 0x7c00) * 8192,
{
    let g = h as nat % 0x8000;
    let e = g / 1024;
    let m = g % 1024;
    if e == 31 {
    } else if e > 0 {
        let b = widened_magnitude(g);
        assert(b == (e + 112) * 0x80_0000 + m * 8192);
        assert(b / 0x80_0000 == e + 112);
        assert(b % 0x80_0000 == m * 8192);
        lemma2_to64();
        lemma_pow2_adds(13, (e + 111) as nat);
        lemma_pow2_adds((e - 1) as nat, 125);
        let p = pow2((e + 111) as nat);
        let q = pow2((e - 1) as nat);
        let r = pow2(125);
        assert((0x80_0000 + m * 8192) * p == (1024 + m) * (8192 * p)) by (nonlinear_arith);
        assert((1024 + m) * q * r == (1024 + m) * (q * r)) by (nonlinear_arith);
    } else if m > 0 {
        lemma_subnormal(m);
    } else {
        assert(f32_units(0) == 0);
        assert(0 * pow2(125) == 0);
    }
}

/// f16 bit pattern to f32.  Exact for every one of the 65536 inputs.
pub fn f16_to_f32(h: u16) -> (r: F32Bits)
    ensures
        r.0 == widened(h),
{
    proof {
        law_widening_is_exact(h);
    }
    let sign: u32 = (h / 0x8000) as u32 * 0x8000_0000;
    let exp: u32 = (h % 0x8000 / 1024) as u32;
    let mant: u32 = (h % 1024) as u32;
    assert(h % 0x8000 % 1024 == h % 1024);
    let magnitude: u32 = if exp == 31 {
        0x7f80_0000 + mant * 8192
    } else if exp > 0 {
        (exp + 112) * 0x80_0000 + mant * 8192
    } else if mant == 0 {
        0
    } else {
        // Move the leading one up to the place where it is implicit.
        let mut m: u32 = mant;
        let mut e: u32 = 113;
        proof {
            lemma2_to64();
            assert(mant * 1024 >= 1024);
        }
        while m < 1024
            invariant
                1 <= m < 2048,
                103 <= e <= 113,
                m < 1024 ==> m * pow2((e - 103) as nat) >= 1024,
                normalized(m as nat, e as nat) == normalized(mant as nat, 113),
            decreases e,
        {
            assert(e > 103) by {
                lemma2_to64();
                if e == 103 {
                    assert(m * pow2(0) == m) by (nonlinear_arith)
                        requires
                            pow2(0) == 1,
                    ;
                }
            }
            proof {
                lemma_pow2_unfold((e - 103) as nat);
                let p = pow2((e - 104) as nat);
                assert((2 * m) * p == m * (2 * p)) by (nonlinear_arith);
            }
            m = 2 * m;
            e = e - 1;
        }
        e * 0x80_0000 + (m - 1024) * 8192
    };
    F32Bits(sign + magnitude)
}

/// No binary16 number is nearer to `x` units of 2^-149 than `h`, and of two as near
/// `h` is the one with an even pattern.
pub open spec fn is_nearest_half(h: nat, x: nat) -> bool {
    &&& h <= 0x7c00
    &&& h > 0 ==> {
        let middle = f16_fine((h - 1) as nat) + f16_fine(h);
        middle < 2 * x || (middle == 2 * x && h % 2 == 0)
    }
    &&& h < 0x7c00 ==> {
        let middle = f16_fine(h) + f16_fine(h + 1);
        2 * x < middle || (2 * x == middle && h % 2 == 0)
    }
}

/// `h` is what a binary32 number becomes in half precision: rounded to the nearest,
/// ties to even; past the range an infinity; a NaN keeps the high bits of its
/// payload and is made quiet, so that it cannot become an infinity.
pub open spec fn narrows(x: u32, h: u16) -> bool {
    let magnitude = x as nat % 0x8000_0000;
    let result = h as nat % 0x8000;
    &&& h / 0x8000 == x / 0x8000_0000
    &&& if magnitude > 0x7f80_0000 {
        let payload = (magnitude - 0x7f80_0000) / 8192;
        result == 0x7c00 + (if payload >= 0x200 {
            payload
        } else {
            payload + 0x200
        })
    } else if magnitude == 0x7f80_0000 {
        result == 0x7c00
    } else {
        is_nearest_half(result, f32_units(magnitude))
    }
}

/// The distance from a binary16 number to the next, in units of 2^-24.
proof fn lemma_f16_gap(h: nat)
    requires
        h < 0x7c00,
    ensures
        f16_units(h + 1) == f16_units(h) + pow2(
            if h / 1024 == 0 {
                0
            } else {
                (h / 1024 - 1) as nat
            },
        ),
        f16_units(h) < f16_units(h + 1),
        f16_fine(h) < f16_fine(h + 1),
{
    let e = h / 1024;
    let m = h % 1024;
    lemma2_to64();
    if e == 0 {
        if m == 1023 {
            assert((h + 1) / 1024 == 1);
            assert((h + 1) % 1024 == 0);
            assert(1024 * pow2(0) == 1024);
        } else {
            assert((h + 1) / 1024 == 0);
        }
    } else {
        let p = pow2((e - 1) as nat);
        lemma_pow2_pos((e - 1) as nat);
        if m == 1023 {
            assert((h + 1) / 1024 == e + 1);
            assert((h + 1) % 1024 == 0);
            lemma_pow2_unfold(e);
            assert(1024 * (2 * p) == (1024 + 1023) * p + p) by (nonlinear_arith);
        } else {
            assert((h + 1) / 1024 == e);
            assert((h + 1) % 1024 == m + 1);
            assert((1024 + (m + 1)) * p == (1024 + m) * p + p) by (nonlinear_arith);
        }
    }
    let r = pow2(125);
    lemma_pow2_pos(125);
    let a = f16_units(h);
    let b = f16_units(h + 1);
    assert(a * r < b * r) by (nonlinear_arith)
        requires
            a < b,
            r > 0,
    ;
}

/// `h0` at or below `x` with less than one step between them, rounded by half a step.
proof fn lemma_round(h0: nat, x: nat, up: bool, low: nat, step: nat, rem: nat)
    requires
        h0 < 0x7c00,
        f16_fine(h0) == low,
        f16_fine(h0 + 1) == low + step,
        x == low + rem,
        rem < step,
        up == (2 * rem > step || (2 * rem == step && h0 % 2 == 1)),
    ensures
        up ==> is_nearest_half(h0 + 1, x),
        !up ==> is_nearest_half(h0, x),
{
    if up {
        if h0 + 1 < 0x7c00 {
            lemma_f16_gap(h0 + 1);
        }
    } else if h0 > 0 {
        lemma_f16_gap((h0 - 1) as nat);
    }
}

/// A subnormal result: the pattern counts units, each `2^shift` steps of the input.
proof fn lemma_round_small(raw: nat, m: nat, shift: nat, h0: nat, rem: nat, up: bool)
    requires
        102 <= raw <= 112,
        shift == 126 - raw,
        0x80_0000 <= m < 0x100_0000,
        m == h0 * pow2(shift) + rem,
        rem < pow2(shift),
        h0 < 1024,
        up == (2 * rem > pow2(shift) || (2 * rem == pow2(shift) && h0 % 2 == 1)),
    ensures
        up ==> is_nearest_half(h0 + 1, m * pow2((raw - 1) as nat)),
        !up ==> is_nearest_half(h0, m * pow2((raw - 1) as nat)),
{
    let p = pow2(shift);
    let q = pow2((raw - 1) as nat);
    lemma_pow2_adds(shift, (raw - 1) as nat);
    lemma_pow2_pos((raw - 1) as nat);
    lemma2_to64();
    assert(p * q == pow2(125));
    lemma_f16_gap(h0);
    assert(f16_units(h0) == h0) by {
        assert(h0 / 1024 == 0);
        assert(h0 % 1024 == h0);
    }
    let low = h0 * (p * q);
    assert((h0 + 1) * (p * q) == low + p * q) by (nonlinear_arith)
        requires
            low == h0 * (p * q),
    ;
    assert(m * q == low + rem * q) by (nonlinear_arith)
        requires
            m == h0 * p + rem,
            low == h0 * (p * q),
    ;
    assert(rem * q < p * q) by (nonlinear_arith)
        requires
            rem < p,
            q > 0,
    ;
    assert((2 * (rem * q) > p * q) == (2 * rem > p)) by (nonlinear_arith)
        requires
            q > 0,
    ;
    assert((2 * (rem * q) == p * q) == (2 * rem == p)) by (nonlinear_arith)
        requires
            q > 0,
    ;
    lemma_round(h0, m * q, up, low, p * q, rem * q);
}

/// A normal result: thirteen bits of the mantissa are dropped.
proof fn lemma_round_normal(raw: nat, mant: nat, up: bool)
    requires
        113 <= raw <= 142,
        mant < 0x80_0000,
        up == (mant % 8192 > 4096 || (mant % 8192 == 4096 && (mant / 8192) % 2 == 1)),
    ensures
        ({
            let h0 = ((raw - 112) * 1024 + mant / 8192) as nat;
            let x = (0x80_0000 + mant) * pow2((raw - 1) as nat);
            &&& h0 < 0x7c00
            &&& up ==> is_nearest_half(h0 + 1, x)
            &&& !up ==> is_nearest_half(h0, x)
        }),
{
    let e = (raw - 112) as nat;
    let k = mant / 8192;
    let rem = mant % 8192;
    let h0 = e * 1024 + k;
    let q = pow2((raw - 1) as nat);
    let p = pow2((e - 1) as nat);
    let r = pow2(125);
    assert(h0 / 1024 == e);
    assert(h0 % 1024 == k);
    assert(h0 % 2 == k % 2);
    lemma2_to64();
    lemma_pow2_adds((e - 1) as nat, 125);
    lemma_pow2_adds(13, (raw - 1) as nat);
    assert(p * r == 8192 * q);
    lemma_pow2_pos((raw - 1) as nat);
    lemma_f16_gap(h0);
    let low = (1024 + k) * (8192 * q);
    assert(((1024 + k) * p) * r == (1024 + k) * (p * r)) by (nonlinear_arith);
    assert(((1024 + k) * p + p) * r == (1024 + k) * (p * r) + p * r) by (nonlinear_arith);
    assert((0x80_0000 + mant) * q == low + rem * q) by (nonlinear_arith)
        requires
            mant == k * 8192 + rem,
            low == (1024 + k) * (8192 * q),
    ;
    assert(rem * q < 8192 * q) by (nonlinear_arith)
        requires
            rem < 8192,
            q > 0,
    ;
    assert((2 * (rem * q) > 8192 * q) == (rem > 4096)) by (nonlinear_arith)
        requires
            q > 0,
    ;
    assert((2 * (rem * q) == 8192 * q) == (rem == 4096)) by (nonlinear_arith)
        requires
            q > 0,
    ;
    lemma_round(h0, (0x80_0000 + mant) * q, up, low, 8192 * q, rem * q);
}

/// Numbers below half of the smallest binary16 number are nearest to zero, numbers
/// from 65536 on to infinity.
proof fn lemma_round_far(magnitude: nat)
    requires
        magnitude < 0x7f80_0000,
    ensures
        magnitude / 0x80_0000 <= 101 ==> is_nearest_half(0, f32_units(magnitude)),
        magnitude / 0x80_0000 >= 143 ==> is_nearest_half(0x7c00, f32_units(magnitude)),
{
    let raw = magnitude / 0x80_0000;
    let mant = magnitude % 0x80_0000;
    lemma2_to64();
    if raw <= 101 {
        assert(f16_fine(0) == 0) by {
            assert(f16_units(0) == 0);
            assert(0 * pow2(125) == 0);
        }
        assert(f16_fine(1) == pow2(125)) by {
            assert(f16_units(1) == 1);
        }
        lemma_pow2_adds(24, 101);
        lemma_pow2_unfold(125);
        lemma_pow2_adds(24, 100);
        let x = f32_units(magnitude);
        assert(x < pow2(124)) by {
            if raw == 0 {
                lemma_pow2_strictly_increases(24, 124);
            } else {
                let q = pow2((raw - 1) as nat);
                if raw < 101 {
                    lemma_pow2_strictly_increases((raw - 1) as nat, 100);
                }
                lemma_pow2_pos((raw - 1) as nat);
                assert((0x80_0000 + mant) * q < 0x100_0000 * pow2(100)) by (nonlinear_arith)
                    requires
                        mant < 0x80_0000,
                        0 < q <= pow2(100),
                ;
            }
        }
    } else if raw >= 143 {
        let x = f32_units(magnitude);
        let q = pow2((raw - 1) as nat);
        if raw > 143 {
            lemma_pow2_strictly_increases(142, (raw - 1) as nat);
        }
        assert((0x80_0000 + mant) * q >= 0x80_0000 * pow2(142)) by (nonlinear_arith)
            requires
                q >= pow2(142),
                mant >= 0,
        ;
        lemma_pow2_adds(23, 142);
        lemma_pow2_adds(40, 125);
        lemma_pow2_adds(10, 30);
        assert(f16_fine(0x7c00) == pow2(165)) by {
            assert(f16_units(0x7c00) == 1024 * pow2(30));
        }
        lemma_f16_gap(0x7bff);
    }
}

/// The nearest half-precision pattern to a number whose exponent makes it subnormal
/// there.
fn round_small(raw: u32, mant: u32) -> (h: u32)
    requires
        102 <= raw <= 112,
        mant < 0x80_0000,
    ensures
        h <= 1024,
        is_nearest_half(h as nat, (0x80_0000 + mant as nat) * pow2((raw - 1) as nat)),
{
    let m: u32 = mant + 0x80_0000;
    let shift: u32 = 126 - raw;
    let mut p: u32 = 1;
    let mut k: u32 = 0;
    proof {
        lemma2_to64();
    }
    while k < shift
        invariant
            k <= shift <= 24,
            p == pow2(k as nat),
            p <= 0x100_0000,
        decreases shift - k,
    {
        proof {
            lemma_pow2_unfold((k + 1) as nat);
            lemma2_to64();
            if k + 1 < 24 {
                lemma_pow2_strictly_increases((k + 1) as nat, 24);
            }
        }
        p = 2 * p;
        k = k + 1;
    }
    proof {
        lemma2_to64();
        if shift > 14 {
            lemma_pow2_strictly_increases(14, shift as nat);
        }
        lemma_pow2_unfold(shift as nat);
    }
    let h: u32 = m / p;
    let rem: u32 = m % p;
    let up = rem > p / 2 || (rem == p / 2 && h % 2 == 1);
    proof {
        vstd::arithmetic::div_mod::lemma_fundamental_div_mod(m as int, p as int);
        assert(h < 1024) by (nonlinear_arith)
            requires
                m == p * h + rem,
                p >= 16384,
                m < 0x100_0000,
        ;
        assert(m == h * p + rem) by (nonlinear_arith)
            requires
                m == p * h + rem,
        ;
        lemma_round_small(raw as nat, m as nat, shift as nat, h as nat, rem as nat, up);
    }
    if up {
        h + 1
    } else {
        h
    }
}

/// The nearest half-precision pattern to a number whose exponent makes it normal
/// there.  A carry out of the mantissa flows into the exponent, and a carry out of
/// the exponent lands exactly on infinity.
fn round_normal(raw: u32, mant: u32) -> (h: u32)
    requires
        113 <= raw <= 142,
        mant < 0x80_0000,
    ensures
        h <= 0x7c00,
        is_nearest_half(h as nat, (0x80_0000 + mant as nat) * pow2((raw - 1) as nat)),
{
    let h: u32 = (raw - 112) * 1024 + mant / 8192;
    let rem: u32 = mant % 8192;
    let up = rem > 4096 || (rem == 4096 && h % 2 == 1);
    proof {
        lemma_round_normal(raw as nat, mant as nat, up);
    }
    if up {
        h + 1
    } else {
        h
    }
}

/// f32 to f16 bit pattern, rounded to the nearest, ties to even.
pub fn f32_to_f16(f: F32Bits) -> (h: u16)
    ensures
        narrows(f.0, h),
{
    let x: u32 = f.0;
    let sign: u16 = (x / 0x8000_0000) as u16 * 0x8000;
    let magnitude: u32 = x % 0x8000_0000;
    let raw: u32 = magnitude / 0x80_0000;
    let mant: u32 = magnitude % 0x80_0000;
    let result: u16 = if raw == 255 {
        if mant == 0 {
            0x7c00
        } else {
            let payload: u16 = (mant / 8192) as u16;
            if payload >= 0x200 {
                0x7c00 + payload
            } else {
                0x7c00 + payload + 0x200
            }
        }
    } else {
        proof {
            lemma_round_far(magnitude as nat);
        }
        if raw >= 143 {
            0x7c00
        } else if raw <= 101 {
            0
        } else if raw <= 112 {
            round_small(raw, mant) as u16
        } else {
            round_normal(raw, mant) as u16
        }
    };
    sign + result
}

proof fn lemma_f16_increases(a: nat, b: nat)
    requires
        a < b <= 0x7c00,
    ensures
        f16_fine(a) < f16_fine(b),
    decreases b,
{
    lemma_f16_gap((b - 1) as nat);
    if a < b - 1 {
        lemma_f16_increases(a, (b - 1) as nat);
    }
}

/// Narrowing undoes widening: every half-precision number but a NaN comes back with
/// the same bit pattern, and a NaN comes back as a NaN.
pub proof fn law_narrowing_undoes_widening(h: u16, k: u16)
    requires
        narrows(widened(h), k),
    ensures
        h as nat % 0x8000 <= 0x7c00 ==> k == h,
        h as nat % 0x8000 > 0x7c00 ==> k as nat % 0x8000 > 0x7c00,
{
    law_widening_is_exact(h);
    let g = h as nat % 0x8000;
    let r = k as nat % 0x8000;
    if g < 0x7c00 {
        if r < g {
            lemma_f16_increases(r, r + 1);
            if r + 1 < g {
                lemma_f16_increases(r + 1, g);
            }
        } else if r > g {
            lemma_f16_increases((r - 1) as nat, r);
            if g < r - 1 {
                lemma_f16_increases(g, (r - 1) as nat);
            }
        }
    } else if g > 0x7c00 {
        assert((g - 0x7c00) * 8192 / 8192 == g - 0x7c00);
    }
}

/// Read a little-endian f16 from two bytes of `b` and widen it.
pub fn read_f16_le(b: &[u8], at: usize) -> (r: F32Bits)
    requires
        at + 1 < b@.len(),
    ensures
        r.0 == widened(blocks::half_at(b@, at as int)),
{
    f16_to_f32(blocks::half(b, at))
}

/// How far two magnitudes are apart.
pub open spec fn gap(a: nat, b: nat) -> int {
    if a < b {
        b - a
    } else {
        a - b
    }
}

/// No half-precision number is nearer than the one that is rounded to, and of two that are as
/// near it is the one with an even pattern.
pub proof fn law_rounding_takes_the_nearest_half(h: nat, x: nat, k: nat)
    requires
        is_nearest_half(h, x),
        k <= 0x7c00,
    ensures
        gap(f16_fine(h), x) <= gap(f16_fine(k), x),
        k != h && gap(f16_fine(h), x) == gap(f16_fine(k), x) ==> h % 2 == 0,
{
    if k < h {
        lemma_f16_increases((h - 1) as nat, h);
        if k < h - 1 {
            lemma_f16_increases(k, (h - 1) as nat);
        }
    } else if k > h {
        lemma_f16_increases(h, h + 1);
        if k > h + 1 {
            lemma_f16_increases(h + 1, k);
        }
    }
}

/// Narrowing keeps the sign and rounds to the nearest; infinities stay infinite, and what is
/// no number stays none.
pub proof fn law_narrowing_rounds(x: u32, h: u16, k: nat)
    requires
        narrows(x, h),
        k <= 0x7c00,
    ensures
        x >= 0x8000_0000 <==> h >= 0x8000,
        x as nat % 0x8000_0000 == 0x7f80_0000 ==> h as nat % 0x8000 == 0x7c00,
        x as nat % 0x8000_0000 > 0x7f80_0000 ==> h as nat % 0x8000 >= 0x7e00,
        x as nat % 0x8000_0000 < 0x7f80_0000 ==> {
            let m = f32_units(x as nat % 0x8000_0000);
            let r = h as nat % 0x8000;
            &&& r <= 0x7c00
            &&& gap(f16_fine(r), m) <= gap(f16_fine(k), m)
            &&& k != r && gap(f16_fine(r), m) == gap(f16_fine(k), m) ==> r % 2 == 0
        },
{
    if x as nat % 0x8000_0000 < 0x7f80_0000 {
        law_rounding_takes_the_nearest_half(
            h as nat % 0x8000,
            f32_units(x as nat % 0x8000_0000),
            k,
        );
    }
}

} // verus!
