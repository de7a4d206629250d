//! IEEE 754 numbers held as their bit patterns.
use crate::quant::half;
use vstd::arithmetic::power2::*;
use vstd::prelude::*;

verus! {

/// An IEEE 754 binary32 number, by its bit pattern.
#[derive(Debug, Clone, Copy, PartialEq, Eq, Structural)]
pub struct F32Bits(pub u32);

/// An IEEE 754 binary64 number, by its bit pattern.
#[derive(Debug, Clone, Copy, PartialEq, Eq, Structural)]
pub struct F64Bits(pub u64);

/// The pattern of a positive infinity.
pub const INFINITY: u32 = 0x7f80_0000;

/// The magnitude of a binary32 number in units of 2^-1074.
pub open spec fn f32_fine(b: nat) -> nat {
    half::f32_units(b) * pow2(925)
}

/// The magnitude of a finite binary64 number in units of 2^-1074, from its pattern
/// without the sign.
pub open spec fn f64_units(b: nat) -> nat {
    let e = b / 0x10_0000_0000_0000;
    let m = b % 0x10_0000_0000_0000;
    if e == 0 {
        m
    } else {
        (0x10_0000_0000_0000 + m) * pow2((e - 1) as nat)
    }
}

/// No binary32 number is nearer to `x` units of 2^-1074 than `b`, and of two as near
/// `b` is the one with an even pattern.  Infinity stands where the number that
/// follows the largest would be.
pub open spec fn is_nearest_single(b: nat, x: nat) -> bool {
    &&& b <= INFINITY
    &&& b > 0 ==> {
        let middle = f32_fine((b - 1) as nat) + f32_fine(b);
        middle < 2 * x || (middle == 2 * x && b % 2 == 0)
    }
    &&& b < INFINITY ==> {
        let middle = f32_fine(b) + f32_fine(b + 1);
        2 * x < middle || (2 * x == middle && b % 2 == 0)
    }
}

/// `r` is what a binary64 number becomes in single precision: rounded to the nearest,
/// ties to even; a NaN becomes some NaN.
pub open spec fn narrows_double(x: u64, r: u32) -> bool {
    let magnitude = x as nat % 0x8000_0000_0000_0000;
    let result = r as nat % 0x8000_0000;
    &&& r / 0x8000_0000 == x / 0x8000_0000_0000_0000
    &&& if magnitude > 0x7ff0_0000_0000_0000 {
        result > INFINITY
    } else if magnitude == 0x7ff0_0000_0000_0000 {
        result == INFINITY
    } else {
        is_nearest_single(result, f64_units(magnitude))
    }
}

/// `r` is an integer in single precision: rounded to the nearest, ties to even.
pub open spec fn rounds_integer(v: int, r: u32) -> bool {
    let magnitude = if v < 0 {
        -v
    } else {
        v
    };
    &&& v < 0 <==> r >= 0x8000_0000
    &&& is_nearest_single(r as nat % 0x8000_0000, magnitude as nat * pow2(1074))
}

/// The distance from a binary32 number to the next, in units of 2^-149.
proof fn lemma_f32_gap(b: nat)
    ensures
        half::f32_units(b + 1) == half::f32_units(b) + pow2(
            if b / 0x80_0000 == 0 {
                0
            } else {
                (b / 0x80_0000 - 1) as nat
            },
        ),
        f32_fine(b) < f32_fine(b + 1),
{
    let e = b / 0x80_0000;
    let m = b % 0x80_0000;
    lemma2_to64();
    if e == 0 {
        if m == 0x7f_ffff {
            assert((b + 1) / 0x80_0000 == 1);
            assert((b + 1) % 0x80_0000 == 0);
            assert(0x80_0000 * pow2(0) == 0x80_0000);
        } else {
            assert((b + 1) / 0x80_0000 == 0);
        }
    } else {
        let p = pow2((e - 1) as nat);
        lemma_pow2_pos((e - 1) as nat);
        if m == 0x7f_ffff {
            assert((b + 1) / 0x80_0000 == e + 1);
            assert((b + 1) % 0x80_0000 == 0);
            lemma_pow2_unfold(e);
            assert(0x80_0000 * (2 * p) == (0x80_0000 + 0x7f_ffff) * p + p) by (nonlinear_arith);
        } else {
            assert((b + 1) / 0x80_0000 == e);
            assert((b + 1) % 0x80_0000 == m + 1);
            assert((0x80_0000 + (m + 1)) * p == (0x80_0000 + m) * p + p) by (nonlinear_arith);
        }
    }
    let r = pow2(925);
    lemma_pow2_pos(925);
    lemma_pow2_pos(
        if e == 0 {
            0
        } else {
            (e - 1) as nat
        },
    );
    let a = half::f32_units(b);
    let c = half::f32_units(b + 1);
    assert(a * r < c * r) by (nonlinear_arith)
        requires
            a < c,
            r > 0,
    ;
}

proof fn lemma_f32_increases(a: nat, b: nat)
    requires
        a <= b,
    ensures
        f32_fine(a) <= f32_fine(b),
    decreases b - a,
{
    if a < b {
        lemma_f32_increases(a, (b - 1) as nat);
        lemma_f32_gap((b - 1) as nat);
    }
}

/// Two patterns without a sign that stand for the same number are one.
pub proof fn lemma_same_magnitude(a: nat, b: nat)
    requires
        half::f32_units(a) == half::f32_units(b),
    ensures
        a == b,
{
    if a < b {
        lemma_f32_gap(a);
        lemma_f32_increases(a + 1, b);
    } else if b < a {
        lemma_f32_gap(b);
        lemma_f32_increases(b + 1, a);
    }
}

/// Rounding to single precision has one result.
pub proof fn law_nearest_single_is_unique(a: nat, b: nat, x: nat)
    requires
        is_nearest_single(a, x),
        is_nearest_single(b, x),
    ensures
        a == b,
    decreases a,
{
    if b < a {
        law_nearest_single_is_unique(b, a, x);
    } else if a < b {
        lemma_f32_gap(a);
        lemma_f32_gap((b - 1) as nat);
        if a + 1 < b {
            lemma_f32_increases(a + 1, (b - 1) as nat);
        }
    }
}

/// A pattern put together from an exponent and a significand has the value of the two.
proof fn lemma_put_together(t: nat, q: nat)
    requires
        q < 0x100_0000,
        t == 0 || q >= 0x80_0000,
    ensures
        half::f32_units(t * 0x80_0000 + q) == q * pow2(t),
        half::f32_units(t * 0x80_0000 + q + 1) == (q + 1) * pow2(t),
{
    let b = t * 0x80_0000 + q;
    lemma2_to64();
    let p = pow2(t);
    if q < 0x80_0000 {
        assert(b / 0x80_0000 == 0);
        assert(b % 0x80_0000 == q);
        assert(q * 1 == q);
    } else {
        assert(b / 0x80_0000 == t + 1);
        assert(b % 0x80_0000 == q - 0x80_0000);
    }
    lemma_f32_gap(b);
    assert((q + 1) * p == q * p + p) by (nonlinear_arith);
}

/// `b0` at or below `x` with less than one step between them, rounded by half a step.
proof fn lemma_round_single(b0: nat, x: nat, up: bool, low: nat, step: nat, rem: nat)
    requires
        f32_fine(b0) == low,
        f32_fine(b0 + 1) == low + step,
        x == low + rem,
        rem < step,
        up == (2 * rem > step || (2 * rem == step && b0 % 2 == 1)),
    ensures
        b0 >= INFINITY ==> is_nearest_single(INFINITY as nat, x),
        b0 < INFINITY && up ==> is_nearest_single(b0 + 1, x),
        b0 < INFINITY && !up ==> is_nearest_single(b0, x),
{
    if b0 >= INFINITY {
        lemma_f32_increases(INFINITY as nat, b0);
        lemma_f32_gap((INFINITY - 1) as nat);
    } else if up {
        lemma_f32_gap(b0 + 1);
    } else if b0 > 0 {
        lemma_f32_gap((b0 - 1) as nat);
    }
}

/// The value of a significand that was cut at `s` bits and rounded.
proof fn lemma_cut(q: nat, t: nat, s: nat, big: nat, rem: nat, up: bool)
    requires
        q == big * pow2(s) + rem,
        rem < pow2(s),
        t + s >= 925,
        big < 0x100_0000,
        t + s == 925 || big >= 0x80_0000,
        up == (2 * rem > pow2(s) || (2 * rem == pow2(s) && big % 2 == 1)),
    ensures
        ({
            let b0 = ((t + s - 925) * 0x80_0000 + big) as nat;
            let x = q * pow2(t);
            &&& b0 >= INFINITY ==> is_nearest_single(INFINITY as nat, x)
            &&& b0 < INFINITY && up ==> is_nearest_single(b0 + 1, x)
            &&& b0 < INFINITY && !up ==> is_nearest_single(b0, x)
        }),
{
    let k = (t + s - 925) as nat;
    let b0 = k * 0x80_0000 + big;
    let p = pow2(s);
    let c = pow2(t);
    let r = pow2(925);
    lemma_put_together(k, big);
    lemma_pow2_adds(k, 925);
    lemma_pow2_adds(s, t);
    lemma_pow2_pos(t);
    let step = p * c;
    assert(pow2(k) * r == step);
    let low = big * step;
    assert((big * pow2(k)) * r == big * (pow2(k) * r)) by (nonlinear_arith);
    assert(((big + 1) * pow2(k)) * r == big * (pow2(k) * r) + pow2(k) * r) by (nonlinear_arith);
    assert(q * c == low + rem * c) by (nonlinear_arith)
        requires
            q == big * p + rem,
            low == big * step,
            step == p * c,
    ;
    assert(rem * c < step) by (nonlinear_arith)
        requires
            rem < p,
            c > 0,
            step == p * c,
    ;
    assert((2 * (rem * c) > step) == (2 * rem > p)) by (nonlinear_arith)
        requires
            c > 0,
            step == p * c,
    ;
    assert((2 * (rem * c) == step) == (2 * rem == p)) by (nonlinear_arith)
        requires
            c > 0,
            step == p * c,
    ;
    assert(b0 % 2 == big % 2);
    lemma_round_single(b0, q * c, up, low, step, rem * c);
}

/// The single-precision pattern nearest to `m` times 2^j units of 2^-1074.
fn nearest_single(m: u64, j: u32) -> (b: u32)
    requires
        j <= 4096,
    ensures
        is_nearest_single(b as nat, m as nat * pow2(j as nat)),
{
    let mut q: u64 = m;
    let mut t: u32 = j;
    // Make the significand as long as the target's, where the exponent allows it.
    while q < 0x80_0000 && t > 925
        invariant
            t <= j <= 4096,
            q < 0x80_0000 || t == j || q < 0x100_0000,
            q as nat * pow2(t as nat) == m as nat * pow2(j as nat),
        decreases t,
    {
        proof {
            lemma_pow2_unfold(t as nat);
            let c = pow2((t - 1) as nat);
            assert((2 * q as nat) * c == q as nat * (2 * c)) by (nonlinear_arith);
        }
        q = 2 * q;
        t = t - 1;
    }
    // Drop bits until the significand fits and the exponent is in range.
    let mut big: u64 = q;
    let mut s: u32 = 0;
    let mut p: u128 = 1;
    proof {
        lemma2_to64();
        assert(q as nat * 1 == q);
    }
    while big >= 0x100_0000 || t + s < 925
        invariant
            t <= 4096,
            s <= 1024,
            q < 0x80_0000 ==> t <= 925,
            t + s <= 925 || big >= 0x80_0000,
            s <= 64 ==> p == pow2(s as nat),
            s <= 64 ==> 0 < p <= 0x1_0000_0000_0000_0000,
            s > 64 ==> big == 0,
            s <= 64 ==> q as nat / pow2(s as nat) == big,
            s > 0 && t + s > 925 ==> s <= 64,
        decreases 1024 - s + big,
    {
        proof {
            lemma_pow2_pos(s as nat);
            lemma_pow2_unfold((s + 1) as nat);
            if s < 64 {
                lemma2_to64_rest();
                lemma_pow2_strictly_increases(s as nat, 64);
                if s < 63 {
                    lemma_pow2_strictly_increases((s + 1) as nat, 64);
                }
                vstd::arithmetic::div_mod::lemma_div_denominator(
                    q as int,
                    pow2(s as nat) as int,
                    2,
                );
            }
            if s == 64 {
                lemma2_to64_rest();
                assert(q as nat / 0x1_0000_0000_0000_0000 == 0);
            }
        }
        if s < 64 {
            p = 2 * p;
        }
        big = big / 2;
        s = s + 1;
    }
    let b0: u64 = (t + s - 925) as u64 * 0x80_0000 + big;
    let up = if s <= 64 {
        let rem: u128 = q as u128 % p;
        2 * rem > p || (2 * rem == p && big % 2 == 1)
    } else {
        false
    };
    proof {
        let rem = if s <= 64 {
            q as nat % pow2(s as nat)
        } else {
            q as nat
        };
        lemma_pow2_pos(s as nat);
        if s <= 64 {
            vstd::arithmetic::div_mod::lemma_fundamental_div_mod(
                q as int,
                pow2(s as nat) as int,
            );
            assert(q as nat == big as nat * pow2(s as nat) + rem) by (nonlinear_arith)
                requires
                    q as int == pow2(s as nat) as int * big as int + rem as int,
            ;
        } else {
            lemma2_to64_rest();
            lemma_pow2_adds(1, 64);
            if s > 65 {
                lemma_pow2_strictly_increases(65, s as nat);
            }
            lemma2_to64();
            assert(2 * rem < pow2(s as nat));
            assert(big as nat * pow2(s as nat) == 0) by (nonlinear_arith)
                requires
                    big == 0,
            ;
        }
        lemma_cut(q as nat, t as nat, s as nat, big as nat, rem, up);
    }
    if b0 >= INFINITY as u64 {
        INFINITY
    } else if up {
        (b0 + 1) as u32
    } else {
        b0 as u32
    }
}

/// A binary64 number in single precision.
pub fn double_to_single(x: F64Bits) -> (r: F32Bits)
    ensures
        narrows_double(x.0, r.0),
{
    let sign: u32 = (x.0 / 0x8000_0000_0000_0000) as u32 * 0x8000_0000;
    let magnitude: u64 = x.0 % 0x8000_0000_0000_0000;
    let e: u64 = magnitude / 0x10_0000_0000_0000;
    let m: u64 = magnitude % 0x10_0000_0000_0000;
    let result: u32 = if e == 2047 {
        if m == 0 {
            INFINITY
        } else {
            // Quiet, with the high bits of the payload.
            let payload: u32 = (m / 0x2000_0000) as u32;
            if payload >= 0x40_0000 {
                INFINITY + payload
            } else {
                INFINITY + payload + 0x40_0000
            }
        }
    } else if e == 0 {
        proof {
            lemma2_to64();
            assert(m as nat * pow2(0) == m) by (nonlinear_arith)
                requires
                    pow2(0) == 1,
            ;
        }
        nearest_single(m, 0)
    } else {
        nearest_single(m + 0x10_0000_0000_0000, (e - 1) as u32)
    };
    F32Bits(sign + result)
}

/// An unsigned integer in single precision.
pub fn unsigned_to_single(v: u64) -> (r: F32Bits)
    ensures
        rounds_integer(v as int, r.0),
{
    F32Bits(nearest_single(v, 1074))
}

/// An integer in single precision.
pub fn integer_to_single(v: i64) -> (r: F32Bits)
    ensures
        rounds_integer(v as int, r.0),
{
    if v >= 0 {
        unsigned_to_single(v as u64)
    } else {
        let m: u64 = (-(v as i128)) as u64;
        F32Bits(0x8000_0000 + nearest_single(m, 1074))
    }
}

/// The pattern of 1.
pub const ONE: u32 = 0x3f80_0000;

/// Not a number.
pub open spec fn is_nan(b: F32Bits) -> bool {
    b.0 as nat % 0x8000_0000 > INFINITY
}

/// Where a number stands among the others; both zeros stand at 0.
pub open spec fn order(b: F32Bits) -> int {
    if b.0 >= 0x8000_0000 {
        -(b.0 - 0x8000_0000)
    } else {
        b.0 as int
    }
}

/// `a < b`.  Nothing is below or above what is not a number.
pub open spec fn below(a: F32Bits, b: F32Bits) -> bool {
    !is_nan(a) && !is_nan(b) && order(a) < order(b)
}

/// `a >= b`.
pub open spec fn at_least(a: F32Bits, b: F32Bits) -> bool {
    !is_nan(a) && !is_nan(b) && order(a) >= order(b)
}

/// `a == b`, as numbers.
pub open spec fn equal(a: F32Bits, b: F32Bits) -> bool {
    !is_nan(a) && !is_nan(b) && order(a) == order(b)
}

/// What a pattern stands for, in units of 2^-149; infinities stand where the number that
/// follows the largest would be.
pub open spec fn signed_units(b: F32Bits) -> int {
    if b.0 >= 0x8000_0000 {
        -(half::f32_units((b.0 - 0x8000_0000) as nat) as int)
    } else {
        half::f32_units(b.0 as nat) as int
    }
}

proof fn lemma_units_increase(a: nat, b: nat)
    ensures
        a < b <==> half::f32_units(a) < half::f32_units(b),
{
    let p = pow2(925);
    lemma_pow2_pos(925);
    let x = half::f32_units(a);
    let y = half::f32_units(b);
    if a < b {
        lemma_f32_increases(a, b);
        assert(x <= y) by (nonlinear_arith)
            requires
                x * p <= y * p,
                p > 0,
        ;
        if x == y {
            lemma_same_magnitude(a, b);
        }
    } else {
        lemma_f32_increases(b, a);
        assert(y <= x) by (nonlinear_arith)
            requires
                y * p <= x * p,
                p > 0,
        ;
    }
}

/// Comparisons go by what the patterns stand for; what is not a number compares with nothing.
pub proof fn law_comparisons_go_by_value(a: F32Bits, b: F32Bits)
    ensures
        a.0 % 0x8000_0000 <= 0x7f80_0000 && b.0 % 0x8000_0000 <= 0x7f80_0000 ==> {
            &&& below(a, b) <==> signed_units(a) < signed_units(b)
            &&& at_least(a, b) <==> signed_units(a) >= signed_units(b)
            &&& equal(a, b) <==> signed_units(a) == signed_units(b)
        },
        a.0 % 0x8000_0000 > 0x7f80_0000 || b.0 % 0x8000_0000 > 0x7f80_0000 ==> !below(a, b)
            && !at_least(a, b) && !equal(a, b),
{
    let m = if a.0 >= 0x8000_0000 {
        (a.0 - 0x8000_0000) as nat
    } else {
        a.0 as nat
    };
    let n = if b.0 >= 0x8000_0000 {
        (b.0 - 0x8000_0000) as nat
    } else {
        b.0 as nat
    };
    lemma_units_increase(m, n);
    lemma_units_increase(n, m);
    lemma_units_increase(0, m);
    lemma_units_increase(0, n);
    assert(half::f32_units(0) == 0);
}

impl F32Bits {
    pub fn nan(self) -> (r: bool)
        ensures
            r == is_nan(self),
    {
        self.0 % 0x8000_0000 > INFINITY
    }

    fn place(self) -> (r: i64)
        ensures
            r == order(self),
    {
        if self.0 >= 0x8000_0000 {
            -((self.0 - 0x8000_0000) as i64)
        } else {
            self.0 as i64
        }
    }

    /// `self < other`.
    pub fn is_below(self, other: F32Bits) -> (r: bool)
        ensures
            r == below(self, other),
    {
        !self.nan() && !other.nan() && self.place() < other.place()
    }

    /// `self >= other`.
    pub fn is_at_least(self, other: F32Bits) -> (r: bool)
        ensures
            r == at_least(self, other),
    {
        !self.nan() && !other.nan() && self.place() >= other.place()
    }

    /// `self == other`, as numbers.
    pub fn is_equal(self, other: F32Bits) -> (r: bool)
        ensures
            r == equal(self, other),
    {
        !self.nan() && !other.nan() && self.place() == other.place()
    }
}

/// No single-precision number is nearer than the one that is rounded to, and of two that are as
/// near it is the one with an even pattern.
pub proof fn law_rounding_takes_the_nearest_single(b: nat, x: nat, k: nat)
    requires
        is_nearest_single(b, x),
        k <= 0x7f80_0000,
    ensures
        half::gap(f32_fine(b), x) <= half::gap(f32_fine(k), x),
        k != b && half::gap(f32_fine(b), x) == half::gap(f32_fine(k), x) ==> b % 2 == 0,
{
    if k < b {
        lemma_f32_gap((b - 1) as nat);
        lemma_f32_increases(k, (b - 1) as nat);
        if k < b - 1 {
            lemma_f32_gap(k);
            lemma_f32_increases(k + 1, (b - 1) as nat);
        }
    } else if k > b {
        lemma_f32_gap(b);
        lemma_f32_increases(b + 1, k);
        if k > b + 1 {
            lemma_f32_gap(b + 1);
            lemma_f32_increases(b + 2, k);
        }
    }
}

/// A whole number is rounded to a nearest single-precision number of its own sign, and kept
/// where that is exact.
pub proof fn law_whole_numbers_are_rounded(v: int, r: u32, k: nat)
    requires
        rounds_integer(v, r),
        k <= 0x7f80_0000,
    ensures
        v < 0 <==> r >= 0x8000_0000,
        ({
            let m = (if v < 0 {
                -v
            } else {
                v
            }) as nat * pow2(1074);
            half::gap(f32_fine(r as nat % 0x8000_0000), m) <= half::gap(f32_fine(k), m)
        }),
{
    let m = (if v < 0 {
        -v
    } else {
        v
    }) as nat * pow2(1074);
    law_rounding_takes_the_nearest_single(r as nat % 0x8000_0000, m, k);
}

/// A double keeps its sign and is rounded to a nearest single-precision number; infinities stay
/// infinite, and what is no number stays none.
pub proof fn law_doubles_are_rounded(x: u64, r: u32, k: nat)
    requires
        narrows_double(x, r),
        k <= 0x7f80_0000,
    ensures
        x >= 0x8000_0000_0000_0000 <==> r >= 0x8000_0000,
        ({
            let m = x as nat % 0x8000_0000_0000_0000;
            let b = r as nat % 0x8000_0000;
            &&& m == 0x7ff0_0000_0000_0000 ==> b == 0x7f80_0000
            &&& m > 0x7ff0_0000_0000_0000 ==> b > 0x7f80_0000
            &&& m < 0x7ff0_0000_0000_0000 ==> half::gap(f32_fine(b), f64_units(m)) <= half::gap(
                f32_fine(k),
                f64_units(m),
            )
        }),
{
    let m = x as nat % 0x8000_0000_0000_0000;
    if m < 0x7ff0_0000_0000_0000 {
        law_rounding_takes_the_nearest_single(r as nat % 0x8000_0000, f64_units(m), k);
    }
}

/// What is below one is less than 2^149 of the smallest steps.
pub proof fn law_one_is_the_unit(x: F32Bits)
    requires
        !is_nan(x),
    ensures
        below(x, F32Bits(ONE)) <==> signed_units(x) < pow2(149),
        equal(x, F32Bits(ONE)) <==> signed_units(x) == pow2(149),
{
    lemma2_to64();
    lemma_pow2_adds(23, 126);
    assert(ONE as nat / 0x80_0000 == 127);
    assert(ONE as nat % 0x80_0000 == 0);
    assert(signed_units(F32Bits(ONE)) == pow2(149));
    law_comparisons_go_by_value(x, F32Bits(ONE));
}

} // verus!
