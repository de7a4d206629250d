//! A small, seedable generator of pseudo-random numbers: PCG-XSH-RR 64/32.
//!
//! Everything is fixed-width integer arithmetic with explicit wrapping, so the
//! sequence of a seed is the same on every machine.
use crate::bits::F32Bits;
use crate::quant::half;
use vstd::arithmetic::power2::*;
use vstd::prelude::*;

verus! {

pub const MULT: u64 = 6_364_136_223_846_793_005;

/// The stream of a generator that names none.
pub const DEFAULT_STREAM: u64 = 0xda3e_39cb_94b9_5bdb;

/// What a [`Pcg32`] holds.
pub struct PcgView {
    pub state: u64,
    /// Stream selector, always odd.
    pub inc: u64,
}

/// `x` turned right by `r` bits.
pub open spec fn turned_right(x: u32, r: u32) -> u32 {
    if r == 0 {
        x
    } else {
        (x >> r) | (x << (32 - r) as u32)
    }
}

impl PcgView {
    /// One step of the congruential generator.
    pub open spec fn next(self) -> PcgView {
        PcgView {
            state: self.state.wrapping_mul(MULT).wrapping_add(self.inc),
            inc: self.inc,
        }
    }

    /// The number that this state gives: the high bits are shifted down, then turned
    /// by the top five.
    pub open spec fn output(self) -> u32 {
        turned_right(
            (((self.state >> 18u64) ^ self.state) >> 27u64) as u32,
            (self.state >> 59u64) as u32,
        )
    }

    /// The generator after `n` steps.
    pub open spec fn after(self, n: nat) -> PcgView
        decreases n,
    {
        if n == 0 {
            self
        } else {
            self.after((n - 1) as nat).next()
        }
    }
}

/// `r` is the number in `[0, 1)` that a state gives: its top 24 bits, times 2^-24, exactly.
pub open spec fn is_unit(g: PcgView, r: F32Bits) -> bool {
    &&& half::f32_units(r.0 as nat) == (g.output() as nat / 256) * pow2(125)
    &&& r.0 < 0x3f80_0000
}

/// A freshly seeded generator: step, add the seed, step again.
pub open spec fn seeded(seed: u64, stream: u64) -> PcgView {
    let start = PcgView { state: 0, inc: (stream << 1u64) | 1 }.next();
    PcgView { state: start.state.wrapping_add(seed), inc: start.inc }.next()
}

/// PCG-XSH-RR 64/32.
#[derive(Debug, Clone)]
pub struct Pcg32 {
    state: u64,
    inc: u64,
}

impl View for Pcg32 {
    type V = PcgView;

    closed spec fn view(&self) -> PcgView {
        PcgView { state: self.state, inc: self.inc }
    }
}

impl Pcg32 {
    /// Seed the generator.  The same seed always yields the same sequence.
    pub fn new(seed: u64) -> (r: Self)
        ensures
            r@ == seeded(seed, DEFAULT_STREAM),
    {
        Self::with_stream(seed, DEFAULT_STREAM)
    }

    pub fn with_stream(seed: u64, stream: u64) -> (r: Self)
        ensures
            r@ == seeded(seed, stream),
    {
        let mut r = Pcg32 { state: 0, inc: (stream << 1u64) | 1 };
        r.next_u32();
        r.state = r.state.wrapping_add(seed);
        r.next_u32();
        r
    }

    pub fn next_u32(&mut self) -> (r: u32)
        ensures
            r == old(self)@.output(),
            final(self)@ == old(self)@.next(),
    {
        let old_state: u64 = self.state;
        self.state = old_state.wrapping_mul(MULT).wrapping_add(self.inc);
        let shifted: u32 = (((old_state >> 18u64) ^ old_state) >> 27u64) as u32;
        let rot: u32 = (old_state >> 59u64) as u32;
        assert(rot < 32) by {
            assert((old_state >> 59u64) < 32) by (bit_vector);
        }
        if rot == 0 {
            shifted
        } else {
            (shifted >> rot) | (shifted << (32 - rot))
        }
    }

    /// Uniform in `[0, 1)`: the top 24 bits of the next number, times 2^-24, exactly.
    pub fn next_f32(&mut self) -> (r: F32Bits)
        ensures
            final(self)@ == old(self)@.next(),
            is_unit(old(self)@, r),
    {
        let n: u32 = self.next_u32() / 256;
        proof {
            lemma2_to64();
        }
        if n == 0 {
            assert(0 * pow2(125) == 0);
            return F32Bits(0);
        }
        let mut m: u32 = n;
        let mut e: u32 = 126;
        assert(n * pow2(23) >= 0x80_0000) by (nonlinear_arith)
            requires
                n >= 1,
                pow2(23) == 0x80_0000,
        ;
        while m < 0x80_0000
            invariant
                1 <= m < 0x100_0000,
                103 <= e <= 126,
                m < 0x80_0000 ==> m * pow2((e - 103) as nat) >= 0x80_0000,
                m * pow2((e - 1) as nat) == n * pow2(125),
            decreases e,
        {
            proof {
                lemma2_to64();
                if e == 103 {
                    assert(m * pow2(0) == m) by (nonlinear_arith)
                        requires
                            pow2(0) == 1,
                    ;
                }
                lemma_pow2_unfold((e - 103) as nat);
                lemma_pow2_unfold((e - 1) as nat);
                let p = pow2((e - 104) as nat);
                let q = pow2((e - 2) as nat);
                assert((2 * m) * p == m * (2 * p)) by (nonlinear_arith);
                assert((2 * m) * q == m * (2 * q)) by (nonlinear_arith);
            }
            m = 2 * m;
            e = e - 1;
        }
        let bits: u32 = e * 0x80_0000 + (m - 0x80_0000);
        assert(bits / 0x80_0000 == e);
        assert(bits % 0x80_0000 == m - 0x80_0000);
        F32Bits(bits)
    }
}

/// The stream selector of a seeded generator is odd, and stays what it is.
pub proof fn law_stream_stays_odd(seed: u64, stream: u64, n: nat)
    ensures
        seeded(seed, stream).after(n).inc % 2 == 1,
        seeded(seed, stream).after(n).inc == (stream << 1u64) | 1,
    decreases n,
{
    if n > 0 {
        law_stream_stays_odd(seed, stream, (n - 1) as nat);
    }
    assert(((stream << 1u64) | 1) % 2 == 1) by (bit_vector);
}

/// Bit `i` of a number.
pub open spec fn bit32(x: u32, i: u32) -> bool {
    (x >> i) & 1 == 1
}

pub open spec fn bit64(x: u64, i: u64) -> bool {
    (x >> i) & 1 == 1
}

/// The states are those of a linear congruence modulo 2^64, and a seed is added to the state
/// behind the increment of its stream, the odd number `2 * stream + 1`.
pub proof fn law_states_follow_a_congruence(g: PcgView, seed: u64, stream: u64)
    ensures
        g.next().inc == g.inc,
        g.next().state == (g.state * 6_364_136_223_846_793_005 + g.inc)
            % 0x1_0000_0000_0000_0000,
        stream < 0x8000_0000_0000_0000 ==> seeded(seed, stream).inc == 2 * stream + 1,
        ({
            let inc = seeded(seed, stream).inc;
            seeded(seed, stream).state == ((inc + seed) * 6_364_136_223_846_793_005 + inc)
                % 0x1_0000_0000_0000_0000
        }),
{
    let m = 0x1_0000_0000_0000_0000int;
    let k = 6_364_136_223_846_793_005int;
    lemma_wrapped(g.state as int * k, g.inc as int);
    if stream < 0x8000_0000_0000_0000 {
        assert((stream << 1u64) | 1 == 2 * stream + 1) by (bit_vector)
            requires
                stream < 0x8000_0000_0000_0000,
        ;
    }
    let inc = (stream << 1u64) | 1;
    let start = PcgView { state: 0, inc };
    assert(0 * k == 0);
    assert(start.next().state == inc);
    let x = inc.wrapping_add(seed);
    assert(x == (inc + seed) % m);
    lemma_wrapped(x as int * k, inc as int);
    vstd::arithmetic::div_mod::lemma_mul_mod_noop_left(inc + seed, k, m);
    lemma_wrapped((inc + seed) * k, inc as int);
}

proof fn lemma_wrapped(a: int, b: int)
    ensures
        (a % 0x1_0000_0000_0000_0000 + b) % 0x1_0000_0000_0000_0000 == (a + b)
            % 0x1_0000_0000_0000_0000,
{
    vstd::arithmetic::div_mod::lemma_add_mod_noop_right(b, a, 0x1_0000_0000_0000_0000);
}

/// Each bit of a number is that of the state 27 places up, changed where the one 45 places up
/// is set, from places turned round by the top five bits.
pub proof fn law_outputs_are_turned_bits(g: PcgView, i: u32)
    requires
        i < 32,
    ensures
        ({
            let turn = g.state / 0x800_0000_0000_0000;
            let j = ((i + turn) % 32) as u64;
            bit32(g.output(), i) == (bit64(g.state, (j + 27) as u64) != (j + 45 < 64 && bit64(
                g.state,
                (j + 45) as u64,
            )))
        }),
{
    let s = g.state;
    let turn = s / 0x800_0000_0000_0000;
    assert(s >> 59u64 == s / 0x800_0000_0000_0000) by (bit_vector);
    let r = (s >> 59u64) as u32;
    assert(s >> 59u64 < 32) by (bit_vector);
    assert(r == turn);
    let x = (((s >> 18u64) ^ s) >> 27u64) as u32;
    let j = (if i + r < 32 {
        i + r
    } else {
        i + r - 32
    }) as u32;
    assert(j == (i + turn) % 32);
    lemma_turned(x, r, i, j);
    lemma_shifted(s, x, j);
}

proof fn lemma_turned(x: u32, r: u32, i: u32, j: u32)
    requires
        r < 32,
        i < 32,
        j == (if i + r < 32 {
            i + r
        } else {
            i + r - 32
        }),
    ensures
        bit32(turned_right(x, r), i) == bit32(x, j),
{
    if r > 0 {
        let c = (32 - r) as u32;
        assert((((x >> r) | (x << c)) >> i) & 1 == (x >> j) & 1) by (bit_vector)
            requires
                0 < r < 32,
                i < 32,
                c == 32 - r,
                j == (if i + r < 32 {
                    i + r
                } else {
                    i + r - 32
                }),
        ;
    }
}

proof fn lemma_shifted(s: u64, x: u32, j: u32)
    requires
        x == (((s >> 18u64) ^ s) >> 27u64) as u32,
        j < 32,
    ensures
        bit32(x, j) == (bit64(s, (j + 27) as u64) != (j + 45 < 64 && bit64(s, (j + 45) as u64))),
{
    let a = (j + 27) as u64;
    let b = (j + 45) as u64;
    assert(((x >> j) & 1 == 1) == (((s >> a) & 1 == 1) != (b < 64 && (s >> b) & 1 == 1)))
        by (bit_vector)
        requires
            x == (((s >> 18u64) ^ s) >> 27u64) as u32,
            j < 32,
            a == j + 27,
            b == j + 45,
    ;
}

/// A number in `[0, 1)` is the 32 bits behind it as a fraction, cut off behind 24 bits.
pub proof fn law_units_are_outputs_as_fractions(g: PcgView, r: F32Bits)
    requires
        is_unit(g, r),
    ensures
        ({
            let units = half::f32_units(r.0 as nat);
            &&& units * 0x1_0000_0000 <= g.output() * pow2(149)
            &&& g.output() * pow2(149) < (units + pow2(125)) * 0x1_0000_0000
        }),
        r.0 < 0x3f80_0000,
{
    let n = g.output() as int;
    let q = n / 256;
    let p = pow2(125) as int;
    lemma2_to64();
    lemma_pow2_adds(125, 24);
    lemma_pow2_pos(125);
    assert(pow2(149) == p * 0x100_0000);
    assert((q * p) * 0x1_0000_0000 == (256 * q) * (p * 0x100_0000)) by (nonlinear_arith);
    assert((256 * q) * (p * 0x100_0000) <= n * (p * 0x100_0000)) by (nonlinear_arith)
        requires
            256 * q <= n,
            p > 0,
    ;
    assert((q * p + p) * 0x1_0000_0000 == (256 * (q + 1)) * (p * 0x100_0000)) by (nonlinear_arith);
    assert(n * (p * 0x100_0000) < (256 * (q + 1)) * (p * 0x100_0000)) by (nonlinear_arith)
        requires
            n < 256 * (q + 1),
            p > 0,
    ;
}

/// A generator that names no stream has the same one as every other such generator.
pub proof fn law_unnamed_streams_are_the_same(seed: u64)
    ensures
        seeded(seed, DEFAULT_STREAM).inc == 0xb47c_7397_2972_b7b7,
{
    assert((0xda3e_39cb_94b9_5bdbu64 << 1u64) | 1 == 0xb47c_7397_2972_b7b7u64) by (bit_vector);
}

} // verus!
