//! What is packed into a block is what is read from it.
//!
//! Each format is written down here from the writer's side: where the bits of every weight,
//! scale and min go.  Reading a block that was written so gives back what was written.
use super::blocks;
use super::blocks::Scale;
use super::dequant;
use super::dequant::{QuantError, Weight};
use super::exact;
use super::half;
use super::k_quants;
use crate::gguf::ggml_type::GgmlType;
use crate::gguf::reader;
use crate::tensor::quant_matrix;
use vstd::prelude::*;

verus! {

/// All of `n` numbers lie in a range.
pub open spec fn all_within(q: Seq<int>, n: int, lo: int, hi: int) -> bool {
    q.len() == n && forall|i: int| 0 <= i < n ==> lo <= #[trigger] q[i] <= hi
}

/// Byte `b` of a number of two bytes, the low one first.
pub open spec fn byte_of(d: u16, b: int) -> u8 {
    if b == 0 {
        (d % 256) as u8
    } else {
        (d / 256) as u8
    }
}

/// A weight without a min.
pub open spec fn linear(d: u16, factor: int, q: int) -> Weight {
    Weight::Scaled {
        scale: Scale { d, factor: factor as i32 },
        quant: q as i32,
        min: Scale { d: 0, factor: 0 },
    }
}

/// A Q4_0 block: a scale, then sixteen bytes with the numbers of the first half in the low
/// nibbles and those of the second in the high ones, each 8 more than it stands for.
pub open spec fn packed_q4_0(d: u16, q: Seq<int>) -> Seq<u8> {
    Seq::new(
        18,
        |b: int|
            if b < 2 {
                byte_of(d, b)
            } else {
                ((q[b - 2] + 8) + 16 * (q[b - 2 + 16] + 8)) as u8
            },
    )
}

proof fn lemma_byte_pair(d: u16)
    ensures
        byte_of(d, 0) + 256 * byte_of(d, 1) == d,
{
}

proof fn lemma_two_nibbles(a: int, b: int)
    requires
        0 <= a < 16,
        0 <= b < 16,
    ensures
        0 <= a + 16 * b < 256,
        (a + 16 * b) as u8 as int == a + 16 * b,
        ((a + 16 * b) as u8) as int % 16 == a,
        ((a + 16 * b) as u8) as int / 16 == b,
{
}

/// A packed Q4_0 block reads back as the scale and the numbers that were packed.
pub proof fn law_q4_0_reads_back(d: u16, q: Seq<int>, i: int)
    requires
        all_within(q, 32, -8, 7),
        0 <= i < 32,
    ensures
        dequant::block_weights(GgmlType::Q4_0, packed_q4_0(d, q)).len() == 32,
        dequant::block_weights(GgmlType::Q4_0, packed_q4_0(d, q))[i] == linear(d, 1, q[i]),
{
    let p = packed_q4_0(d, q);
    lemma_byte_pair(d);
    let j = i % 16;
    lemma_two_nibbles(q[j] + 8, q[j + 16] + 8);
    assert(p[2 + j] == ((q[j] + 8) + 16 * (q[j + 16] + 8)) as u8);
    assert(p[0] == byte_of(d, 0) && p[1] == byte_of(d, 1));
    if i >= 16 {
        assert(2 + i - 16 == 2 + j);
    }
}

/// The fifth bit of a number from -16 to 15, 16 more than it stands for.
pub open spec fn fifth_bit(q: Seq<int>, i: int) -> int {
    (q[i] + 16) / 16
}

/// The number whose binary digits, from the lowest on, are the fifth bits of `n` numbers,
/// from `from` on.
pub open spec fn fifth_bits(q: Seq<int>, from: int, n: nat) -> int
    decreases n,
{
    if n == 0 {
        0
    } else {
        fifth_bit(q, from) + 2 * fifth_bits(q, from + 1, (n - 1) as nat)
    }
}

/// A Q5_0 block: a scale; a number of four bytes, the low one first, whose bit `i` is the
/// fifth bit of number `i`; and the four low bits of each number as in a Q4_0 block, each
/// number 16 more than it stands for.
pub open spec fn packed_q5_0(d: u16, q: Seq<int>) -> Seq<u8> {
    let high = fifth_bits(q, 0, 32);
    Seq::new(
        22,
        |b: int|
            if b < 2 {
                byte_of(d, b)
            } else if b == 2 {
                (high % 256) as u8
            } else if b == 3 {
                (high / 256 % 256) as u8
            } else if b == 4 {
                (high / 256 / 256 % 256) as u8
            } else if b == 5 {
                (high / 256 / 256 / 256 % 256) as u8
            } else {
                ((q[b - 6] + 16) % 16 + 16 * ((q[b - 6 + 16] + 16) % 16)) as u8
            },
    )
}

/// Eight fifth bits as a byte.
spec fn eight(q: Seq<int>, from: int) -> int {
    fifth_bit(q, from) + 2 * fifth_bit(q, from + 1) + 4 * fifth_bit(q, from + 2) + 8 * fifth_bit(
        q,
        from + 3,
    ) + 16 * fifth_bit(q, from + 4) + 32 * fifth_bit(q, from + 5) + 64 * fifth_bit(q, from + 6)
        + 128 * fifth_bit(q, from + 7)
}

proof fn lemma_eight(q: Seq<int>, from: int, n: nat)
    requires
        all_within(q, 32, -16, 15),
        0 <= from,
        from + 8 <= 32,
        n >= 8,
    ensures
        fifth_bits(q, from, n) == eight(q, from) + 256 * fifth_bits(q, from + 8, (n - 8) as nat),
        0 <= eight(q, from) < 256,
{
    reveal_with_fuel(fifth_bits, 9);
    assert forall|i: int| from <= i < from + 8 implies 0 <= #[trigger] fifth_bit(q, i) <= 1 by {
        assert(-16 <= q[i] <= 15);
    }
    assert(0 <= fifth_bit(q, from) <= 1 && 0 <= fifth_bit(q, from + 1) <= 1 && 0 <= fifth_bit(
        q,
        from + 2,
    ) <= 1 && 0 <= fifth_bit(q, from + 3) <= 1);
    assert(0 <= fifth_bit(q, from + 4) <= 1 && 0 <= fifth_bit(q, from + 5) <= 1 && 0 <= fifth_bit(
        q,
        from + 6,
    ) <= 1 && 0 <= fifth_bit(q, from + 7) <= 1);
}

/// The bits of a byte that was put together of bits.
proof fn lemma_byte_bits(
    b: u8,
    b0: u8,
    b1: u8,
    b2: u8,
    b3: u8,
    b4: u8,
    b5: u8,
    b6: u8,
    b7: u8,
)
    requires
        b0 <= 1 && b1 <= 1 && b2 <= 1 && b3 <= 1,
        b4 <= 1 && b5 <= 1 && b6 <= 1 && b7 <= 1,
        b == b0 + 2 * b1 + 4 * b2 + 8 * b3 + 16 * b4 + 32 * b5 + 64 * b6 + 128 * b7,
    ensures
        (b >> 0u8) & 1 == b0,
        (b >> 1u8) & 1 == b1,
        (b >> 2u8) & 1 == b2,
        (b >> 3u8) & 1 == b3,
        (b >> 4u8) & 1 == b4,
        (b >> 5u8) & 1 == b5,
        (b >> 6u8) & 1 == b6,
        (b >> 7u8) & 1 == b7,
{
    assert((b >> 0u8) & 1 == b0 && (b >> 1u8) & 1 == b1 && (b >> 2u8) & 1 == b2 && (b >> 3u8) & 1
        == b3 && (b >> 4u8) & 1 == b4 && (b >> 5u8) & 1 == b5 && (b >> 6u8) & 1 == b6 && (b >> 7u8)
        & 1 == b7) by (bit_vector)
        requires
            b0 <= 1 && b1 <= 1 && b2 <= 1 && b3 <= 1,
            b4 <= 1 && b5 <= 1 && b6 <= 1 && b7 <= 1,
            b == b0 + 2 * b1 + 4 * b2 + 8 * b3 + 16 * b4 + 32 * b5 + 64 * b6 + 128 * b7,
    ;
}

/// Bit `k` of the byte of eight fifth bits.
proof fn lemma_eight_bits(q: Seq<int>, from: int, k: int)
    requires
        all_within(q, 32, -16, 15),
        0 <= from,
        from + 8 <= 32,
        0 <= k < 8,
    ensures
        blocks::bit(eight(q, from) as u8, k as u8) == fifth_bit(q, from + k),
{
    lemma_eight(q, from, 8);
    let b = eight(q, from) as u8;
    assert forall|i: int| from <= i < from + 8 implies 0 <= #[trigger] fifth_bit(q, i) <= 1 by {
        assert(-16 <= q[i] <= 15);
    }
    lemma_byte_bits(
        b,
        fifth_bit(q, from) as u8,
        fifth_bit(q, from + 1) as u8,
        fifth_bit(q, from + 2) as u8,
        fifth_bit(q, from + 3) as u8,
        fifth_bit(q, from + 4) as u8,
        fifth_bit(q, from + 5) as u8,
        fifth_bit(q, from + 6) as u8,
        fifth_bit(q, from + 7) as u8,
    );
}

proof fn lemma_digit(low: int, rest: int)
    requires
        0 <= low < 256,
    ensures
        (low + 256 * rest) % 256 == low,
        (low + 256 * rest) / 256 == rest,
        low as u8 as int == low,
{
}

proof fn lemma_high_byte(q: Seq<int>, k: int)
    requires
        all_within(q, 32, -16, 15),
        0 <= k < 4,
    ensures
        packed_q5_0(0, q)[2 + k] as int == eight(q, 8 * k),
{
    lemma_eight(q, 0, 32);
    lemma_eight(q, 8, 24);
    lemma_eight(q, 16, 16);
    lemma_eight(q, 24, 8);
    let high = fifth_bits(q, 0, 32);
    assert(fifth_bits(q, 32, 0) == 0);
    lemma_digit(eight(q, 0), fifth_bits(q, 8, 24));
    lemma_digit(eight(q, 8), fifth_bits(q, 16, 16));
    lemma_digit(eight(q, 16), fifth_bits(q, 24, 8));
    lemma_digit(eight(q, 24), 0);
    assert(high / 256 == fifth_bits(q, 8, 24));
    assert(high / 256 / 256 == fifth_bits(q, 16, 16));
    assert(high / 256 / 256 / 256 == fifth_bits(q, 24, 8));
}

/// The four low bits of a number of a packed Q5_0 block.
proof fn lemma_q5_low(d: u16, q: Seq<int>, i: int)
    requires
        all_within(q, 32, -16, 15),
        0 <= i < 32,
    ensures
        ({
            let p = packed_q5_0(d, q);
            (if i < 16 {
                p[6 + i] as int % 16
            } else {
                p[6 + i - 16] as int / 16
            }) == (q[i] + 16) % 16
        }),
{
    let p = packed_q5_0(d, q);
    let j = i % 16;
    let a = (q[j] + 16) % 16;
    let b = (q[j + 16] + 16) % 16;
    lemma_two_nibbles(a, b);
    assert(p[6 + j] == (a + 16 * b) as u8);
    if i >= 16 {
        assert(6 + i - 16 == 6 + j);
    }
}

/// The fifth bit of a number of a packed Q5_0 block.
proof fn lemma_q5_high(d: u16, q: Seq<int>, i: int)
    requires
        all_within(q, 32, -16, 15),
        0 <= i < 32,
    ensures
        blocks::bit(packed_q5_0(d, q)[2 + i / 8], (i % 8) as u8) == fifth_bit(q, i),
{
    let k = i / 8;
    lemma_high_byte(q, k);
    assert(packed_q5_0(d, q)[2 + k] == packed_q5_0(0, q)[2 + k]);
    lemma_eight(q, 8 * k, 8);
    lemma_eight_bits(q, 8 * k, i % 8);
    assert(8 * k + i % 8 == i);
}

/// A packed Q5_0 block reads back as the scale and the numbers that were packed.
pub proof fn law_q5_0_reads_back(d: u16, q: Seq<int>, i: int)
    requires
        all_within(q, 32, -16, 15),
        0 <= i < 32,
    ensures
        dequant::block_weights(GgmlType::Q5_0, packed_q5_0(d, q)).len() == 32,
        dequant::block_weights(GgmlType::Q5_0, packed_q5_0(d, q))[i] == linear(d, 1, q[i]),
{
    let p = packed_q5_0(d, q);
    lemma_byte_pair(d);
    assert(p[0] == byte_of(d, 0) && p[1] == byte_of(d, 1));
    lemma_q5_low(d, q, i);
    lemma_q5_high(d, q, i);
    assert(-16 <= q[i] <= 15);
    assert((q[i] + 16) % 16 + 16 * fifth_bit(q, i) - 16 == q[i]);
    assert(blocks::quant_q5_0(p, i) == q[i]);
}

/// A Q4_K block: the scale of the scales and that of the mins; six bits of each of the eight
/// scales and mins; and the numbers, those of sub-blocks `2c` and `2c + 1` side by side in
/// the low and high nibbles of 32 bytes.
pub open spec fn packed_q4_k(
    d: u16,
    dmin: u16,
    scales: Seq<int>,
    mins: Seq<int>,
    q: Seq<int>,
) -> Seq<u8> {
    Seq::new(
        144,
        |b: int|
            if b < 2 {
                byte_of(d, b)
            } else if b < 4 {
                byte_of(dmin, b - 2)
            } else if b < 8 {
                (scales[b - 4] + 64 * (scales[b] / 16)) as u8
            } else if b < 12 {
                (mins[b - 8] + 64 * (mins[b - 4] / 16)) as u8
            } else if b < 16 {
                (scales[b - 8] % 16 + 16 * (mins[b - 8] % 16)) as u8
            } else {
                (q[64 * ((b - 16) / 32) + (b - 16) % 32] + 16 * q[64 * ((b - 16) / 32) + 32 + (b
                    - 16) % 32]) as u8
            },
    )
}

proof fn lemma_six_and_two(a: int, b: int)
    requires
        0 <= a < 64,
        0 <= b < 64,
    ensures
        0 <= a + 64 * (b / 16) < 256,
        (a + 64 * (b / 16)) as u8 as int == a + 64 * (b / 16),
        (a + 64 * (b / 16)) % 64 == a,
        (a + 64 * (b / 16)) / 64 == b / 16,
        b % 16 + 16 * (b / 16) == b,
{
}

proof fn lemma_k4_scales(
    d: u16,
    dmin: u16,
    scales: Seq<int>,
    mins: Seq<int>,
    q: Seq<int>,
    g: int,
)
    requires
        all_within(scales, 8, 0, 63),
        all_within(mins, 8, 0, 63),
        0 <= g < 8,
    ensures
        ({
            let s = packed_q4_k(d, dmin, scales, mins, q).subrange(4, 16);
            k_quants::scale_k4(g, s) == scales[g] && k_quants::min_k4(g, s) == mins[g]
        }),
{
    let p = packed_q4_k(d, dmin, scales, mins, q);
    let s = p.subrange(4, 16);
    let low = if g < 4 {
        g
    } else {
        g - 4
    };
    lemma_six_and_two(scales[low], scales[low + 4]);
    lemma_six_and_two(mins[low], mins[low + 4]);
    lemma_two_nibbles(scales[low + 4] % 16, mins[low + 4] % 16);
    assert(s[low] == p[4 + low]);
    assert(s[low + 4] == p[8 + low]);
    assert(s[low + 8] == p[12 + low]);
    assert(s[low] == (scales[low] + 64 * (scales[low + 4] / 16)) as u8);
    assert(s[low + 4] == (mins[low] + 64 * (mins[low + 4] / 16)) as u8);
    assert(s[low + 8] == (scales[low + 4] % 16 + 16 * (mins[low + 4] % 16)) as u8);
}

/// A packed Q4_K block reads back as the scales, mins and numbers that were packed.
pub proof fn law_q4_k_reads_back(
    d: u16,
    dmin: u16,
    scales: Seq<int>,
    mins: Seq<int>,
    q: Seq<int>,
    i: int,
)
    requires
        all_within(scales, 8, 0, 63),
        all_within(mins, 8, 0, 63),
        all_within(q, 256, 0, 15),
        0 <= i < 256,
    ensures
        ({
            let w = dequant::block_weights(GgmlType::Q4_K, packed_q4_k(d, dmin, scales, mins, q));
            &&& w.len() == 256
            &&& w[i] == (Weight::Scaled {
                scale: Scale { d, factor: scales[i / 32] as i32 },
                quant: q[i] as i32,
                min: Scale { d: dmin, factor: mins[i / 32] as i32 },
            })
        }),
{
    let p = packed_q4_k(d, dmin, scales, mins, q);
    lemma_byte_pair(d);
    lemma_byte_pair(dmin);
    assert(p[0] == byte_of(d, 0) && p[1] == byte_of(d, 1));
    assert(p[2] == byte_of(dmin, 0) && p[3] == byte_of(dmin, 1));
    lemma_k4_scales(d, dmin, scales, mins, q, i / 32);
    let c = i / 64;
    let l = i % 32;
    let b = 16 + 32 * c + l;
    assert((b - 16) / 32 == c && (b - 16) % 32 == l);
    lemma_two_nibbles(q[64 * c + l], q[64 * c + 32 + l]);
    assert(p[b] == (q[64 * c + l] + 16 * q[64 * c + 32 + l]) as u8);
    assert(16 + i / 64 * 32 + i % 32 == b);
    if i / 32 % 2 == 0 {
        assert(i == 64 * c + l);
    } else {
        assert(i == 64 * c + 32 + l);
    }
}

/// A Q6_K block: in each half of 128 numbers, the four low bits of the first and third quarter
/// side by side in 32 bytes, those of the second and fourth in the next 32; the two high bits
/// of the four quarters side by side in 32 bytes; then sixteen signed scales, one for each 16
/// numbers, and the scale of the scales.  Each number is 32 more than it stands for.
pub open spec fn packed_q6_k(d: u16, scales: Seq<int>, q: Seq<int>) -> Seq<u8> {
    Seq::new(
        210,
        |b: int|
            if b < 128 {
                let at = 128 * (b / 64) + b % 64;
                ((q[at] + 32) % 16 + 16 * ((q[at + 64] + 32) % 16)) as u8
            } else if b < 192 {
                let at = 128 * ((b - 128) / 32) + (b - 128) % 32;
                ((q[at] + 32) / 16 + 4 * ((q[at + 32] + 32) / 16) + 16 * ((q[at + 64] + 32) / 16)
                    + 64 * ((q[at + 96] + 32) / 16)) as u8
            } else if b < 208 {
                (if scales[b - 192] >= 0 {
                    scales[b - 192]
                } else {
                    scales[b - 192] + 256
                }) as u8
            } else {
                byte_of(d, b - 208)
            },
    )
}

proof fn lemma_four_pairs(a: int, b: int, c: int, e: int)
    requires
        0 <= a < 4,
        0 <= b < 4,
        0 <= c < 4,
        0 <= e < 4,
    ensures
        ({
            let x = a + 4 * b + 16 * c + 64 * e;
            &&& 0 <= x < 256
            &&& x as u8 as int == x
            &&& x % 4 == a
            &&& x / 4 % 4 == b
            &&& x / 16 % 4 == c
            &&& x / 64 == e
        }),
{
    let x = a + 4 * b + 16 * c + 64 * e;
    lemma_parts(x, 4, b + 4 * c + 16 * e, a);
    lemma_parts(x, 16, c + 4 * e, a + 4 * b);
    lemma_parts(x, 64, e, a + 4 * b + 16 * c);
    lemma_parts(b + 4 * c + 16 * e, 4, c + 4 * e, b);
    lemma_parts(c + 4 * e, 4, e, c);
}

proof fn lemma_parts(x: int, d: int, q: int, r: int)
    requires
        x == q * d + r,
        0 <= r < d,
    ensures
        x / d == q,
        x % d == r,
{
    vstd::arithmetic::div_mod::lemma_fundamental_div_mod_converse(x, d, q, r);
}

/// The low bits of number `i` of a packed Q6_K block.
proof fn lemma_q6_low(d: u16, scales: Seq<int>, q: Seq<int>, i: int)
    requires
        all_within(q, 256, -32, 31),
        0 <= i < 256,
    ensures
        ({
            let p = packed_q6_k(d, scales, q);
            let quarter = i % 128 / 32;
            let byte = p[i / 128 * 64 + i % 32 + 32 * (quarter % 2)] as int;
            (if quarter < 2 {
                byte % 16
            } else {
                byte / 16
            }) == (q[i] + 32) % 16
        }),
{
    let p = packed_q6_k(d, scales, q);
    let n = i / 128;
    let quarter = i % 128 / 32;
    let l = i % 32;
    let b = n * 64 + l + 32 * (quarter % 2);
    assert(0 <= l + 32 * (quarter % 2) < 64);
    assert(b / 64 == n && b % 64 == l + 32 * (quarter % 2));
    let at = 128 * n + l + 32 * (quarter % 2);
    assert(at == 128 * (b / 64) + b % 64);
    assert(-32 <= q[at] <= 31 && -32 <= q[at + 64] <= 31);
    lemma_two_nibbles((q[at] + 32) % 16, (q[at + 64] + 32) % 16);
    assert(p[b] == ((q[at] + 32) % 16 + 16 * ((q[at + 64] + 32) % 16)) as u8);
    if quarter < 2 {
        assert(quarter % 2 == quarter);
        assert(i == at);
    } else {
        assert(quarter % 2 == quarter - 2);
        assert(i == at + 64);
    }
}

/// The high bits of number `i` of a packed Q6_K block.
proof fn lemma_q6_high(d: u16, scales: Seq<int>, q: Seq<int>, i: int)
    requires
        all_within(q, 256, -32, 31),
        0 <= i < 256,
    ensures
        ({
            let p = packed_q6_k(d, scales, q);
            let quarter = i % 128 / 32;
            let h = p[128 + i / 128 * 32 + i % 32] as int;
            (if quarter == 0 {
                h % 4
            } else if quarter == 1 {
                h / 4 % 4
            } else if quarter == 2 {
                h / 16 % 4
            } else {
                h / 64
            }) == (q[i] + 32) / 16
        }),
{
    let p = packed_q6_k(d, scales, q);
    let n = i / 128;
    let quarter = i % 128 / 32;
    let l = i % 32;
    let b = 128 + n * 32 + l;
    assert((b - 128) / 32 == n && (b - 128) % 32 == l);
    let at = 128 * n + l;
    assert(-32 <= q[at] <= 31 && -32 <= q[at + 32] <= 31);
    assert(-32 <= q[at + 64] <= 31 && -32 <= q[at + 96] <= 31);
    lemma_four_pairs(
        (q[at] + 32) / 16,
        (q[at + 32] + 32) / 16,
        (q[at + 64] + 32) / 16,
        (q[at + 96] + 32) / 16,
    );
    assert(p[b] == ((q[at] + 32) / 16 + 4 * ((q[at + 32] + 32) / 16) + 16 * ((q[at + 64] + 32) / 16)
        + 64 * ((q[at + 96] + 32) / 16)) as u8);
    assert(i == at + 32 * quarter);
}

/// A packed Q6_K block reads back as the scales and numbers that were packed.
pub proof fn law_q6_k_reads_back(d: u16, scales: Seq<int>, q: Seq<int>, i: int)
    requires
        all_within(scales, 16, -128, 127),
        all_within(q, 256, -32, 31),
        0 <= i < 256,
    ensures
        ({
            let w = dequant::block_weights(GgmlType::Q6_K, packed_q6_k(d, scales, q));
            w.len() == 256 && w[i] == linear(d, scales[i / 16], q[i])
        }),
{
    let p = packed_q6_k(d, scales, q);
    lemma_byte_pair(d);
    assert(p[208] == byte_of(d, 0) && p[209] == byte_of(d, 1));
    lemma_q6_low(d, scales, q, i);
    lemma_q6_high(d, scales, q, i);
    assert(-32 <= q[i] <= 31);
    assert((q[i] + 32) % 16 + 16 * ((q[i] + 32) / 16) - 32 == q[i]);
    let g = i / 16;
    assert(-128 <= scales[g] <= 127);
    assert(p[192 + g] == (if scales[g] >= 0 {
        scales[g]
    } else {
        scales[g] + 256
    }) as u8);
}

/// A half-precision weight keeps its value in single precision: the same sign, and the same
/// magnitude in units of 2^-149, for every finite number.
pub proof fn law_f16_weights_keep_their_value(d: u16)
    ensures
        ({
            let w = dequant::block_weights(GgmlType::F16, seq![byte_of(d, 0), byte_of(d, 1)]);
            &&& w.len() == 1
            &&& w[0] matches Weight::Exact(x) && {
                &&& x.0 / 0x8000_0000 == d / 0x8000
                &&& d % 0x8000 < 0x7c00 ==> half::f32_units(x.0 as nat % 0x8000_0000)
                    == half::f16_units(d as nat % 0x8000) * vstd::arithmetic::power2::pow2(125)
                &&& d % 0x8000 >= 0x7c00 ==> x.0 as nat % 0x8000_0000 == 0x7f80_0000 + (d as nat
                    % 0x8000 - 0x7c00) * 8192
            }
        }),
{
    lemma_byte_pair(d);
    half::law_widening_is_exact(d);
}

/// A single-precision weight is the number of four bytes, the low one first.
pub proof fn law_f32_weights_are_read(a: u8, b: u8, c: u8, e: u8)
    ensures
        ({
            let w = dequant::block_weights(GgmlType::F32, seq![a, b, c, e]);
            &&& w.len() == 1
            &&& w[0] matches Weight::Exact(x) && x.0 == a + 256 * b + 65536 * c + 16777216 * e
        }),
{
    reveal_with_fuel(reader::le_nat, 5);
    let s = seq![a, b, c, e];
    assert(reader::le_nat(s) == a + 256 * b + 65536 * c + 16777216 * e);
}

/// Rows are read block by block: the weights of two rows in a row are the weights of the
/// first, then those of the second.
pub proof fn law_rows_are_read_in_order(ty: GgmlType, a: Seq<u8>, b: Seq<u8>, na: nat, nb: nat)
    requires
        a.len() == na * ty.block_bytes(),
        b.len() == nb * ty.block_bytes(),
    ensures
        dequant::row_weights(ty, a + b, na + nb) == dequant::row_weights(ty, a, na)
            + dequant::row_weights(ty, b, nb),
    decreases nb,
{
    let bb = ty.block_bytes() as int;
    if nb == 0 {
        assert(0 * bb == 0);
        assert(a + b =~= a);
        assert(dequant::row_weights(ty, a, na) + dequant::row_weights(ty, b, 0)
            =~= dequant::row_weights(ty, a, na));
    } else {
        let m = (nb - 1) as nat;
        assert(m * bb + bb == nb * bb && (na + m) * bb == na * bb + m * bb && (na + m + 1) * bb
            == na * bb + m * bb + bb && 0 <= m * bb && 0 <= na * bb) by (nonlinear_arith)
            requires
                m == nb - 1,
                bb >= 0,
        ;
        let front = b.subrange(0, m * bb);
        law_rows_are_read_in_order(ty, a, front, na, m);
        assert(a + front =~= (a + b).subrange(0, (a + front).len() as int));
        lemma_row_of_prefix(ty, a + b, a + front, na + m);
        lemma_row_of_prefix(ty, b, front, m);
        assert(dequant::block(ty, a + b, (na + m) as int) =~= dequant::block(ty, b, m as int));
        assert((na + nb - 1) as nat == na + m);
        let last = dequant::block_weights(ty, dequant::block(ty, b, m as int));
        assert(dequant::row_weights(ty, a + b, na + nb) == dequant::row_weights(ty, a + b, na + m)
            + last);
        assert(dequant::row_weights(ty, b, nb) == dequant::row_weights(ty, b, m) + last);
        assert(dequant::row_weights(ty, a, na) + dequant::row_weights(ty, b, m) + last
            =~= dequant::row_weights(ty, a, na) + (dequant::row_weights(ty, b, m) + last));
    }
}

/// The first blocks of a row depend on their own bytes alone.
proof fn lemma_row_of_prefix(ty: GgmlType, src: Seq<u8>, front: Seq<u8>, n: nat)
    requires
        front.len() == n * ty.block_bytes(),
        front.len() <= src.len(),
        front == src.subrange(0, front.len() as int),
    ensures
        dequant::row_weights(ty, src, n) == dequant::row_weights(ty, front, n),
    decreases n,
{
    let bb = ty.block_bytes() as int;
    if n > 0 {
        let m = (n - 1) as nat;
        assert(m * bb + bb == n * bb && 0 <= m * bb && (m + 1) * bb == n * bb)
            by (nonlinear_arith)
            requires
                m == n - 1,
                bb >= 0,
        ;
        let less = front.subrange(0, m * bb);
        assert(less =~= src.subrange(0, m * bb));
        lemma_row_of_prefix(ty, src, less, m);
        lemma_row_of_prefix(ty, front, less, m);
        assert(dequant::block(ty, src, m as int) =~= dequant::block(ty, front, m as int));
    }
}

/// A row of one block holds the weights of the block.
pub proof fn law_a_block_is_a_row(ty: GgmlType, blk: Seq<u8>)
    requires
        blk.len() == ty.block_bytes(),
    ensures
        dequant::row_weights(ty, blk, 1) == dequant::block_weights(ty, blk),
{
    reveal_with_fuel(dequant::row_weights, 2);
    assert(dequant::block(ty, blk, 0) =~= blk);
    assert(dequant::row_weights(ty, blk, 1) =~= dequant::block_weights(ty, blk));
}

/// The rows of a matrix stand one after the other: number `c` of row `r` is number
/// `r * cols + c` of all that its bytes hold.
pub proof fn law_rows_are_parts_of_the_whole(
    ty: GgmlType,
    data: Seq<u8>,
    rows: nat,
    per_row: nat,
    r: int,
    c: int,
)
    requires
        data.len() == rows * per_row * ty.block_bytes(),
        0 <= r < rows,
        0 <= c < per_row * ty.block_elems(),
    ensures
        ({
            let n = per_row * ty.block_bytes();
            let cols = per_row * ty.block_elems();
            dequant::row_weights(ty, data.subrange(r * n, (r + 1) * n), per_row)[c]
                == dequant::row_weights(ty, data, rows * per_row)[r * cols + c]
        }),
{
    let bb = ty.block_bytes() as int;
    let be = ty.block_elems() as int;
    let n = per_row * bb;
    let cols = per_row * be;
    let row = data.subrange(r * n, (r + 1) * n);
    assert(be > 0);
    let b = c / be;
    let e = c % be;
    vstd::arithmetic::div_mod::lemma_fundamental_div_mod(c, be);
    assert(0 <= b < per_row && b * be == be * b) by (nonlinear_arith)
        requires
            c == be * b + e,
            0 <= e < be,
            0 <= c < per_row * be,
    ;
    let all = (rows * per_row) as nat;
    let k = r * per_row + b;
    assert(0 <= k < all && k * be + e == r * cols + c && k * bb == r * n + b * bb && (k + 1) * bb
        == r * n + (b + 1) * bb && (b + 1) * bb <= n && 0 <= b * bb && b * bb <= (b + 1) * bb)
        by (nonlinear_arith)
        requires
            all == rows * per_row,
            k == r * per_row + b,
            0 <= b < per_row,
            0 <= r < rows,
            cols == per_row * be,
            c == b * be + e,
            n == per_row * bb,
            bb >= 0,
    ;
    assert(0 <= r * n && (r + 1) * n <= rows * n && rows * n == rows * per_row * bb && (r + 1) * n
        == r * n + n) by (nonlinear_arith)
        requires
            0 <= r < rows,
            n == per_row * bb,
            bb >= 0,
    ;
    exact::lemma_weight_at(ty, row, per_row, b, e);
    exact::lemma_weight_at(ty, data, all, k, e);
    assert(dequant::block(ty, row, b) =~= dequant::block(ty, data, k));
}

/// A format stores as many integers as its bits can tell apart, half of them below zero unless
/// it has a minimum.
pub proof fn law_ranges_are_as_wide_as_the_bits(ty: GgmlType, bits: nat)
    requires
        blocks::is_block_format(ty),
        bits == if ty is Q8_0 {
            8nat
        } else if ty is Q5_0 {
            5
        } else if ty is Q6_K {
            6
        } else {
            4
        },
    ensures
        ({
            let (lo, hi) = blocks::quant_range(ty);
            &&& hi - lo + 1 == vstd::arithmetic::power2::pow2(bits)
            &&& ty is Q4_K ==> lo == 0
            &&& !(ty is Q4_K) ==> lo == -(hi + 1)
        }),
{
    vstd::arithmetic::power2::lemma2_to64();
}

/// The formats that can be read.
pub open spec fn readable(ty: GgmlType) -> bool {
    ty is F32 || ty is F16 || ty is Q8_0 || ty is Q4_0 || ty is Q5_0 || ty is Q4_K || ty is Q6_K
}

/// Numbers are read where they fill whole blocks and all bytes of these are there, and no
/// more; else it is said what is wrong.
pub proof fn law_rows_must_fill_their_bytes(ty: GgmlType, nb: nat, rest: nat, got: nat)
    requires
        rest < ty.block_elems(),
        nb * ty.block_elems() + rest <= usize::MAX,
        nb * ty.block_bytes() <= usize::MAX,
        got <= usize::MAX,
    ensures
        ({
            let len = (nb * ty.block_elems() + rest) as int;
            let want = nb * ty.block_bytes();
            let e = dequant::row_error(ty, got as int, len);
            if !readable(ty) {
                e == Some(QuantError::UnsupportedType(ty))
            } else if rest > 0 {
                e == Some(
                    QuantError::NotBlockAligned { ty, len: len as usize, block: ty.block_elems() },
                )
            } else if got != want {
                e == Some(
                    QuantError::BadSourceLength { ty, got: got as usize, want: want as usize },
                )
            } else {
                e is None
            }
        }),
{
    let be = ty.block_elems() as int;
    vstd::arithmetic::div_mod::lemma_fundamental_div_mod_converse(
        nb * be + rest,
        be,
        nb as int,
        rest as int,
    );
}

/// A matrix has rows of whole blocks, all of them there.
pub proof fn law_matrices_must_fill_their_bytes(
    ty: GgmlType,
    rows: nat,
    nb: nat,
    rest: nat,
    got: nat,
)
    requires
        rest < ty.block_elems(),
        nb * ty.block_elems() + rest <= usize::MAX,
        rows * (nb * ty.block_bytes()) <= usize::MAX,
        got <= usize::MAX,
    ensures
        ({
            let cols = (nb * ty.block_elems() + rest) as int;
            let want = rows * (nb * ty.block_bytes());
            let e = quant_matrix::matrix_error(ty, got as int, rows as int, cols);
            if !readable(ty) {
                e == Some(QuantError::UnsupportedType(ty))
            } else if rest > 0 {
                e == Some(
                    QuantError::NotBlockAligned { ty, len: cols as usize, block: ty.block_elems() },
                )
            } else if got != want {
                e == Some(
                    QuantError::BadSourceLength { ty, got: got as usize, want: want as usize },
                )
            } else {
                e is None
            }
        }),
{
    let be = ty.block_elems() as int;
    let bb = ty.block_bytes() as int;
    vstd::arithmetic::div_mod::lemma_fundamental_div_mod_converse(
        nb * be + rest,
        be,
        nb as int,
        rest as int,
    );
    assert(rows * nb * bb == rows * (nb * bb)) by (nonlinear_arith);
}

} // verus!
