//! What the blocks of each format hold.
//!
//! Every supported block format stores a weight as a small integer, the quant, and
//! reconstructs it the same way:
//!
//! ```text
//! value[i] = scale[group(i)] * quant[i] - min[group(i)]
//! ```
//!
//! A scale is a half-precision number of the block times a small integer of the
//! group; only Q4_K has mins other than zero.  The multiplications are left to the
//! caller: everything here is integers and bit patterns.
use super::k_quants;
use super::k_quants::scale_min_k4;
use crate::gguf::ggml_type::GgmlType;
use crate::gguf::reader;
use vstd::prelude::*;

verus! {

/// A half-precision number, by its bit pattern, times an integer.
#[derive(Debug, Clone, Copy, PartialEq, Eq, Structural)]
pub struct Scale {
    pub d: u16,
    pub factor: i32,
}

/// The formats that store their weights in blocks of quants.
pub open spec fn is_block_format(ty: GgmlType) -> bool {
    ty == GgmlType::Q8_0 || ty == GgmlType::Q4_0 || ty == GgmlType::Q5_0 || ty == GgmlType::Q4_K
        || ty == GgmlType::Q6_K
}

/// Elements covered by one scale.
pub open spec fn group_len(ty: GgmlType) -> int {
    if ty == GgmlType::Q6_K {
        16
    } else {
        32
    }
}

/// How many groups a block has.
pub open spec fn groups(ty: GgmlType) -> int {
    ty.block_elems() as int / group_len(ty)
}

/// Bit `k` of a byte.
pub open spec fn bit(b: u8, k: u8) -> int {
    ((b >> k) & 1) as int
}

proof fn lemma_bit(b: u8, k: u8)
    ensures
        0 <= bit(b, k) <= 1,
{
    assert((b >> k) & 1 <= 1) by (bit_vector);
}

/// A byte as a signed number.
pub open spec fn signed_byte(b: u8) -> int {
    reader::signed(b as nat, 0x80)
}

/// `{ f16 d; i8 qs[32] }`: element `i` is byte `i` of `qs`.
pub open spec fn quant_q8_0(blk: Seq<u8>, i: int) -> int {
    signed_byte(blk[2 + i])
}

/// `{ f16 d; u8 qs[16] }`: the low nibbles are the first half of the block, the high
/// nibbles the second, both less 8.
pub open spec fn quant_q4_0(blk: Seq<u8>, i: int) -> int {
    if i < 16 {
        blk[2 + i] as int % 16 - 8
    } else {
        blk[2 + i - 16] as int / 16 - 8
    }
}

/// `{ f16 d; u8 qh[4]; u8 qs[16] }`: nibbles as in Q4_0, with bit `i` of `qh` as the
/// fifth bit of element `i`, all less 16.
pub open spec fn quant_q5_0(blk: Seq<u8>, i: int) -> int {
    let low = if i < 16 {
        blk[6 + i] as int % 16
    } else {
        blk[6 + i - 16] as int / 16
    };
    low + 16 * bit(blk[2 + i / 8], (i % 8) as u8) - 16
}

/// `{ f16 d; f16 dmin; u8 scales[12]; u8 qs[128] }`: sub-blocks `2c` and `2c + 1`
/// share 32 bytes, the even one taking the low nibbles.
pub open spec fn quant_q4_k(blk: Seq<u8>, i: int) -> int {
    let b = blk[16 + i / 64 * 32 + i % 32] as int;
    if i / 32 % 2 == 0 {
        b % 16
    } else {
        b / 16
    }
}

/// `{ u8 ql[128]; u8 qh[64]; i8 scales[16]; f16 d }`: four low bits from `ql` and two
/// high bits from `qh`, less 32.  In each half of 128 elements, the elements of the
/// four quarters share the bytes of `qh`.
pub open spec fn quant_q6_k(blk: Seq<u8>, i: int) -> int {
    let n = i / 128;
    let quarter = i % 128 / 32;
    let l = i % 32;
    let byte = blk[n * 64 + l + 32 * (quarter % 2)] as int;
    let low = if quarter < 2 {
        byte % 16
    } else {
        byte / 16
    };
    let h = blk[128 + n * 32 + l] as int;
    let high = if quarter == 0 {
        h % 4
    } else if quarter == 1 {
        h / 4 % 4
    } else if quarter == 2 {
        h / 16 % 4
    } else {
        h / 64
    };
    low + 16 * high - 32
}

/// The integer that a block stores for element `i`.
pub open spec fn quant(ty: GgmlType, blk: Seq<u8>, i: int) -> int {
    if ty == GgmlType::Q8_0 {
        quant_q8_0(blk, i)
    } else if ty == GgmlType::Q4_0 {
        quant_q4_0(blk, i)
    } else if ty == GgmlType::Q5_0 {
        quant_q5_0(blk, i)
    } else if ty == GgmlType::Q4_K {
        quant_q4_k(blk, i)
    } else {
        quant_q6_k(blk, i)
    }
}

/// The least and the greatest integer that a format can store.
pub open spec fn quant_range(ty: GgmlType) -> (int, int) {
    if ty == GgmlType::Q8_0 {
        (-128, 127)
    } else if ty == GgmlType::Q4_0 {
        (-8, 7)
    } else if ty == GgmlType::Q5_0 {
        (-16, 15)
    } else if ty == GgmlType::Q4_K {
        (0, 15)
    } else {
        (-32, 31)
    }
}

/// The half-precision number at `at`.
pub open spec fn half_at(blk: Seq<u8>, at: int) -> u16 {
    (blk[at] + 256 * blk[at + 1]) as u16
}

/// The scale of group `g` of a block.
pub open spec fn scale(ty: GgmlType, blk: Seq<u8>, g: int) -> Scale {
    if ty == GgmlType::Q4_K {
        Scale {
            d: half_at(blk, 0),
            factor: k_quants::scale_k4(g, blk.subrange(4, 16)) as i32,
        }
    } else if ty == GgmlType::Q6_K {
        Scale { d: half_at(blk, 208), factor: signed_byte(blk[192 + g]) as i32 }
    } else {
        Scale { d: half_at(blk, 0), factor: 1 }
    }
}

/// The min of group `g` of a block.
pub open spec fn min(ty: GgmlType, blk: Seq<u8>, g: int) -> Scale {
    if ty == GgmlType::Q4_K {
        Scale { d: half_at(blk, 2), factor: k_quants::min_k4(g, blk.subrange(4, 16)) as i32 }
    } else {
        Scale { d: 0, factor: 0 }
    }
}

/// Every quant lies in the range of its format.
pub proof fn law_quants_lie_in_range(ty: GgmlType, blk: Seq<u8>, i: int)
    requires
        is_block_format(ty),
        0 <= i < ty.block_elems(),
    ensures
        quant_range(ty).0 <= quant(ty, blk, i) <= quant_range(ty).1,
{
    lemma_bit(blk[2 + i / 8], (i % 8) as u8);
}

/// A byte as a signed number.
pub fn signed_byte_of(b: u8) -> (r: i8)
    ensures
        r == signed_byte(b),
{
    if b < 0x80 {
        b as i8
    } else {
        (b - 0x80) as i8 + i8::MIN
    }
}

/// Element `i` of a Q8_0 block.
pub fn quant_q8_0_at(blk: &[u8], i: usize) -> (r: i8)
    requires
        blk@.len() >= 34,
        i < 32,
    ensures
        r == quant_q8_0(blk@, i as int),
{
    signed_byte_of(blk[2 + i])
}

/// Element `i` of a Q4_0 block.
pub fn quant_q4_0_at(blk: &[u8], i: usize) -> (r: i8)
    requires
        blk@.len() >= 18,
        i < 32,
    ensures
        r == quant_q4_0(blk@, i as int),
{
    if i < 16 {
        (blk[2 + i] % 16) as i8 - 8
    } else {
        (blk[2 + i - 16] / 16) as i8 - 8
    }
}

/// Element `i` of a Q5_0 block.
pub fn quant_q5_0_at(blk: &[u8], i: usize) -> (r: i8)
    requires
        blk@.len() >= 22,
        i < 32,
    ensures
        r == quant_q5_0(blk@, i as int),
{
    let low: u8 = if i < 16 {
        blk[6 + i] % 16
    } else {
        blk[6 + i - 16] / 16
    };
    let high: u8 = (blk[2 + i / 8] >> ((i % 8) as u8)) & 1;
    proof {
        lemma_bit(blk@[2 + i / 8], (i % 8) as u8);
    }
    (low as i32 + 16 * (high as i32) - 16) as i8
}

/// Element `i` of a Q4_K block.
pub fn quant_q4_k_at(blk: &[u8], i: usize) -> (r: i8)
    requires
        blk@.len() >= 144,
        i < 256,
    ensures
        r == quant_q4_k(blk@, i as int),
{
    let b: u8 = blk[16 + i / 64 * 32 + i % 32];
    if i / 32 % 2 == 0 {
        (b % 16) as i8
    } else {
        (b / 16) as i8
    }
}

/// Element `i` of a Q6_K block.
pub fn quant_q6_k_at(blk: &[u8], i: usize) -> (r: i8)
    requires
        blk@.len() >= 210,
        i < 256,
    ensures
        r == quant_q6_k(blk@, i as int),
{
    let n: usize = i / 128;
    let quarter: usize = i % 128 / 32;
    let l: usize = i % 32;
    let byte: u8 = blk[n * 64 + l + 32 * (quarter % 2)];
    let low: u8 = if quarter < 2 {
        byte % 16
    } else {
        byte / 16
    };
    let h: u8 = blk[128 + n * 32 + l];
    let high: u8 = if quarter == 0 {
        h % 4
    } else if quarter == 1 {
        h / 4 % 4
    } else if quarter == 2 {
        h / 16 % 4
    } else {
        h / 64
    };
    (low as i32 + 16 * (high as i32) - 32) as i8
}

/// The integer that a block stores for element `i`.
pub fn quant_at(ty: GgmlType, blk: &[u8], i: usize) -> (r: i8)
    requires
        is_block_format(ty),
        blk@.len() == ty.block_bytes(),
        i < ty.block_elems(),
    ensures
        r == quant(ty, blk@, i as int),
{
    match ty {
        GgmlType::Q8_0 => quant_q8_0_at(blk, i),
        GgmlType::Q4_0 => quant_q4_0_at(blk, i),
        GgmlType::Q5_0 => quant_q5_0_at(blk, i),
        GgmlType::Q4_K => quant_q4_k_at(blk, i),
        _ => quant_q6_k_at(blk, i),
    }
}

/// The half-precision number at `at`.
pub fn half(blk: &[u8], at: usize) -> (r: u16)
    requires
        at + 1 < blk@.len(),
    ensures
        r == half_at(blk@, at as int),
{
    blk[at] as u16 + 256 * (blk[at + 1] as u16)
}

/// The packed scales of a Q4_K block.
fn scales_k4(blk: &[u8]) -> (r: [u8; 12])
    requires
        blk@.len() == 144,
    ensures
        r@ == blk@.subrange(4, 16),
{
    let r: [u8; 12] = [
        blk[4],
        blk[5],
        blk[6],
        blk[7],
        blk[8],
        blk[9],
        blk[10],
        blk[11],
        blk[12],
        blk[13],
        blk[14],
        blk[15],
    ];
    assert(r@ =~= blk@.subrange(4, 16));
    r
}

/// The scale of group `g` of a block.
pub fn scale_at(ty: GgmlType, blk: &[u8], g: usize) -> (r: Scale)
    requires
        is_block_format(ty),
        blk@.len() == ty.block_bytes(),
        g < groups(ty),
    ensures
        r == scale(ty, blk@, g as int),
{
    match ty {
        GgmlType::Q4_K => {
            let (sc, _) = scale_min_k4(g, &scales_k4(blk));
            Scale { d: half(blk, 0), factor: sc as i32 }
        },
        GgmlType::Q6_K => Scale {
            d: half(blk, 208),
            factor: signed_byte_of(blk[192 + g]) as i32,
        },
        _ => Scale { d: half(blk, 0), factor: 1 },
    }
}

/// The min of group `g` of a block.
pub fn min_at(ty: GgmlType, blk: &[u8], g: usize) -> (r: Scale)
    requires
        is_block_format(ty),
        blk@.len() == ty.block_bytes(),
        g < groups(ty),
    ensures
        r == min(ty, blk@, g as int),
{
    match ty {
        GgmlType::Q4_K => {
            let (_, m) = scale_min_k4(g, &scales_k4(blk));
            Scale { d: half(blk, 2), factor: m as i32 }
        },
        _ => Scale { d: 0, factor: 0 },
    }
}

/// Elements covered by one scale.
pub fn group_len_of(ty: GgmlType) -> (r: usize)
    ensures
        r == group_len(ty),
{
    match ty {
        GgmlType::Q6_K => 16,
        _ => 32,
    }
}

/// Whether a format stores its weights in blocks of quants.
pub fn has_blocks(ty: GgmlType) -> (r: bool)
    ensures
        r == is_block_format(ty),
{
    match ty {
        GgmlType::Q8_0
        | GgmlType::Q4_0
        | GgmlType::Q5_0
        | GgmlType::Q4_K
        | GgmlType::Q6_K => true,
        _ => false,
    }
}

} // verus!
