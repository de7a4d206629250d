//! Whole rows of weights.
//!
//! Supported formats: F32, F16, Q8_0, Q4_0, Q5_0, Q4_K, Q6_K.
use super::blocks;
use super::blocks::Scale;
use super::half;
use super::half::f16_to_f32;
use super::inspect;
use super::inspect::BlockDecomp;
use crate::bits::F32Bits;
use crate::gguf::ggml_type::GgmlType;
use crate::gguf::reader;
use crate::text;
use vstd::prelude::*;

verus! {

#[derive(Debug, Clone, Copy, PartialEq, Eq)]
pub enum QuantError {
    /// The block geometry is known, but not what the blocks hold.
    UnsupportedType(GgmlType),
    /// The source is not exactly as long as the elements that are asked for.
    BadSourceLength { ty: GgmlType, got: usize, want: usize },
    /// The length is not a whole number of blocks.
    NotBlockAligned { ty: GgmlType, len: usize, block: usize },
}

impl QuantError {
    /// The message for people.
    pub open spec fn spec_message(self) -> Seq<char> {
        match self {
            QuantError::UnsupportedType(t) => {
                "dequantisation for "@ + t.name()@ + " is not implemented"@
            },
            QuantError::BadSourceLength { ty, got, want } => {
                ty.name()@ + ": source is "@ + text::decimal(got as nat) + " bytes, expected "@
                    + text::decimal(want as nat) + " for the requested element count"@
            },
            QuantError::NotBlockAligned { ty, len, block } => {
                ty.name()@ + ": "@ + text::decimal(len as nat)
                    + " elements is not a whole number of "@ + text::decimal(block as nat)
                    + "-element blocks"@
            },
        }
    }

    /// The message for people.
    pub fn message(&self) -> (r: String)
        ensures
            r@ == self.spec_message(),
    {
        match *self {
            QuantError::UnsupportedType(t) => {
                let mut s = "dequantisation for ".to_owned();
                s.push_str(t.name());
                s.push_str(" is not implemented");
                s
            },
            QuantError::BadSourceLength { ty, got, want } => {
                let mut s = ty.name().to_owned();
                s.push_str(": source is ");
                text::push_decimal(&mut s, got as u128);
                s.push_str(" bytes, expected ");
                text::push_decimal(&mut s, want as u128);
                s.push_str(" for the requested element count");
                s
            },
            QuantError::NotBlockAligned { ty, len, block } => {
                let mut s = ty.name().to_owned();
                s.push_str(": ");
                text::push_decimal(&mut s, len as u128);
                s.push_str(" elements is not a whole number of ");
                text::push_decimal(&mut s, block as u128);
                s.push_str("-element blocks");
                s
            },
        }
    }
}

/// A weight: a number of the file, or `scale * quant - min`.
#[derive(Debug, Clone, Copy, PartialEq, Eq, Structural)]
pub enum Weight {
    Exact(F32Bits),
    Scaled { scale: Scale, quant: i32, min: Scale },
}

/// The formats whose rows can be read.
pub open spec fn supported(ty: GgmlType) -> bool {
    ty == GgmlType::F32 || ty == GgmlType::F16 || blocks::is_block_format(ty)
}

/// True if [`dequantize_row`] can handle this type.
pub fn is_supported(ty: GgmlType) -> (r: bool)
    ensures
        r == supported(ty),
{
    match ty {
        GgmlType::F32
        | GgmlType::F16
        | GgmlType::Q8_0
        | GgmlType::Q4_0
        | GgmlType::Q5_0
        | GgmlType::Q4_K
        | GgmlType::Q6_K => true,
        _ => false,
    }
}

/// Block `b` of a row.
pub open spec fn block(ty: GgmlType, src: Seq<u8>, b: int) -> Seq<u8> {
    src.subrange(b * ty.block_bytes(), (b + 1) * ty.block_bytes())
}

/// Element `i` of a block.
pub open spec fn block_weight(ty: GgmlType, blk: Seq<u8>, i: int) -> Weight {
    if ty == GgmlType::F32 {
        Weight::Exact(F32Bits(reader::le_nat(blk) as u32))
    } else if ty == GgmlType::F16 {
        Weight::Exact(F32Bits(half::widened(blocks::half_at(blk, 0))))
    } else {
        let g = i / blocks::group_len(ty);
        Weight::Scaled {
            scale: blocks::scale(ty, blk, g),
            quant: blocks::quant(ty, blk, i) as i32,
            min: blocks::min(ty, blk, g),
        }
    }
}

/// The elements of one block.
pub open spec fn block_weights(ty: GgmlType, blk: Seq<u8>) -> Seq<Weight> {
    Seq::new(ty.block_elems() as nat, |i: int| block_weight(ty, blk, i))
}

/// The elements of the first `n` blocks of a row.
pub open spec fn row_weights(ty: GgmlType, src: Seq<u8>, n: nat) -> Seq<Weight>
    decreases n,
{
    if n == 0 {
        Seq::empty()
    } else {
        row_weights(ty, src, (n - 1) as nat) + block_weights(ty, block(ty, src, n - 1))
    }
}

/// What is wrong with a request for `len` elements from `got` bytes.
pub open spec fn row_error(ty: GgmlType, got: int, len: int) -> Option<QuantError> {
    let want = len / (ty.block_elems() as int) * ty.block_bytes();
    if !supported(ty) {
        Some(QuantError::UnsupportedType(ty))
    } else if len % (ty.block_elems() as int) != 0 {
        Some(
            QuantError::NotBlockAligned { ty, len: len as usize, block: ty.block_elems() },
        )
    } else if got != want {
        Some(QuantError::BadSourceLength { ty, got: got as usize, want: want as usize })
    } else {
        None
    }
}

/// The elements of one block, appended to `out`.
fn push_block(ty: GgmlType, blk: &[u8], out: &mut Vec<Weight>)
    requires
        supported(ty),
        blk@.len() == ty.block_bytes(),
    ensures
        final(out)@ == old(out)@ + block_weights(ty, blk@),
{
    let ghost start = out@;
    match ty {
        GgmlType::F32 => {
            proof {
                reveal_with_fuel(reader::le_nat, 5);
            }
            let bits: u32 = blk[0] as u32 + 256 * (blk[1] as u32) + 65536 * (blk[2] as u32)
                + 16777216 * (blk[3] as u32);
            assert(bits == reader::le_nat(blk@));
            out.push(Weight::Exact(F32Bits(bits)));
            assert(out@ =~= start + block_weights(ty, blk@));
        },
        GgmlType::F16 => {
            out.push(Weight::Exact(f16_to_f32(blocks::half(blk, 0))));
            assert(out@ =~= start + block_weights(ty, blk@));
        },
        _ => {
            let n: usize = ty.block_elems();
            let group: usize = blocks::group_len_of(ty);
            let mut i: usize = 0;
            while i < n
                invariant
                    blocks::is_block_format(ty),
                    blk@.len() == ty.block_bytes(),
                    start == old(out)@,
                    i <= n == ty.block_elems(),
                    group == blocks::group_len(ty),
                    out@ =~= start + block_weights(ty, blk@).take(i as int),
                decreases n - i,
            {
                let g: usize = i / group;
                assert(g < blocks::groups(ty));
                out.push(
                    Weight::Scaled {
                        scale: blocks::scale_at(ty, blk, g),
                        quant: blocks::quant_at(ty, blk, i) as i32,
                        min: blocks::min_at(ty, blk, g),
                    },
                );
                i += 1;
            }
            assert(block_weights(ty, blk@).take(i as int) =~= block_weights(ty, blk@));
        },
    }
}

/// The `len` elements that `src` holds.
///
/// `src` must be exactly the packed bytes for that many elements.
pub fn dequantize_row(ty: GgmlType, src: &[u8], len: usize) -> (r: Result<Vec<Weight>, QuantError>)
    requires
        len / ty.block_elems() * ty.block_bytes() <= usize::MAX,
    ensures
        match r {
            Ok(v) => row_error(ty, src@.len() as int, len as int) is None && v@ == row_weights(
                ty,
                src@,
                (len / ty.block_elems()) as nat,
            ) && v@.len() == len,
            Err(e) => row_error(ty, src@.len() as int, len as int) == Some(e),
        },
{
    if !is_supported(ty) {
        return Err(QuantError::UnsupportedType(ty));
    }
    let block_elems: usize = ty.block_elems();
    let block_bytes: usize = ty.block_bytes();
    if len % block_elems != 0 {
        return Err(QuantError::NotBlockAligned { ty, len, block: block_elems });
    }
    let n_blocks: usize = len / block_elems;
    let want: usize = n_blocks * block_bytes;
    if src.len() != want {
        return Err(QuantError::BadSourceLength { ty, got: src.len(), want });
    }
    let mut out: Vec<Weight> = Vec::with_capacity(len);
    let mut b: usize = 0;
    while b < n_blocks
        invariant
            supported(ty),
            block_elems == ty.block_elems(),
            block_bytes == ty.block_bytes(),
            src@.len() == n_blocks * block_bytes <= usize::MAX,
            b <= n_blocks,
            out@ == row_weights(ty, src@, b as nat),
            out@.len() == b * block_elems,
        decreases n_blocks - b,
    {
        assert((b + 1) * block_bytes <= n_blocks * block_bytes && 0 <= b * block_bytes <= (b + 1)
            * block_bytes && (b + 1) * block_bytes - b * block_bytes == block_bytes && (b + 1)
            * block_elems == b * block_elems + block_elems) by (nonlinear_arith)
            requires
                b < n_blocks,
        ;
        let start: usize = b * block_bytes;
        let blk = vstd::slice::slice_subrange(src, start, start + block_bytes);
        push_block(ty, blk, &mut out);
        b += 1;
    }
    assert(n_blocks * block_elems == len) by (nonlinear_arith)
        requires
            n_blocks == len / block_elems,
            len % block_elems == 0,
            block_elems > 0,
    ;
    Ok(out)
}

/// The elements of a single block.
pub fn dequantize_block(ty: GgmlType, src: &[u8], len: usize) -> (r: Result<
    Vec<Weight>,
    QuantError,
>)
    requires
        len / ty.block_elems() * ty.block_bytes() <= usize::MAX,
    ensures
        match r {
            Ok(v) => len == ty.block_elems() && row_error(ty, src@.len() as int, len as int) is None
                && v@ == block_weights(ty, src@),
            Err(e) => if len != ty.block_elems() {
                e == (QuantError::NotBlockAligned { ty, len, block: ty.block_elems() })
            } else {
                row_error(ty, src@.len() as int, len as int) == Some(e)
            },
        },
{
    if len != ty.block_elems() {
        return Err(QuantError::NotBlockAligned { ty, len, block: ty.block_elems() });
    }
    let r = dequantize_row(ty, src, len);
    proof {
        if r is Ok {
            let be = ty.block_elems();
            assert(len / be == 1) by (nonlinear_arith)
                requires
                    len == be,
                    be > 0,
            ;
            reveal_with_fuel(row_weights, 2);
            assert(block(ty, src@, 0) =~= src@);
            assert(row_weights(ty, src@, 1) =~= block_weights(ty, src@));
        }
    }
    r
}

/// Taking a block apart and putting it together gives the weights that reading it
/// gives.
pub proof fn law_reconstruction_is_dequantisation(b: BlockDecomp, ty: GgmlType, src: Seq<u8>)
    requires
        blocks::is_block_format(ty),
        inspect::taken_apart(b, ty, src),
    ensures
        b.weights() == block_weights(ty, src),
{
    assert forall|i: int| 0 <= i < ty.block_elems() implies b.weights()[i] == #[trigger] block_weights(
        ty,
        src,
    )[i] by {
        let g = i / blocks::group_len(ty);
        assert(0 <= g < blocks::groups(ty));
    }
    assert(b.weights() =~= block_weights(ty, src));
}

/// `block_q4_0 { f16 d; u8 qs[16]; }` -- 32 weights in 18 bytes.
pub fn dequant_block_q4_0(src: &[u8; 18]) -> (r: Vec<Weight>)
    ensures
        r@ == block_weights(GgmlType::Q4_0, src@),
{
    let mut v: Vec<Weight> = Vec::new();
    push_block(GgmlType::Q4_0, src.as_slice(), &mut v);
    assert(v@ =~= block_weights(GgmlType::Q4_0, src@));
    v
}

/// `block_q5_0 { f16 d; u8 qh[4]; u8 qs[16]; }` -- 32 weights in 22 bytes.
pub fn dequant_block_q5_0(src: &[u8; 22]) -> (r: Vec<Weight>)
    ensures
        r@ == block_weights(GgmlType::Q5_0, src@),
{
    let mut v: Vec<Weight> = Vec::new();
    push_block(GgmlType::Q5_0, src.as_slice(), &mut v);
    assert(v@ =~= block_weights(GgmlType::Q5_0, src@));
    v
}

/// `block_q8_0 { f16 d; i8 qs[32]; }` -- 32 weights in 34 bytes.
pub fn dequant_block_q8_0(src: &[u8; 34]) -> (r: Vec<Weight>)
    ensures
        r@ == block_weights(GgmlType::Q8_0, src@),
{
    let mut v: Vec<Weight> = Vec::new();
    push_block(GgmlType::Q8_0, src.as_slice(), &mut v);
    assert(v@ =~= block_weights(GgmlType::Q8_0, src@));
    v
}

/// `block_q4_K { f16 d; f16 dmin; u8 scales[12]; u8 qs[128]; }` -- 256 weights in 144
/// bytes.
pub fn dequant_block_q4_k(src: &[u8; 144]) -> (r: Vec<Weight>)
    ensures
        r@ == block_weights(GgmlType::Q4_K, src@),
{
    let mut v: Vec<Weight> = Vec::new();
    push_block(GgmlType::Q4_K, src.as_slice(), &mut v);
    assert(v@ =~= block_weights(GgmlType::Q4_K, src@));
    v
}

/// `block_q6_K { u8 ql[128]; u8 qh[64]; i8 scales[16]; f16 d; }` -- 256 weights in 210
/// bytes.
pub fn dequant_block_q6_k(src: &[u8; 210]) -> (r: Vec<Weight>)
    ensures
        r@ == block_weights(GgmlType::Q6_K, src@),
{
    let mut v: Vec<Weight> = Vec::new();
    push_block(GgmlType::Q6_K, src.as_slice(), &mut v);
    assert(v@ =~= block_weights(GgmlType::Q6_K, src@));
    v
}

/// The bytes of a Q8_0 block with the given scale and quants.
pub open spec fn packed_q8_0(d: u16, quants: Seq<i8>) -> Seq<u8> {
    Seq::new(
        34,
        |i: int|
            if i == 0 {
                (d % 256) as u8
            } else if i == 1 {
                (d / 256) as u8
            } else if quants[i - 2] >= 0 {
                quants[i - 2] as u8
            } else {
                (quants[i - 2] + 256) as u8
            },
    )
}

/// Store 32 quants and their half-precision scale as a Q8_0 block.
pub fn quantize_block_q8_0(d: u16, quants: &[i8; 32]) -> (dst: [u8; 34])
    ensures
        dst@ == packed_q8_0(d, quants@),
{
    let mut dst: [u8; 34] = [0;34];
    dst[0] = (d % 256) as u8;
    dst[1] = (d / 256) as u8;
    let mut j: usize = 0;
    while j < 32
        invariant
            j <= 32,
            forall|k: int| 0 <= k < j + 2 ==> dst@[k] == packed_q8_0(d, quants@)[k],
        decreases 32 - j,
    {
        let q: i8 = quants[j];
        dst[2 + j] = if q >= 0 {
            q as u8
        } else {
            (q as i32 + 256) as u8
        };
        j += 1;
    }
    assert(dst@ =~= packed_q8_0(d, quants@));
    dst
}

/// A stored Q8_0 block reads back as the scale and the quants that were stored.
pub proof fn law_q8_0_reads_back(d: u16, quants: Seq<i8>, i: int)
    requires
        quants.len() == 32,
        0 <= i < 32,
    ensures
        block_weights(GgmlType::Q8_0, packed_q8_0(d, quants))[i] == (Weight::Scaled {
            scale: Scale { d, factor: 1 },
            quant: quants[i] as i32,
            min: Scale { d: 0, factor: 0 },
        }),
{
    let p = packed_q8_0(d, quants);
    assert(p[0] + 256 * p[1] == d);
    assert(p[2 + i] == if quants[i] >= 0 {
        quants[i] as int
    } else {
        quants[i] + 256
    });
}

} // verus!
