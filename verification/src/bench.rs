//! Filler for the benchmarks: the same data in every run.
use crate::gguf::GgmlType;
use crate::quant::blocks;
use vstd::prelude::*;

verus! {

/// The half-precision pattern of 0.02, the scale of a row's blocks.
pub const ROW_SCALE: u16 = 0x251f;

/// The half-precision pattern of 0.01, the minimum of a row's blocks.
pub const ROW_MIN: u16 = 0x211f;

/// The state after one step of the xorshift generator.
pub open spec fn stepped(x: u64) -> u64 {
    let a = x ^ (x << 13u64);
    let b = a ^ (a >> 7u64);
    b ^ (b << 17u64)
}

/// The state after `n` steps.
pub open spec fn steps(x: u64, n: nat) -> u64
    decreases n,
{
    if n == 0 {
        x
    } else {
        stepped(steps(x, (n - 1) as nat))
    }
}

/// The low bytes of the states that follow.
pub open spec fn low_bytes(x: u64, n: nat) -> Seq<u8> {
    Seq::new(n, |i: int| (steps(x, (i + 1) as nat) % 256) as u8)
}

/// The top 24 bits of the states that follow.
pub open spec fn top_bits(x: u64, n: nat) -> Seq<u32> {
    Seq::new(n, |i: int| (steps(x, (i + 1) as nat) >> 40u64) as u32)
}

/// A xorshift generator.
#[derive(Debug, Clone, Copy, PartialEq, Eq)]
pub struct Rng(pub u64);

impl Rng {
    pub fn next(&mut self) -> (r: u64)
        ensures
            r == stepped(old(self).0),
            final(self).0 == r,
    {
        let mut x: u64 = self.0;
        x = x ^ (x << 13u64);
        x = x ^ (x >> 7u64);
        x = x ^ (x << 17u64);
        self.0 = x;
        x
    }

    pub fn bytes(&mut self, n: usize) -> (r: Vec<u8>)
        ensures
            r@ == low_bytes(old(self).0, n as nat),
            final(self).0 == steps(old(self).0, n as nat),
    {
        let mut out: Vec<u8> = Vec::new();
        let mut i: usize = 0;
        while i < n
            invariant
                i <= n,
                self.0 == steps(old(self).0, i as nat),
                out@ == low_bytes(old(self).0, i as nat),
            decreases n - i,
        {
            let x: u64 = self.next();
            out.push((x % 256) as u8);
            i += 1;
            assert(out@ =~= low_bytes(old(self).0, i as nat));
        }
        out
    }

    /// Numbers below 2^24, from which the benchmarks make their activations.
    pub fn numbers(&mut self, n: usize) -> (r: Vec<u32>)
        ensures
            r@ == top_bits(old(self).0, n as nat),
            final(self).0 == steps(old(self).0, n as nat),
    {
        let mut out: Vec<u32> = Vec::new();
        let mut i: usize = 0;
        while i < n
            invariant
                i <= n,
                self.0 == steps(old(self).0, i as nat),
                out@ == top_bits(old(self).0, i as nat),
            decreases n - i,
        {
            let x: u64 = self.next();
            assert(x >> 40u64 < 0x100_0000) by (bit_vector);
            out.push((x >> 40u64) as u32);
            i += 1;
            assert(out@ =~= top_bits(old(self).0, i as nat));
        }
        out
    }
}

/// The format that a benchmark names by number.
pub open spec fn format_of(kind: u32) -> GgmlType {
    if kind == 0 {
        GgmlType::Q8_0
    } else if kind == 1 {
        GgmlType::Q5_0
    } else if kind == 2 {
        GgmlType::Q4_0
    } else if kind == 3 {
        GgmlType::Q4_K
    } else {
        GgmlType::Q6_K
    }
}

pub fn ty_of(kind: u32) -> (r: GgmlType)
    ensures
        r == format_of(kind),
{
    if kind == 0 {
        GgmlType::Q8_0
    } else if kind == 1 {
        GgmlType::Q5_0
    } else if kind == 2 {
        GgmlType::Q4_0
    } else if kind == 3 {
        GgmlType::Q4_K
    } else {
        GgmlType::Q6_K
    }
}

/// A quarter of a signed byte, without its fraction.
pub open spec fn quarter(b: u8) -> u8 {
    if b < 128 {
        b / 4
    } else if b > 252 {
        0
    } else {
        (256 - (256 - b) / 4) as u8
    }
}

fn quarter_of(b: u8) -> (r: u8)
    ensures
        r == quarter(b),
{
    if b < 128 {
        b / 4
    } else if b > 252 {
        0
    } else {
        let m: u16 = (256 - b as u16) / 4;
        (256 - m) as u8
    }
}

/// Byte `at` of a block whose scales are kept in a sane range, where `b` fills it.
pub open spec fn tamed(ty: GgmlType, at: int, b: u8) -> u8 {
    match ty {
        GgmlType::Q8_0 | GgmlType::Q5_0 | GgmlType::Q4_0 => if at == 0 {
            (ROW_SCALE % 256) as u8
        } else if at == 1 {
            (ROW_SCALE / 256) as u8
        } else {
            b
        },
        GgmlType::Q4_K => if at == 0 {
            (ROW_SCALE % 256) as u8
        } else if at == 1 {
            (ROW_SCALE / 256) as u8
        } else if at == 2 {
            (ROW_MIN % 256) as u8
        } else if at == 3 {
            (ROW_MIN / 256) as u8
        } else {
            b
        },
        GgmlType::Q6_K => if at == 208 {
            (ROW_SCALE % 256) as u8
        } else if at == 209 {
            (ROW_SCALE / 256) as u8
        } else if 192 <= at < 208 {
            quarter(b)
        } else {
            b
        },
        _ => b,
    }
}

fn tame(ty: GgmlType, at: usize, b: u8) -> (r: u8)
    ensures
        r == tamed(ty, at as int, b),
{
    match ty {
        GgmlType::Q8_0 | GgmlType::Q5_0 | GgmlType::Q4_0 => if at == 0 {
            (ROW_SCALE % 256) as u8
        } else if at == 1 {
            (ROW_SCALE / 256) as u8
        } else {
            b
        },
        GgmlType::Q4_K => if at == 0 {
            (ROW_SCALE % 256) as u8
        } else if at == 1 {
            (ROW_SCALE / 256) as u8
        } else if at == 2 {
            (ROW_MIN % 256) as u8
        } else if at == 3 {
            (ROW_MIN / 256) as u8
        } else {
            b
        },
        GgmlType::Q6_K => if at == 208 {
            (ROW_SCALE % 256) as u8
        } else if at == 209 {
            (ROW_SCALE / 256) as u8
        } else if 192 <= at && at < 208 {
            quarter_of(b)
        } else {
            b
        },
        _ => b,
    }
}

/// A row of weights with scales in a sane range.
pub open spec fn row_of(ty: GgmlType, n_blocks: nat, x: u64) -> Seq<u8> {
    let n = n_blocks * ty.block_bytes() as nat;
    Seq::new(n, |i: int| tamed(ty, i % ty.block_bytes() as int, low_bytes(x, n)[i]))
}

pub fn weight_row(ty: GgmlType, n_blocks: usize, rng: &mut Rng) -> (r: Vec<u8>)
    requires
        n_blocks * ty.block_bytes() <= usize::MAX,
    ensures
        r@ == row_of(ty, n_blocks as nat, old(rng).0),
        final(rng).0 == steps(old(rng).0, (n_blocks * ty.block_bytes()) as nat),
{
    let size: usize = ty.block_bytes();
    let n: usize = n_blocks * size;
    let filler = rng.bytes(n);
    let mut row: Vec<u8> = Vec::new();
    let mut i: usize = 0;
    while i < n
        invariant
            i <= n,
            n == filler@.len(),
            size == ty.block_bytes(),
            size > 0,
            row@.len() == i,
            forall|k: int|
                0 <= k < i ==> #[trigger] row@[k] == tamed(ty, k % size as int, filler@[k]),
        decreases n - i,
    {
        row.push(tame(ty, i % size, filler[i]));
        i += 1;
    }
    assert(row@ =~= row_of(ty, n_blocks as nat, old(rng).0));
    row
}

/// A row's blocks all have the same scale, and minimum where there is one; everything else is
/// filler, in order.
pub proof fn law_rows_have_one_scale(ty: GgmlType, n_blocks: nat, x: u64, b: int, at: int)
    requires
        0 <= b < n_blocks,
        blocks::is_block_format(ty),
        0 <= at < ty.block_bytes(),
    ensures
        ({
            let bb = ty.block_bytes() as int;
            let row = row_of(ty, n_blocks, x);
            let blk = row.subrange(b * bb, (b + 1) * bb);
            let scale_at = if ty is Q6_K {
                208
            } else {
                0int
            };
            &&& row.len() == n_blocks * bb
            &&& blk.len() == bb
            &&& blk[scale_at] == 0x1f && blk[scale_at + 1] == 0x25
            &&& ty is Q4_K ==> blk[2] == 0x1f && blk[3] == 0x21
            &&& at != scale_at && at != scale_at + 1 && !(ty is Q4_K && at < 4) && !(ty is Q6_K
                && at >= 192) ==> blk[at] == low_bytes(x, (n_blocks * bb) as nat)[b * bb + at]
        }),
{
    let bb = ty.block_bytes() as int;
    let row = row_of(ty, n_blocks, x);
    assert(0 <= b * bb && (b + 1) * bb == b * bb + bb && (b + 1) * bb <= n_blocks * bb)
        by (nonlinear_arith)
        requires
            0 <= b < n_blocks,
            bb > 0,
    ;
    let blk = row.subrange(b * bb, (b + 1) * bb);
    assert forall|i: int| 0 <= i < bb implies #[trigger] blk[i] == tamed(
        ty,
        i,
        low_bytes(x, (n_blocks * bb) as nat)[b * bb + i],
    ) by {
        assert(b * bb + i == bb * b + i) by (nonlinear_arith);
        vstd::arithmetic::div_mod::lemma_fundamental_div_mod_converse(b * bb + i, bb, b, i);
    }
}

/// The scales of a row's groups are signed bytes at a quarter, towards zero.
pub proof fn law_quarters_go_towards_zero(b: u8)
    ensures
        ({
            let v = blocks::signed_byte(b);
            let q = blocks::signed_byte(quarter(b));
            &&& v >= 0 ==> 4 * q <= v < 4 * (q + 1)
            &&& v < 0 ==> 4 * (q - 1) < v <= 4 * q
        }),
{
}

/// The bytes and numbers of a generator come from its states, one after the other: a second
/// batch goes on where the first ended.
pub proof fn law_batches_go_on(x: u64, m: nat, n: nat, i: int)
    requires
        0 <= i < n,
    ensures
        steps(x, m + n) == steps(steps(x, m), n),
        low_bytes(steps(x, m), n)[i] == low_bytes(x, m + n)[m + i],
        top_bits(steps(x, m), n)[i] == top_bits(x, m + n)[m + i],
{
    lemma_steps(x, m, n);
    lemma_steps(x, m, (i + 1) as nat);
}

proof fn lemma_steps(x: u64, m: nat, n: nat)
    ensures
        steps(x, m + n) == steps(steps(x, m), n),
    decreases n,
{
    if n > 0 {
        lemma_steps(x, m, (n - 1) as nat);
        assert((m + n - 1) as nat == m + (n - 1) as nat);
    }
}

/// The numbers of the formats, from zero on.
pub proof fn law_formats_are_numbered(kind: u32)
    ensures
        format_of(kind) is Q8_0 <==> kind == 0,
        format_of(kind) is Q5_0 <==> kind == 1,
        format_of(kind) is Q4_0 <==> kind == 2,
        format_of(kind) is Q4_K <==> kind == 3,
        format_of(kind) is Q6_K <==> kind >= 4,
{
}

} // verus!
