//! Integer dot products between quantised weights and quantised activations.
//!
//! The activation vector is quantised to 8 bits once, and the dot product of a row is
//! then a sum over scale groups, each an integer dot product with the scales applied
//! once.  Q4_K is affine, so its groups also need the plain sum of the activation
//! quants:
//!
//! ```text
//! sum_i (d*sc*q_i - dmin*m) * a_i
//!   = d_a * ( d*sc * sum_i(q_i * qa_i)  -  dmin*m * sum_i(qa_i) )
//! ```
//!
//! The functions here hand out the terms of that sum over groups.  A row that is used
//! for many activation vectors is unpacked once; its terms are the same.
use super::blocks;
use super::blocks::Scale;
use super::dequant;
use crate::bits::F32Bits;
use crate::gguf::ggml_type::GgmlType;
use vstd::prelude::*;

verus! {

/// Elements per activation block.
pub const ACT_BLOCK: usize = 32;

/// The sum of `n` numbers from `from` on.
pub open spec fn quant_sum(q: Seq<i8>, from: int, n: nat) -> int
    decreases n,
{
    if n == 0 {
        0
    } else {
        quant_sum(q, from, (n - 1) as nat) + q[from + n - 1]
    }
}

/// The dot product of `n` numbers of `a` from `i` on with as many of `b` from `j` on.
pub open spec fn quant_dot(a: Seq<i8>, i: int, b: Seq<i8>, j: int, n: nat) -> int
    decreases n,
{
    if n == 0 {
        0
    } else {
        quant_dot(a, i, b, j, (n - 1) as nat) + a[i + n - 1] * b[j + n - 1]
    }
}

/// What an [`ActivationQ8`] holds.
#[verifier::ext_equal]
pub struct ActivationView {
    /// How many elements are in use.
    pub len: nat,
    pub quants: Seq<i8>,
    /// One scale for each 32 elements.
    pub scales: Seq<F32Bits>,
    /// The sum of the quants of each 32 elements.
    pub sums: Seq<i32>,
}

impl ActivationView {
    /// Whole blocks, each with a scale and a sum, and the sums of the blocks in use are
    /// those of their quants.
    pub open spec fn wf(self) -> bool {
        &&& self.quants.len() == 32 * self.scales.len()
        &&& self.sums.len() == self.scales.len()
        &&& self.len <= self.quants.len()
        &&& self.len % 32 == 0
        &&& forall|b: int|
            0 <= b && 32 * b < self.len ==> #[trigger] self.sums[b] == quant_sum(
                self.quants,
                32 * b,
                32,
            )
    }
}

/// An activation vector quantised to signed 8 bits, one scale per 32 elements.
#[derive(Debug, Clone)]
pub struct ActivationQ8 {
    scales: Vec<F32Bits>,
    qs: Vec<i8>,
    /// Per-block sum of `qs`, for the affine formats.
    sums: Vec<i32>,
    len: usize,
}

impl View for ActivationQ8 {
    type V = ActivationView;

    closed spec fn view(&self) -> ActivationView {
        ActivationView {
            len: self.len as nat,
            quants: self.qs@,
            scales: self.scales@,
            sums: self.sums@,
        }
    }
}

/// The sum of a block of 32 zeros.
proof fn lemma_zero_sum(q: Seq<i8>, from: int, n: nat)
    requires
        0 <= from,
        from + n <= q.len(),
        forall|i: int| 0 <= i < q.len() ==> q[i] == 0,
    ensures
        quant_sum(q, from, n) == 0,
    decreases n,
{
    if n > 0 {
        lemma_zero_sum(q, from, (n - 1) as nat);
    }
}

/// Sums of the same numbers are the same.
proof fn lemma_same_sum(p: Seq<i8>, q: Seq<i8>, from: int, n: nat)
    requires
        forall|i: int| from <= i < from + n ==> p[i] == q[i],
    ensures
        quant_sum(p, from, n) == quant_sum(q, from, n),
    decreases n,
{
    if n > 0 {
        lemma_same_sum(p, q, from, (n - 1) as nat);
    }
}

proof fn lemma_sum_bound(q: Seq<i8>, from: int, n: nat)
    ensures
        -128 * n <= quant_sum(q, from, n) <= 127 * n,
    decreases n,
{
    if n > 0 {
        lemma_sum_bound(q, from, (n - 1) as nat);
    }
}

impl ActivationQ8 {
    /// Capacity for `n` elements, all zero.  `n` must be a multiple of [`ACT_BLOCK`].
    pub fn new(n: usize) -> (r: Self)
        requires
            n % 32 == 0,
        ensures
            r@.wf(),
            r@.len == n,
            r@.quants == Seq::new(n as nat, |i: int| 0i8),
            r@.scales == Seq::new((n / 32) as nat, |i: int| F32Bits(0)),
            r@.sums == Seq::new((n / 32) as nat, |i: int| 0i32),
    {
        let nb: usize = n / ACT_BLOCK;
        let mut qs: Vec<i8> = Vec::with_capacity(n);
        let mut i: usize = 0;
        while i < n
            invariant
                i <= n,
                qs@ == Seq::new(i as nat, |i: int| 0i8),
            decreases n - i,
        {
            qs.push(0);
            i += 1;
            assert(qs@ =~= Seq::new(i as nat, |i: int| 0i8));
        }
        let mut scales: Vec<F32Bits> = Vec::with_capacity(nb);
        let mut sums: Vec<i32> = Vec::with_capacity(nb);
        let mut b: usize = 0;
        while b < nb
            invariant
                b <= nb,
                scales@ == Seq::new(b as nat, |i: int| F32Bits(0)),
                sums@ == Seq::new(b as nat, |i: int| 0i32),
            decreases nb - b,
        {
            scales.push(F32Bits(0));
            sums.push(0);
            b += 1;
            assert(scales@ =~= Seq::new(b as nat, |i: int| F32Bits(0)));
            assert(sums@ =~= Seq::new(b as nat, |i: int| 0i32));
        }
        let r = ActivationQ8 { scales, qs, sums, len: n };
        assert forall|b: int| 0 <= b && 32 * b < n implies #[trigger] r@.sums[b] == quant_sum(
            r@.quants,
            32 * b,
            32,
        ) by {
            lemma_zero_sum(r@.quants, 32 * b, 32);
        }
        r
    }

    pub fn len(&self) -> (r: usize)
        ensures
            r == self@.len,
    {
        self.len
    }

    pub fn is_empty(&self) -> (r: bool)
        ensures
            r == (self@.len == 0),
    {
        self.len == 0
    }

    pub fn n_blocks(&self) -> (r: usize)
        ensures
            r == self@.len / 32,
    {
        self.len / ACT_BLOCK
    }

    /// The scale of block `b`.
    pub fn scale(&self, b: usize) -> (r: F32Bits)
        requires
            b < self@.scales.len(),
        ensures
            r == self@.scales[b as int],
    {
        self.scales[b]
    }

    /// The elements in use, each as its block's scale and its quant.
    pub fn dequantize(&self) -> (r: Vec<(F32Bits, i8)>)
        requires
            self@.wf(),
        ensures
            r@ == Seq::new(self@.len, |i: int| (self@.scales[i / 32], self@.quants[i])),
    {
        let mut v: Vec<(F32Bits, i8)> = Vec::with_capacity(self.len);
        let mut i: usize = 0;
        while i < self.len
            invariant
                self@.wf(),
                i <= self.len,
                v@.len() == i,
                forall|k: int| 0 <= k < i ==> v@[k] == (self@.scales[k / 32], self@.quants[k]),
            decreases self.len - i,
        {
            v.push((self.scales[i / ACT_BLOCK], self.qs[i]));
            i += 1;
        }
        v
    }

    /// How many bytes the buffers take.
    pub fn byte_len(&self) -> (r: usize)
        requires
            self@.scales.len() * 4 + self@.quants.len() + self@.sums.len() * 4 <= usize::MAX,
        ensures
            r == self@.scales.len() * 4 + self@.quants.len() + self@.sums.len() * 4,
    {
        self.scales.len() * 4 + self.qs.len() + self.sums.len() * 4
    }

    /// Take over quants and the scales of their blocks.  There may be fewer than the
    /// buffer can hold, as long as they are a whole number of blocks.
    pub fn quantize(&mut self, scales: &[F32Bits], quants: &[i8])
        requires
            old(self)@.wf(),
            quants@.len() <= old(self)@.quants.len(),
            quants@.len() == 32 * scales@.len(),
        ensures
            final(self)@.wf(),
            final(self)@.len == quants@.len(),
            final(self)@.quants == quants@ + old(self)@.quants.skip(quants@.len() as int),
            final(self)@.scales == scales@ + old(self)@.scales.skip(scales@.len() as int),
            final(self)@.sums == Seq::new(
                scales@.len(),
                |b: int| quant_sum(quants@, 32 * b, 32) as i32,
            ) + old(self)@.sums.skip(scales@.len() as int),
    {
        let ghost before = self@;
        let n: usize = quants.len();
        let nb: usize = scales.len();
        let mut i: usize = 0;
        while i < n
            invariant
                n == quants@.len() <= before.quants.len(),
                i <= n,
                self.qs@.len() == before.quants.len(),
                self.scales@ == before.scales,
                self.sums@ == before.sums,
                forall|k: int| 0 <= k < i ==> self.qs@[k] == quants@[k],
                forall|k: int| i <= k < self.qs@.len() ==> self.qs@[k] == before.quants[k],
            decreases n - i,
        {
            self.qs[i] = quants[i];
            i += 1;
        }
        assert(self.qs@ =~= quants@ + before.quants.skip(n as int));
        let ghost filled = self.qs@;
        let mut b: usize = 0;
        while b < nb
            invariant
                before.wf(),
                n == quants@.len() <= before.quants.len(),
                n == 32 * nb,
                nb == scales@.len(),
                b <= nb,
                self.qs@ == filled,
                self.scales@.len() == before.scales.len(),
                self.sums@.len() == before.sums.len(),
                forall|k: int| 0 <= k < b ==> self.scales@[k] == scales@[k],
                forall|k: int| b <= k < self.scales@.len() ==> self.scales@[k] == before.scales[k],
                forall|k: int|
                    0 <= k < b ==> #[trigger] self.sums@[k] == quant_sum(quants@, 32 * k, 32),
                forall|k: int| b <= k < self.sums@.len() ==> self.sums@[k] == before.sums[k],
            decreases nb - b,
        {
            let mut sum: i32 = 0;
            let mut j: usize = 0;
            while j < 32
                invariant
                    j <= 32,
                    b < nb,
                    n == quants@.len() == 32 * nb,
                    sum == quant_sum(quants@, 32 * b, j as nat),
                    -128 * j <= sum <= 127 * j,
                decreases 32 - j,
            {
                sum = sum + quants[32 * b + j] as i32;
                j += 1;
            }
            self.scales[b] = scales[b];
            self.sums[b] = sum;
            b += 1;
        }
        self.len = n;
        proof {
            assert(self.scales@ =~= scales@ + before.scales.skip(nb as int));
            assert(self.sums@ =~= Seq::new(
                scales@.len(),
                |b: int| quant_sum(quants@, 32 * b, 32) as i32,
            ) + before.sums.skip(nb as int)) by {
                assert forall|k: int| 0 <= k < nb implies self.sums@[k] == quant_sum(
                    quants@,
                    32 * k,
                    32,
                ) as i32 by {
                    lemma_sum_bound(quants@, 32 * k, 32);
                }
            }
            assert forall|b: int| 0 <= b && 32 * b < n implies #[trigger] self.sums@[b]
                == quant_sum(self.qs@, 32 * b, 32) by {
                lemma_same_sum(self.qs@, quants@, 32 * b, 32);
            }
        }
    }
}

/// The contribution of one scale group to the dot product of a row.
#[derive(Debug, Clone, Copy, PartialEq, Eq, Structural)]
pub struct DotTerm {
    pub scale: Scale,
    pub min: Scale,
    /// Whether the min is subtracted, times the sum of the activation block.
    pub affine: bool,
    /// The activation block that the group lies in.
    pub block: usize,
    /// The dot product of the quants.
    pub dot: i32,
    /// The sum of the activation block, where the min is subtracted.
    pub sum: i32,
}

/// The dot product of `n` quants of a block, from `i` on, with activations from `j` on.
pub open spec fn block_dot(
    ty: GgmlType,
    blk: Seq<u8>,
    i: int,
    a: Seq<i8>,
    j: int,
    n: nat,
) -> int
    decreases n,
{
    if n == 0 {
        0
    } else {
        block_dot(ty, blk, i, a, j, (n - 1) as nat) + blocks::quant(ty, blk, i + n - 1) * a[j + n
            - 1]
    }
}

/// How many groups a row has.
pub open spec fn row_groups(ty: GgmlType, row: Seq<u8>) -> int {
    row.len() as int / (ty.block_bytes() as int) * blocks::groups(ty)
}

/// The term of group `k` of a row.
pub open spec fn row_term(ty: GgmlType, row: Seq<u8>, a: ActivationView, k: int) -> DotTerm {
    let blk = dequant::block(ty, row, k / blocks::groups(ty));
    let g = k % blocks::groups(ty);
    let w = blocks::group_len(ty);
    let ab = k * w / 32;
    DotTerm {
        scale: blocks::scale(ty, blk, g),
        min: blocks::min(ty, blk, g),
        affine: ty == GgmlType::Q4_K,
        block: ab as usize,
        dot: block_dot(ty, blk, g * w, a.quants, k * w, w as nat) as i32,
        sum: if ty == GgmlType::Q4_K {
            a.sums[ab]
        } else {
            0
        },
    }
}

/// The terms of the dot product of a row with an activation vector.
pub open spec fn row_terms(ty: GgmlType, row: Seq<u8>, a: ActivationView) -> Seq<DotTerm> {
    Seq::new(row_groups(ty, row) as nat, |k: int| row_term(ty, row, a, k))
}

/// A product of two signed bytes.
proof fn lemma_product(a: int, b: int)
    requires
        -128 <= a <= 127,
        -128 <= b <= 127,
    ensures
        -16384 <= a * b <= 16384,
{
    assert(-16384 <= a * b <= 16384) by (nonlinear_arith)
        requires
            -128 <= a <= 127,
            -128 <= b <= 127,
    ;
}

/// The dot product of `n` signed bytes.
fn idot(a: &[i8], b: &[i8], n: usize) -> (r: i32)
    requires
        n <= 32,
        a@.len() == n,
        b@.len() == n,
    ensures
        r == quant_dot(a@, 0, b@, 0, n as nat),
{
    let mut acc: i32 = 0;
    let mut i: usize = 0;
    while i < n
        invariant
            i <= n <= 32,
            a@.len() == n,
            b@.len() == n,
            acc == quant_dot(a@, 0, b@, 0, i as nat),
            -16384 * i <= acc <= 16384 * i,
        decreases n - i,
    {
        proof {
            lemma_product(a@[i as int] as int, b@[i as int] as int);
        }
        acc = acc + a[i] as i32 * b[i] as i32;
        i += 1;
    }
    acc
}

/// `sum(a[i] * b[i])` over 32 signed bytes.
pub fn idot32(a: &[i8], b: &[i8]) -> (r: i32)
    requires
        a@.len() == 32,
        b@.len() == 32,
    ensures
        r == quant_dot(a@, 0, b@, 0, 32),
{
    idot(a, b, 32)
}

/// `sum(a[i] * b[i])` over 16 signed bytes.
pub fn idot16(a: &[i8], b: &[i8]) -> (r: i32)
    requires
        a@.len() == 16,
        b@.len() == 16,
    ensures
        r == quant_dot(a@, 0, b@, 0, 16),
{
    idot(a, b, 16)
}

/// The places of group `g` of block `b`.
proof fn lemma_group_place(b: int, g: int, n_blocks: int, groups: int, w: int)
    requires
        0 <= b < n_blocks,
        0 <= g < groups,
        w > 0,
    ensures
        (b * groups + g) / groups == b,
        (b * groups + g) % groups == g,
        0 <= b * groups + g < n_blocks * groups,
        (b * groups + g) * w + w <= n_blocks * groups * w,
        0 <= (b * groups + g) * w,
        (b * groups + g) * w == b * (groups * w) + g * w,
{
    let k = b * groups + g;
    vstd::arithmetic::div_mod::lemma_fundamental_div_mod_converse(k, groups, b, g);
    assert((b + 1) * groups <= n_blocks * groups) by (nonlinear_arith)
        requires
            b + 1 <= n_blocks,
            groups > 0,
    ;
    assert((b + 1) * groups == b * groups + groups) by (nonlinear_arith);
    assert(k * w + w <= n_blocks * groups * w) by (nonlinear_arith)
        requires
            k + 1 <= n_blocks * groups,
            w > 0,
    ;
    assert(0 <= b * groups) by (nonlinear_arith)
        requires
            0 <= b,
            0 <= groups,
    ;
    assert(0 <= k * w) by (nonlinear_arith)
        requires
            0 <= k,
            0 < w,
    ;
    assert(k * w == b * (groups * w) + g * w) by (nonlinear_arith)
        requires
            k == b * groups + g,
    ;
}

/// The term of group `g` of block `b` of a row.
fn group_term(ty: GgmlType, blk: &[u8], g: usize, a: &ActivationQ8, start: usize) -> (r: DotTerm)
    requires
        blocks::is_block_format(ty),
        blk@.len() == ty.block_bytes(),
        g < blocks::groups(ty),
        a@.wf(),
        start + blocks::group_len(ty) <= a@.quants.len(),
    ensures
        r == (DotTerm {
            scale: blocks::scale(ty, blk@, g as int),
            min: blocks::min(ty, blk@, g as int),
            affine: ty == GgmlType::Q4_K,
            block: (start as int / 32) as usize,
            dot: block_dot(
                ty,
                blk@,
                g * blocks::group_len(ty),
                a@.quants,
                start as int,
                blocks::group_len(ty) as nat,
            ) as i32,
            sum: if ty == GgmlType::Q4_K {
                a@.sums[start as int / 32]
            } else {
                0
            },
        }),
{
    let w: usize = blocks::group_len_of(ty);
    let first: usize = g * w;
    let cap: usize = a.qs.len();
    let mut dot: i32 = 0;
    let mut i: usize = 0;
    while i < w
        invariant
            blocks::is_block_format(ty),
            blk@.len() == ty.block_bytes(),
            g < blocks::groups(ty),
            w == blocks::group_len(ty),
            first == g * w,
            start + w <= cap == a@.quants.len(),
            i <= w,
            dot == block_dot(ty, blk@, first as int, a@.quants, start as int, i as nat),
            -16384 * i <= dot <= 16384 * i,
        decreases w - i,
    {
        let q: i8 = blocks::quant_at(ty, blk, first + i);
        let x: i8 = a.qs[start + i];
        proof {
            lemma_product(q as int, x as int);
        }
        dot = dot + q as i32 * x as i32;
        i += 1;
    }
    let affine = ty == GgmlType::Q4_K;
    let block: usize = start / ACT_BLOCK;
    DotTerm {
        scale: blocks::scale_at(ty, blk, g),
        min: blocks::min_at(ty, blk, g),
        affine,
        block,
        dot,
        sum: if affine {
            a.sums[block]
        } else {
            0
        },
    }
}

/// The terms of a weight row against a quantised activation vector.
pub fn row_dot(ty: GgmlType, row: &[u8], a: &ActivationQ8) -> (r: Vec<DotTerm>)
    requires
        blocks::is_block_format(ty),
        a@.wf(),
        row@.len() as int / (ty.block_bytes() as int) * ty.block_elems() <= a@.quants.len(),
    ensures
        r@ == row_terms(ty, row@, a@),
{
    let bb: usize = ty.block_bytes();
    let row_len: usize = row.len();
    let n_blocks: usize = row_len / bb;
    let w: usize = blocks::group_len_of(ty);
    let groups: usize = ty.block_elems() / w;
    let cap: usize = a.qs.len();
    let mut out: Vec<DotTerm> = Vec::new();
    let mut b: usize = 0;
    assert(n_blocks * (groups * w) <= cap);
    while b < n_blocks
        invariant
            blocks::is_block_format(ty),
            a@.wf(),
            bb == ty.block_bytes(),
            w == blocks::group_len(ty),
            groups == blocks::groups(ty),
            groups * w == ty.block_elems(),
            row_len == row@.len(),
            n_blocks == row@.len() as int / (bb as int),
            n_blocks * (groups * w) <= cap,
            cap == a@.quants.len(),
            b <= n_blocks,
            out@.len() == b * groups,
            forall|k: int| 0 <= k < out@.len() ==> out@[k] == row_term(ty, row@, a@, k),
        decreases n_blocks - b,
    {
        proof {
            vstd::arithmetic::div_mod::lemma_fundamental_div_mod(row@.len() as int, bb as int);
        }
        assert(0 <= b * bb && b * bb + bb <= row@.len() && b * bb + bb == (b + 1) * bb)
            by (nonlinear_arith)
            requires
                b < n_blocks,
                bb > 0,
                row@.len() == bb * n_blocks + row@.len() % (bb as nat),
        ;
        let at: usize = b * bb;
        let blk = vstd::slice::slice_subrange(row, at, at + bb);
        let mut g: usize = 0;
        while g < groups
            invariant
                blocks::is_block_format(ty),
                a@.wf(),
                bb == ty.block_bytes(),
                w == blocks::group_len(ty),
                groups == blocks::groups(ty),
                groups * w == ty.block_elems(),
                n_blocks * (groups * w) <= cap,
                cap == a@.quants.len(),
                b < n_blocks,
                blk@ == dequant::block(ty, row@, b as int),
                blk@.len() == bb,
                g <= groups,
                out@.len() == b * groups + g,
                forall|k: int| 0 <= k < out@.len() ==> out@[k] == row_term(ty, row@, a@, k),
            decreases groups - g,
        {
            proof {
                lemma_group_place(b as int, g as int, n_blocks as int, groups as int, w as int);
                assert(n_blocks * groups * w == n_blocks * (groups * w)) by (nonlinear_arith);
            }
            let ghost k = b * groups + g;
            assert(b * (groups * w) <= cap) by (nonlinear_arith)
                requires
                    b < n_blocks,
                    n_blocks * (groups * w) <= cap,
                    groups * w > 0,
            ;
            let start: usize = b * (groups * w) + g * w;
            assert(start == k * w);
            let t = group_term(ty, blk, g, a, start);
            assert(t == row_term(ty, row@, a@, k));
            out.push(t);
            g += 1;
        }
        assert((b + 1) * groups == b * groups + groups) by (nonlinear_arith);
        b += 1;
    }
    assert(out@ =~= row_terms(ty, row@, a@));
    out
}

/// One Q8_0 weight row: `value = d * q`.
pub fn row_dot_q8_0(row: &[u8], a: &ActivationQ8) -> (r: Vec<DotTerm>)
    requires
        a@.wf(),
        row@.len() as int / (GgmlType::Q8_0.block_bytes() as int) * GgmlType::Q8_0.block_elems()
            <= a@.quants.len(),
    ensures
        r@ == row_terms(GgmlType::Q8_0, row@, a@),
{
    row_dot(GgmlType::Q8_0, row, a)
}

/// One Q5_0 weight row: `value = d * (q - 16)`, with the fifth bit in `qh`.
pub fn row_dot_q5_0(row: &[u8], a: &ActivationQ8) -> (r: Vec<DotTerm>)
    requires
        a@.wf(),
        row@.len() as int / (GgmlType::Q5_0.block_bytes() as int) * GgmlType::Q5_0.block_elems()
            <= a@.quants.len(),
    ensures
        r@ == row_terms(GgmlType::Q5_0, row@, a@),
{
    row_dot(GgmlType::Q5_0, row, a)
}

/// One Q4_0 weight row: `value = d * (nibble - 8)`.
pub fn row_dot_q4_0(row: &[u8], a: &ActivationQ8) -> (r: Vec<DotTerm>)
    requires
        a@.wf(),
        row@.len() as int / (GgmlType::Q4_0.block_bytes() as int) * GgmlType::Q4_0.block_elems()
            <= a@.quants.len(),
    ensures
        r@ == row_terms(GgmlType::Q4_0, row@, a@),
{
    row_dot(GgmlType::Q4_0, row, a)
}

/// One Q4_K weight row: each sub-block contributes
/// `d_a * (d*sc*dot - dmin*m*sum)`.
pub fn row_dot_q4_k(row: &[u8], a: &ActivationQ8) -> (r: Vec<DotTerm>)
    requires
        a@.wf(),
        row@.len() as int / (GgmlType::Q4_K.block_bytes() as int) * GgmlType::Q4_K.block_elems()
            <= a@.quants.len(),
    ensures
        r@ == row_terms(GgmlType::Q4_K, row@, a@),
{
    row_dot(GgmlType::Q4_K, row, a)
}

/// One Q6_K weight row: `value = d * sc * (q - 32)`, with a scale per 16 elements.
pub fn row_dot_q6_k(row: &[u8], a: &ActivationQ8) -> (r: Vec<DotTerm>)
    requires
        a@.wf(),
        row@.len() as int / (GgmlType::Q6_K.block_bytes() as int) * GgmlType::Q6_K.block_elems()
            <= a@.quants.len(),
    ensures
        r@ == row_terms(GgmlType::Q6_K, row@, a@),
{
    row_dot(GgmlType::Q6_K, row, a)
}

/// What an [`UnpackedRow`] holds.
#[verifier::ext_equal]
pub struct UnpackedView {
    pub len: nat,
    pub quants: Seq<i8>,
    pub scales: Seq<Scale>,
    pub mins: Seq<Scale>,
    pub group: int,
    pub affine: bool,
}

/// One weight row unpacked into quants plus per-group scales.
#[derive(Debug, Clone)]
pub struct UnpackedRow {
    quants: Vec<i8>,
    scales: Vec<Scale>,
    mins: Vec<Scale>,
    /// Elements per scale group: 32 for most formats, 16 for Q6_K.
    group: usize,
    /// True when `mins` carries meaning.
    affine: bool,
    len: usize,
}

impl View for UnpackedRow {
    type V = UnpackedView;

    closed spec fn view(&self) -> UnpackedView {
        UnpackedView {
            len: self.len as nat,
            quants: self.quants@,
            scales: self.scales@,
            mins: self.mins@,
            group: self.group as int,
            affine: self.affine,
        }
    }
}

/// `u` holds the quants, scales and mins of a row.
pub open spec fn unpacked(u: UnpackedView, ty: GgmlType, row: Seq<u8>) -> bool {
    let be = ty.block_elems() as int;
    let n = row.len() as int / (ty.block_bytes() as int);
    let groups = blocks::groups(ty);
    &&& u.len == n * be
    &&& u.len <= u.quants.len()
    &&& u.group == blocks::group_len(ty)
    &&& u.affine == (ty == GgmlType::Q4_K)
    &&& n * groups <= u.scales.len()
    &&& n * groups <= u.mins.len()
    &&& forall|e: int|
        0 <= e < u.len ==> #[trigger] u.quants[e] == blocks::quant(
            ty,
            dequant::block(ty, row, e / be),
            e % be,
        )
    &&& forall|k: int|
        0 <= k < n * groups ==> #[trigger] u.scales[k] == blocks::scale(
            ty,
            dequant::block(ty, row, k / groups),
            k % groups,
        )
    &&& forall|k: int|
        0 <= k < n * groups ==> #[trigger] u.mins[k] == blocks::min(
            ty,
            dequant::block(ty, row, k / groups),
            k % groups,
        )
}

impl UnpackedRow {
    /// Capacity for a row of `cols` elements.  Reused across rows.
    pub fn new(cols: usize) -> (r: Self)
        requires
            cols < usize::MAX,
        ensures
            r@.len == 0,
            r@.quants == Seq::new(cols as nat, |i: int| 0i8),
            r@.scales == Seq::new((cols / 16 + 1) as nat, |i: int| Scale { d: 0, factor: 0 }),
            r@.mins == r@.scales,
            r@.group == 32,
            !r@.affine,
    {
        let mut quants: Vec<i8> = Vec::with_capacity(cols);
        let mut i: usize = 0;
        while i < cols
            invariant
                i <= cols,
                quants@ == Seq::new(i as nat, |i: int| 0i8),
            decreases cols - i,
        {
            quants.push(0);
            i += 1;
            assert(quants@ =~= Seq::new(i as nat, |i: int| 0i8));
        }
        // 16-element groups are the finest any supported format uses.
        let n: usize = cols / 16 + 1;
        let mut scales: Vec<Scale> = Vec::with_capacity(n);
        let mut mins: Vec<Scale> = Vec::with_capacity(n);
        let mut g: usize = 0;
        while g < n
            invariant
                g <= n,
                scales@ == Seq::new(g as nat, |i: int| Scale { d: 0, factor: 0 }),
                mins@ == scales@,
            decreases n - g,
        {
            scales.push(Scale { d: 0, factor: 0 });
            mins.push(Scale { d: 0, factor: 0 });
            g += 1;
            assert(scales@ =~= Seq::new(g as nat, |i: int| Scale { d: 0, factor: 0 }));
            assert(mins@ =~= scales@);
        }
        UnpackedRow { quants, scales, mins, group: ACT_BLOCK, affine: false, len: 0 }
    }

    pub fn len(&self) -> (r: usize)
        ensures
            r == self@.len,
    {
        self.len
    }

    pub fn is_empty(&self) -> (r: bool)
        ensures
            r == (self@.len == 0),
    {
        self.len == 0
    }

    /// How many bytes the buffers take, with four bytes for a scale or min.
    pub fn byte_len(&self) -> (r: usize)
        requires
            self@.quants.len() + (self@.scales.len() + self@.mins.len()) * 4 <= usize::MAX,
        ensures
            r == self@.quants.len() + (self@.scales.len() + self@.mins.len()) * 4,
    {
        self.quants.len() + (self.scales.len() + self.mins.len()) * 4
    }
}

/// Unpack one weight row into `out`.
///
/// For a type without quants the row is left empty.
pub fn unpack_row(ty: GgmlType, row: &[u8], out: &mut UnpackedRow)
    requires
        blocks::is_block_format(ty) ==> row@.len() as int / (ty.block_bytes() as int)
            * ty.block_elems() <= old(out)@.quants.len(),
        blocks::is_block_format(ty) ==> row_groups(ty, row@) <= old(out)@.scales.len(),
        blocks::is_block_format(ty) ==> row_groups(ty, row@) <= old(out)@.mins.len(),
    ensures
        final(out)@.quants.len() == old(out)@.quants.len(),
        final(out)@.scales.len() == old(out)@.scales.len(),
        final(out)@.mins.len() == old(out)@.mins.len(),
        blocks::is_block_format(ty) ==> unpacked(final(out)@, ty, row@),
        !blocks::is_block_format(ty) ==> final(out)@ == (UnpackedView { len: 0, ..old(out)@ }),
{
    if !blocks::has_blocks(ty) {
        out.len = 0;
        return ;
    }
    let bb: usize = ty.block_bytes();
    let be: usize = ty.block_elems();
    let row_len: usize = row.len();
    let n_blocks: usize = row_len / bb;
    let w: usize = blocks::group_len_of(ty);
    let groups: usize = be / w;
    let cap: usize = out.quants.len();
    let scap: usize = out.scales.len();
    let mcap: usize = out.mins.len();
    let ghost old_out = out@;
    let mut b: usize = 0;
    while b < n_blocks
        invariant
            blocks::is_block_format(ty),
            bb == ty.block_bytes(),
            be == ty.block_elems(),
            w == blocks::group_len(ty),
            groups == blocks::groups(ty),
            row_len == row@.len(),
            n_blocks == row@.len() as int / (bb as int),
            n_blocks * be <= cap,
            n_blocks * groups <= scap,
            n_blocks * groups <= mcap,
            out.quants@.len() == cap == old_out.quants.len(),
            out.scales@.len() == scap == old_out.scales.len(),
            out.mins@.len() == mcap == old_out.mins.len(),
            old_out == old(out)@,
            b <= n_blocks,
            forall|e: int|
                0 <= e < b * be ==> #[trigger] out.quants@[e] == blocks::quant(
                    ty,
                    dequant::block(ty, row@, e / (be as int)),
                    e % (be as int),
                ),
            forall|k: int|
                0 <= k < b * groups ==> #[trigger] out.scales@[k] == blocks::scale(
                    ty,
                    dequant::block(ty, row@, k / (groups as int)),
                    k % (groups as int),
                ),
            forall|k: int|
                0 <= k < b * groups ==> #[trigger] out.mins@[k] == blocks::min(
                    ty,
                    dequant::block(ty, row@, k / (groups as int)),
                    k % (groups as int),
                ),
        decreases n_blocks - b,
    {
        proof {
            vstd::arithmetic::div_mod::lemma_fundamental_div_mod(row@.len() as int, bb as int);
        }
        assert(0 <= b * bb && b * bb + bb <= row@.len() && b * bb + bb == (b + 1) * bb)
            by (nonlinear_arith)
            requires
                b < n_blocks,
                bb > 0,
                row@.len() == bb * n_blocks + row@.len() % (bb as nat),
        ;
        assert(0 <= b * be && b * be + be == (b + 1) * be && (b + 1) * be <= n_blocks * be)
            by (nonlinear_arith)
            requires
                b < n_blocks,
                be > 0,
        ;
        assert(0 <= b * groups && b * groups + groups == (b + 1) * groups && (b + 1) * groups
            <= n_blocks * groups) by (nonlinear_arith)
            requires
                b < n_blocks,
                groups > 0,
        ;
        let at: usize = b * bb;
        let blk = vstd::slice::slice_subrange(row, at, at + bb);
        let first: usize = b * be;
        let mut i: usize = 0;
        while i < be
            invariant
                blocks::is_block_format(ty),
                bb == ty.block_bytes(),
                be == ty.block_elems(),
                b < n_blocks,
                blk@ == dequant::block(ty, row@, b as int),
                blk@.len() == bb,
                first == b * be,
                first + be <= cap,
                i <= be,
                out.quants@.len() == cap,
                out.scales@.len() == scap,
                out.mins@.len() == mcap,
                forall|e: int|
                    0 <= e < first + i ==> #[trigger] out.quants@[e] == blocks::quant(
                        ty,
                        dequant::block(ty, row@, e / (be as int)),
                        e % (be as int),
                    ),
                forall|k: int|
                    0 <= k < b * groups ==> #[trigger] out.scales@[k] == blocks::scale(
                        ty,
                        dequant::block(ty, row@, k / (groups as int)),
                        k % (groups as int),
                    ),
                forall|k: int|
                    0 <= k < b * groups ==> #[trigger] out.mins@[k] == blocks::min(
                        ty,
                        dequant::block(ty, row@, k / (groups as int)),
                        k % (groups as int),
                    ),
            decreases be - i,
        {
            proof {
                vstd::arithmetic::div_mod::lemma_fundamental_div_mod_converse(
                    first + i,
                    be as int,
                    b as int,
                    i as int,
                );
            }
            out.quants[first + i] = blocks::quant_at(ty, blk, i);
            i += 1;
        }
        let first_group: usize = b * groups;
        let mut g: usize = 0;
        while g < groups
            invariant
                blocks::is_block_format(ty),
                bb == ty.block_bytes(),
                be == ty.block_elems(),
                groups == blocks::groups(ty),
                b < n_blocks,
                blk@ == dequant::block(ty, row@, b as int),
                blk@.len() == bb,
                first_group == b * groups,
                first_group + groups <= scap,
                first_group + groups <= mcap,
                g <= groups,
                out.quants@.len() == cap,
                out.scales@.len() == scap,
                out.mins@.len() == mcap,
                forall|e: int|
                    0 <= e < (b + 1) * be ==> #[trigger] out.quants@[e] == blocks::quant(
                        ty,
                        dequant::block(ty, row@, e / (be as int)),
                        e % (be as int),
                    ),
                forall|k: int|
                    0 <= k < first_group + g ==> #[trigger] out.scales@[k] == blocks::scale(
                        ty,
                        dequant::block(ty, row@, k / (groups as int)),
                        k % (groups as int),
                    ),
                forall|k: int|
                    0 <= k < first_group + g ==> #[trigger] out.mins@[k] == blocks::min(
                        ty,
                        dequant::block(ty, row@, k / (groups as int)),
                        k % (groups as int),
                    ),
            decreases groups - g,
        {
            proof {
                vstd::arithmetic::div_mod::lemma_fundamental_div_mod_converse(
                    first_group + g,
                    groups as int,
                    b as int,
                    g as int,
                );
            }
            out.scales[first_group + g] = blocks::scale_at(ty, blk, g);
            out.mins[first_group + g] = blocks::min_at(ty, blk, g);
            g += 1;
        }
        b += 1;
    }
    out.len = n_blocks * be;
    out.group = w;
    out.affine = ty == GgmlType::Q4_K;
}

/// The terms of the dot product of an unpacked row with an activation vector.
pub open spec fn unpacked_terms(u: UnpackedView, a: ActivationView) -> Seq<DotTerm> {
    Seq::new(
        (u.len as int / u.group) as nat,
        |k: int|
            DotTerm {
                scale: u.scales[k],
                min: u.mins[k],
                affine: u.affine,
                block: (k * u.group / 32) as usize,
                dot: quant_dot(u.quants, k * u.group, a.quants, k * u.group, u.group as nat) as i32,
                sum: if u.affine {
                    a.sums[k * u.group / 32]
                } else {
                    0
                },
            },
    )
}

/// Dot products go by the numbers, wherever they stand.
proof fn lemma_same_dot(
    a: Seq<i8>,
    i: int,
    b: Seq<i8>,
    j: int,
    c: Seq<i8>,
    d: Seq<i8>,
    n: nat,
)
    requires
        forall|k: int| 0 <= k < n ==> a[i + k] == #[trigger] c[k],
        forall|k: int| 0 <= k < n ==> b[j + k] == #[trigger] d[k],
    ensures
        quant_dot(a, i, b, j, n) == quant_dot(c, 0, d, 0, n),
    decreases n,
{
    if n > 0 {
        lemma_same_dot(a, i, b, j, c, d, (n - 1) as nat);
        assert(a[i + (n - 1)] == c[n - 1]);
        assert(b[j + (n - 1)] == d[n - 1]);
    }
}

/// The terms of an unpacked weight row against a quantised activation vector.
pub fn row_dot_unpacked(row: &UnpackedRow, a: &ActivationQ8) -> (r: Vec<DotTerm>)
    requires
        row@.group == 16 || row@.group == 32,
        row@.len <= row@.quants.len(),
        row@.len as int / row@.group <= row@.scales.len(),
        row@.len as int / row@.group <= row@.mins.len(),
        a@.wf(),
        row@.len <= a@.quants.len(),
    ensures
        r@ == unpacked_terms(row@, a@),
{
    let w: usize = row.group;
    let n_groups: usize = row.len / w;
    let cap: usize = row.quants.len();
    let mut out: Vec<DotTerm> = Vec::with_capacity(n_groups);
    let mut k: usize = 0;
    while k < n_groups
        invariant
            row@.group == w,
            w == 16 || w == 32,
            n_groups == row@.len as int / (w as int),
            row@.len <= row@.quants.len(),
            cap == row@.quants.len(),
            n_groups <= row@.scales.len(),
            n_groups <= row@.mins.len(),
            a@.wf(),
            row@.len <= a@.quants.len(),
            k <= n_groups,
            out@.len() == k,
            forall|j: int| 0 <= j < k ==> out@[j] == unpacked_terms(row@, a@)[j],
        decreases n_groups - k,
    {
        assert(k * w + w <= row@.len && 0 <= k * w) by {
            vstd::arithmetic::div_mod::lemma_fundamental_div_mod(row@.len as int, w as int);
            assert(k * w + w <= row@.len && 0 <= k * w) by (nonlinear_arith)
                requires
                    k < n_groups,
                    row@.len == w * n_groups + row@.len % (w as nat),
                    w > 0,
            ;
        }
        let start: usize = k * w;
        let qw = vstd::slice::slice_subrange(row.quants.as_slice(), start, start + w);
        let qa = vstd::slice::slice_subrange(a.qs.as_slice(), start, start + w);
        let dot: i32 = if w == ACT_BLOCK {
            idot32(qw, qa)
        } else {
            idot16(qw, qa)
        };
        proof {
            lemma_same_dot(
                row@.quants,
                start as int,
                a@.quants,
                start as int,
                qw@,
                qa@,
                w as nat,
            );
        }
        let block: usize = start / ACT_BLOCK;
        out.push(
            DotTerm {
                scale: row.scales[k],
                min: row.mins[k],
                affine: row.affine,
                block,
                dot,
                sum: if row.affine {
                    a.sums[block]
                } else {
                    0
                },
            },
        );
        k += 1;
    }
    assert(out@ =~= unpacked_terms(row@, a@));
    out
}

/// The groups of a block cover it.
proof fn lemma_groups(ty: GgmlType)
    requires
        blocks::is_block_format(ty),
    ensures
        blocks::groups(ty) * blocks::group_len(ty) == ty.block_elems(),
{
    let g = blocks::groups(ty);
    let w = blocks::group_len(ty);
    let be = ty.block_elems() as int;
    assert((g == 16 && w == 16 && be == 256) || (g == 8 && w == 32 && be == 256) || (g == 1 && w
        == 32 && be == 32));
    assert(g * w == be) by (nonlinear_arith)
        requires
            (g == 16 && w == 16 && be == 256) || (g == 8 && w == 32 && be == 256) || (g == 1 && w
                == 32 && be == 32),
    ;
}

proof fn lemma_unpacked_dot(
    u: UnpackedView,
    ty: GgmlType,
    row: Seq<u8>,
    a: Seq<i8>,
    b: int,
    g: int,
    n: nat,
)
    requires
        blocks::is_block_format(ty),
        unpacked(u, ty, row),
        0 <= b < row.len() as int / (ty.block_bytes() as int),
        0 <= g < blocks::groups(ty),
        n <= blocks::group_len(ty),
    ensures
        ({
            let start = b * ty.block_elems() + g * blocks::group_len(ty);
            quant_dot(u.quants, start, a, start, n) == block_dot(
                ty,
                dequant::block(ty, row, b),
                g * blocks::group_len(ty),
                a,
                start,
                n,
            )
        }),
    decreases n,
{
    if n > 0 {
        lemma_unpacked_dot(u, ty, row, a, b, g, (n - 1) as nat);
        let be = ty.block_elems() as int;
        let i = g * blocks::group_len(ty) + n - 1;
        let e = b * be + i;
        let nb = row.len() as int / (ty.block_bytes() as int);
        let w = blocks::group_len(ty);
        let groups = blocks::groups(ty);
        lemma_groups(ty);
        assert(0 <= g * w && (g + 1) * w <= groups * w && (g + 1) * w == g * w + w)
            by (nonlinear_arith)
            requires
                0 <= g < groups,
                w > 0,
        ;
        assert(0 <= i < be);
        vstd::arithmetic::div_mod::lemma_fundamental_div_mod_converse(e, be, b, i);
        assert(0 <= e < nb * be) by (nonlinear_arith)
            requires
                e == b * be + i,
                0 <= b < nb,
                0 <= i < be,
        ;
        assert(u.quants[e] == blocks::quant(ty, dequant::block(ty, row, b), i));
    }
}

/// Unpacking a row once and using it many times gives the terms that the packed row
/// gives.
pub proof fn law_unpacked_terms_are_the_packed_terms(
    u: UnpackedView,
    ty: GgmlType,
    row: Seq<u8>,
    a: ActivationView,
)
    requires
        blocks::is_block_format(ty),
        unpacked(u, ty, row),
    ensures
        unpacked_terms(u, a) == row_terms(ty, row, a),
{
    let w = blocks::group_len(ty);
    let groups = blocks::groups(ty);
    let n = row.len() as int / (ty.block_bytes() as int);
    let be = ty.block_elems() as int;
    lemma_groups(ty);
    assert(u.len as int / w == n * groups) by {
        assert(n * be == (n * groups) * w) by (nonlinear_arith)
            requires
                groups * w == be,
        ;
        vstd::arithmetic::div_mod::lemma_div_multiples_vanish(n * groups, w);
        assert(w * (n * groups) == (n * groups) * w) by (nonlinear_arith);
    }
    assert forall|k: int| 0 <= k < n * groups implies unpacked_terms(u, a)[k]
        == #[trigger] row_terms(ty, row, a)[k] by {
        let b = k / groups;
        let g = k % groups;
        vstd::arithmetic::div_mod::lemma_fundamental_div_mod(k, groups);
        assert(0 <= b < n) by (nonlinear_arith)
            requires
                k == groups * b + g,
                0 <= g < groups,
                0 <= k < n * groups,
        ;
        assert(k * w == b * be + g * w) by (nonlinear_arith)
            requires
                k == groups * b + g,
                groups * w == be,
        ;
        lemma_unpacked_dot(u, ty, row, a.quants, b, g, w as nat);
        assert(u.scales[k] == blocks::scale(ty, dequant::block(ty, row, b), g));
        assert(u.mins[k] == blocks::min(ty, dequant::block(ty, row, b), g));
    }
    assert(unpacked_terms(u, a) =~= row_terms(ty, row, a));
}

} // verus!
