//! Quantised dot products are the dot products of the weights.
//!
//! The terms of a row regroup a sum; they drop nothing and add nothing.  That is stated in
//! whole numbers: a half-precision pattern and the scale of an activation block may stand
//! for any numbers, in any unit.
use super::blocks;
use super::blocks::Scale;
use super::dequant;
use super::dequant::Weight;
use super::vecdot;
use super::vecdot::{ActivationView, DotTerm};
use crate::gguf::ggml_type::GgmlType;
use vstd::prelude::*;

verus! {

/// What a scale stands for, where `f` says what half-precision patterns stand for.
pub open spec fn scale_value(f: spec_fn(u16) -> int, s: Scale) -> int {
    f(s.d) * s.factor
}

/// What a weight of a block stands for.
pub open spec fn weight_value(f: spec_fn(u16) -> int, w: Weight) -> int {
    match w {
        Weight::Scaled { scale, quant, min } => scale_value(f, scale) * quant - scale_value(f, min),
        Weight::Exact(_) => 0,
    }
}

/// What a term stands for, where `h` says what the scales of activation blocks stand for.
pub open spec fn term_value(f: spec_fn(u16) -> int, h: spec_fn(int) -> int, t: DotTerm) -> int {
    if t.affine {
        h(t.block as int) * (scale_value(f, t.scale) * t.dot - scale_value(f, t.min) * t.sum)
    } else {
        (scale_value(f, t.scale) * h(t.block as int)) * t.dot
    }
}

/// The sum of the first `n` terms.
pub open spec fn terms_sum(
    f: spec_fn(u16) -> int,
    h: spec_fn(int) -> int,
    terms: Seq<DotTerm>,
    n: nat,
) -> int
    decreases n,
{
    if n == 0 {
        0
    } else {
        terms_sum(f, h, terms, (n - 1) as nat) + term_value(f, h, terms[n - 1])
    }
}

/// The dot product of `n` weights with the activations beside them, from `from` on.
pub open spec fn weights_dot(
    f: spec_fn(u16) -> int,
    h: spec_fn(int) -> int,
    ws: Seq<Weight>,
    qa: Seq<i8>,
    from: int,
    n: nat,
) -> int
    decreases n,
{
    if n == 0 {
        0
    } else {
        let i = from + n - 1;
        weights_dot(f, h, ws, qa, from, (n - 1) as nat) + weight_value(f, ws[i]) * (h(i / 32)
            * qa[i])
    }
}

proof fn lemma_dot_split(
    f: spec_fn(u16) -> int,
    h: spec_fn(int) -> int,
    ws: Seq<Weight>,
    qa: Seq<i8>,
    n: nat,
    m: nat,
)
    ensures
        weights_dot(f, h, ws, qa, 0, n + m) == weights_dot(f, h, ws, qa, 0, n) + weights_dot(
            f,
            h,
            ws,
            qa,
            n as int,
            m,
        ),
    decreases m,
{
    if m > 0 {
        lemma_dot_split(f, h, ws, qa, n, (m - 1) as nat);
        assert((n + m - 1) as nat == n + (m - 1) as nat);
    }
}

/// A weight of a row is one of its block.
pub proof fn lemma_weight_at(ty: GgmlType, row: Seq<u8>, nb: nat, b: int, i: int)
    requires
        0 <= b < nb,
        0 <= i < ty.block_elems(),
    ensures
        dequant::row_weights(ty, row, nb).len() == nb * ty.block_elems(),
        dequant::row_weights(ty, row, nb)[b * ty.block_elems() + i] == dequant::block_weight(
            ty,
            dequant::block(ty, row, b),
            i,
        ),
    decreases nb,
{
    let be = ty.block_elems() as int;
    let before = (nb - 1) as nat;
    lemma_weights_len(ty, row, before);
    lemma_weights_len(ty, row, nb);
    if b == before {
        assert(b * be + i - before * be == i);
    } else {
        lemma_weight_at(ty, row, before, b, i);
        assert(0 <= b * be + i < before * be) by (nonlinear_arith)
            requires
                0 <= b < before,
                0 <= i < be,
        ;
    }
}

proof fn lemma_weights_len(ty: GgmlType, row: Seq<u8>, nb: nat)
    ensures
        dequant::row_weights(ty, row, nb).len() == nb * ty.block_elems(),
    decreases nb,
{
    let be = ty.block_elems() as int;
    if nb > 0 {
        let p = (nb - 1) as nat;
        lemma_weights_len(ty, row, p);
        assert(p * be + be == nb * be) by (nonlinear_arith)
            requires
                p == nb - 1,
        ;
    } else {
        assert(0 * be == 0);
    }
}

/// Where element `e` of group `k` stands.
proof fn lemma_place(ty: GgmlType, k: int, e: int)
    requires
        blocks::is_block_format(ty),
        0 <= k,
        0 <= e < blocks::group_len(ty),
    ensures
        ({
            let be = ty.block_elems() as int;
            let w = blocks::group_len(ty);
            let b = k / blocks::groups(ty);
            let g = k % blocks::groups(ty);
            &&& k * w + e == b * be + (g * w + e)
            &&& 0 <= g * w + e < be
            &&& (g * w + e) / w == g
            &&& (k * w + e) / 32 == k * w / 32
        }),
{
    if ty == GgmlType::Q6_K {
        lemma_place_sixteen(k, e);
    } else if ty.block_elems() == 256 {
        lemma_place_eight(k, e);
    }
}

proof fn lemma_place_sixteen(k: int, e: int)
    requires
        0 <= k,
        0 <= e < 16,
    ensures
        k * 16 + e == k / 16 * 256 + (k % 16 * 16 + e),
        0 <= k % 16 * 16 + e < 256,
        (k % 16 * 16 + e) / 16 == k % 16,
        (k * 16 + e) / 32 == k * 16 / 32,
{
}

proof fn lemma_place_eight(k: int, e: int)
    requires
        0 <= k,
        0 <= e < 32,
    ensures
        k * 32 + e == k / 8 * 256 + (k % 8 * 32 + e),
        0 <= k % 8 * 32 + e < 256,
        (k % 8 * 32 + e) / 32 == k % 8,
        (k * 32 + e) / 32 == k * 32 / 32,
{
}

proof fn lemma_dot_bound(ty: GgmlType, blk: Seq<u8>, i: int, a: Seq<i8>, j: int, n: nat)
    requires
        blocks::is_block_format(ty),
        0 <= i,
        i + n <= ty.block_elems(),
    ensures
        -16384 * n <= vecdot::block_dot(ty, blk, i, a, j, n) <= 16384 * n,
    decreases n,
{
    if n > 0 {
        lemma_dot_bound(ty, blk, i, a, j, (n - 1) as nat);
        blocks::law_quants_lie_in_range(ty, blk, i + n - 1);
        let x = blocks::quant(ty, blk, i + n - 1);
        let y = a[j + n - 1] as int;
        assert(-16384 <= x * y <= 16384) by (nonlinear_arith)
            requires
                -128 <= x <= 127,
                -128 <= y <= 127,
        ;
    }
}

/// One element more of a group.
proof fn lemma_regroup(u: int, s: int, m: int, d: int, t: int, q: int, x: int)
    ensures
        u * (s * d - m * t) + (s * q - m) * (u * x) == u * (s * (d + q * x) - m * (t + x)),
{
    let y = s * q - m;
    assert(y * (u * x) == u * (y * x)) by (nonlinear_arith);
    assert(y * x == s * (q * x) - m * x) by (nonlinear_arith)
        requires
            y == s * q - m,
    ;
    assert(s * (d + q * x) == s * d + s * (q * x)) by (nonlinear_arith);
    assert(m * (t + x) == m * t + m * x) by (nonlinear_arith);
    let before = s * d - m * t;
    assert(u * before + u * (y * x) == u * (before + y * x)) by (nonlinear_arith);
}

/// The weights of a group, one after the other, come to its scale times the dot product
/// of its quants, less its min times the sum of its activations.
proof fn lemma_group(
    f: spec_fn(u16) -> int,
    h: spec_fn(int) -> int,
    ty: GgmlType,
    row: Seq<u8>,
    nb: nat,
    qa: Seq<i8>,
    k: int,
    n: nat,
)
    requires
        blocks::is_block_format(ty),
        0 <= k < nb * blocks::groups(ty),
        n <= blocks::group_len(ty),
    ensures
        ({
            let w = blocks::group_len(ty);
            let blk = dequant::block(ty, row, k / blocks::groups(ty));
            let g = k % blocks::groups(ty);
            let s = scale_value(f, blocks::scale(ty, blk, g));
            let m = scale_value(f, blocks::min(ty, blk, g));
            weights_dot(f, h, dequant::row_weights(ty, row, nb), qa, k * w, n) == h(k * w / 32) * (s
                * vecdot::block_dot(ty, blk, g * w, qa, k * w, n) - m * vecdot::quant_sum(
                qa,
                k * w,
                n,
            ))
        }),
    decreases n,
{
    let w = blocks::group_len(ty);
    let groups = blocks::groups(ty);
    let b = k / groups;
    let blk = dequant::block(ty, row, b);
    let g = k % groups;
    let s = scale_value(f, blocks::scale(ty, blk, g));
    let m = scale_value(f, blocks::min(ty, blk, g));
    let ws = dequant::row_weights(ty, row, nb);
    let u = h(k * w / 32);
    if n == 0 {
        assert(u * (s * 0 - m * 0) == 0) by (nonlinear_arith);
    } else {
        let p = (n - 1) as nat;
        let e = n - 1;
        lemma_group(f, h, ty, row, nb, qa, k, p);
        lemma_place(ty, k, e);
        assert(0 <= b < nb) by (nonlinear_arith)
            requires
                b == k / groups,
                0 <= k < nb * groups,
                groups > 0,
        ;
        lemma_weight_at(ty, row, nb, b, g * w + e);
        blocks::law_quants_lie_in_range(ty, blk, g * w + e);
        let q = blocks::quant(ty, blk, g * w + e);
        let x = qa[k * w + e] as int;
        assert(k * w + n - 1 == k * w + e);
        assert(g * w + n - 1 == g * w + e);
        let d = vecdot::block_dot(ty, blk, g * w, qa, k * w, p);
        let t = vecdot::quant_sum(qa, k * w, p);
        assert(weight_value(f, ws[k * w + e]) == s * q - m);
        lemma_regroup(u, s, m, d, t, q, x);
    }
}

/// The terms of a row come to the dot product of its weights with the activations, exactly.
pub proof fn law_terms_are_the_dot_product(
    f: spec_fn(u16) -> int,
    h: spec_fn(int) -> int,
    ty: GgmlType,
    row: Seq<u8>,
    nb: nat,
    a: ActivationView,
)
    requires
        blocks::is_block_format(ty),
        row.len() == nb * ty.block_bytes(),
        a.wf(),
        a.len == nb * ty.block_elems(),
        a.len <= usize::MAX,
    ensures
        ({
            let terms = vecdot::row_terms(ty, row, a);
            terms_sum(f, h, terms, terms.len()) == weights_dot(
                f,
                h,
                dequant::row_weights(ty, row, nb),
                a.quants,
                0,
                a.len,
            )
        }),
{
    let bb = ty.block_bytes() as int;
    assert(row.len() as int / bb == nb) by (nonlinear_arith)
        requires
            row.len() == nb * bb,
            bb > 0,
    ;
    let groups = blocks::groups(ty);
    let w = blocks::group_len(ty);
    lemma_place(ty, 0, 0);
    assert(groups * w == ty.block_elems());
    assert((nb * groups) * w == nb * (groups * w)) by (nonlinear_arith);
    lemma_first_groups(f, h, ty, row, nb, a, (nb * groups) as nat);
}

/// The same for the first groups of a row.
proof fn lemma_first_groups(
    f: spec_fn(u16) -> int,
    h: spec_fn(int) -> int,
    ty: GgmlType,
    row: Seq<u8>,
    nb: nat,
    a: ActivationView,
    k: nat,
)
    requires
        blocks::is_block_format(ty),
        row.len() as int / (ty.block_bytes() as int) == nb,
        a.wf(),
        a.len == nb * ty.block_elems(),
        a.len <= usize::MAX,
        k <= nb * blocks::groups(ty),
        (nb * blocks::groups(ty)) * blocks::group_len(ty) == nb * ty.block_elems(),
    ensures
        terms_sum(f, h, vecdot::row_terms(ty, row, a), k) == weights_dot(
            f,
            h,
            dequant::row_weights(ty, row, nb),
            a.quants,
            0,
            (k * blocks::group_len(ty)) as nat,
        ),
    decreases k,
{
    let w = blocks::group_len(ty);
    let groups = blocks::groups(ty);
    let ws = dequant::row_weights(ty, row, nb);
    if k > 0 {
        let last = k - 1;
        lemma_first_groups(f, h, ty, row, nb, a, last as nat);
        assert(k * w == last * w + w) by (nonlinear_arith)
            requires
                last == k - 1,
        ;
        lemma_dot_split(f, h, ws, a.quants, (last * w) as nat, w as nat);
        lemma_group(f, h, ty, row, nb, a.quants, last, w as nat);
        lemma_place(ty, last, 0);
        lemma_place(ty, last, w - 1);
        let blk = dequant::block(ty, row, last / groups);
        let g = last % groups;
        lemma_dot_bound(ty, blk, g * w, a.quants, last * w, w as nat);
        let ab = last * w / 32;
        assert(last * w + w <= (nb * groups) * w) by (nonlinear_arith)
            requires
                last + 1 <= nb * groups,
                w > 0,
        ;
        let t = vecdot::row_terms(ty, row, a)[last];
        assert(t == vecdot::row_term(ty, row, a, last));
        let s = scale_value(f, t.scale);
        let d = vecdot::block_dot(ty, blk, g * w, a.quants, last * w, w as nat);
        assert(t.dot == d);
        assert(t.block == ab);
        if ty == GgmlType::Q4_K {
            assert(32 * ab == last * w);
            assert(a.sums[ab] == vecdot::quant_sum(a.quants, 32 * ab, 32));
        } else {
            let u = h(ab);
            let q = vecdot::quant_sum(a.quants, last * w, w as nat);
            assert(scale_value(f, t.min) == 0) by (nonlinear_arith)
                requires
                    scale_value(f, t.min) == f(t.min.d) * 0,
            ;
            assert(u * (s * d - 0 * q) == (s * u) * d) by (nonlinear_arith);
        }
    }
}

} // verus!
