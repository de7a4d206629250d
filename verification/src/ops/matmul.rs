//! Rows of quantised matrices against quantised activations.
use crate::quant::blocks;
use crate::quant::dequant::QuantError;
use crate::quant::vecdot;
use crate::quant::vecdot::{row_dot, row_dot_unpacked, unpack_row, ActivationQ8, DotTerm, UnpackedRow};
use crate::tensor::quant_matrix;
use crate::tensor::quant_matrix::{MatrixView, QuantMatrix};
use vstd::prelude::*;

verus! {

/// The bytes of one row of a matrix.
pub open spec fn row_of(m: MatrixView, r: int) -> Seq<u8> {
    let n = quant_matrix::row_size(m.ty, m.cols);
    m.data.subrange(r * n, (r + 1) * n)
}

/// Output `row` of a matrix times an activation vector, as the terms whose sum it is.
///
/// Formats without blocks are rejected: they are those of norms and biases, and
/// falling back quietly would hide a model that is not what the caller thinks it is.
pub fn matvec_fused(w: &QuantMatrix<'_>, a: &ActivationQ8, row: usize) -> (r: Result<
    Vec<DotTerm>,
    QuantError,
>)
    requires
        a@.wf(),
        a@.len == w@.cols,
        row < w@.rows,
    ensures
        match r {
            Ok(v) => blocks::is_block_format(w@.ty) && v@ == vecdot::row_terms(
                w@.ty,
                row_of(w@, row as int),
                a@,
            ),
            Err(e) => !blocks::is_block_format(w@.ty) && e == QuantError::UnsupportedType(w@.ty),
        },
{
    let ty = w.ggml_type();
    if !blocks::has_blocks(ty) {
        return Err(QuantError::UnsupportedType(ty));
    }
    let bytes = w.row_bytes(row);
    let all: usize = w.byte_len();
    proof {
        lemma_row_elements(w@);
    }
    Ok(row_dot(ty, bytes, a))
}

/// A row of whole blocks has as many elements as its blocks hold.
proof fn lemma_row_elements(m: MatrixView)
    requires
        m.cols >= 0,
        m.cols % (m.ty.block_elems() as int) == 0,
    ensures
        quant_matrix::row_size(m.ty, m.cols) / (m.ty.block_bytes() as int) * m.ty.block_elems()
            == m.cols,
        quant_matrix::row_size(m.ty, m.cols) / (m.ty.block_bytes() as int) == m.cols / (
        m.ty.block_elems() as int),
{
    let be = m.ty.block_elems() as int;
    let bb = m.ty.block_bytes() as int;
    let n = m.cols / be;
    vstd::arithmetic::div_mod::lemma_div_multiples_vanish(n, bb);
    assert(n * bb == bb * n) by (nonlinear_arith);
    vstd::arithmetic::div_mod::lemma_fundamental_div_mod(m.cols, be);
    assert(n * be == be * n) by (nonlinear_arith);
}

/// No group is shorter than 16 elements.
proof fn lemma_groups_fit(m: MatrixView)
    requires
        m.cols >= 0,
        m.cols % (m.ty.block_elems() as int) == 0,
        blocks::is_block_format(m.ty),
    ensures
        16 * (m.cols / (m.ty.block_elems() as int) * blocks::groups(m.ty)) <= m.cols,
{
    let n = m.cols / (m.ty.block_elems() as int);
    let g = blocks::groups(m.ty);
    let be = m.ty.block_elems() as int;
    vstd::arithmetic::div_mod::lemma_fundamental_div_mod(m.cols, be);
    assert(16 * g <= be);
    assert(16 * (n * g) <= be * n) by (nonlinear_arith)
        requires
            16 * g <= be,
            n >= 0,
    ;
}

/// Output `row` of a matrix times each of several activation vectors.  The row is
/// unpacked once for all of them.
pub fn matmul_fused(
    w: &QuantMatrix<'_>,
    acts: &[ActivationQ8],
    row: usize,
    scratch: &mut UnpackedRow,
) -> (r: Result<Vec<Vec<DotTerm>>, QuantError>)
    requires
        forall|t: int|
            0 <= t < acts@.len() ==> (#[trigger] acts@[t])@.wf() && acts@[t]@.len == w@.cols,
        row < w@.rows,
        w@.cols <= old(scratch)@.quants.len(),
        w@.cols <= 16 * old(scratch)@.scales.len(),
        w@.cols <= 16 * old(scratch)@.mins.len(),
    ensures
        final(scratch)@.quants.len() == old(scratch)@.quants.len(),
        final(scratch)@.scales.len() == old(scratch)@.scales.len(),
        final(scratch)@.mins.len() == old(scratch)@.mins.len(),
        match r {
            Ok(v) => blocks::is_block_format(w@.ty) && v@.len() == acts@.len() && forall|t: int|
                0 <= t < v@.len() ==> (#[trigger] v@[t])@ == vecdot::row_terms(
                    w@.ty,
                    row_of(w@, row as int),
                    acts@[t]@,
                ),
            Err(e) => !blocks::is_block_format(w@.ty) && e == QuantError::UnsupportedType(w@.ty),
        },
{
    let ty = w.ggml_type();
    if !blocks::has_blocks(ty) {
        return Err(QuantError::UnsupportedType(ty));
    }
    let bytes = w.row_bytes(row);
    let all: usize = w.byte_len();
    let cols: usize = w.cols();
    let ghost n = cols as int / (ty.block_elems() as int);
    proof {
        lemma_row_elements(w@);
        lemma_groups_fit(w@);
    }
    unpack_row(ty, bytes, scratch);
    let mut out: Vec<Vec<DotTerm>> = Vec::with_capacity(acts.len());
    let mut t: usize = 0;
    while t < acts.len()
        invariant
            blocks::is_block_format(ty),
            ty == w@.ty,
            row < w@.rows,
            cols == w@.cols,
            bytes@ == row_of(w@, row as int),
            vecdot::unpacked(scratch@, ty, bytes@),
            scratch@.len == cols,
            cols <= scratch@.quants.len(),
            cols <= 16 * scratch@.scales.len(),
            cols <= 16 * scratch@.mins.len(),
            forall|k: int|
                0 <= k < acts@.len() ==> (#[trigger] acts@[k])@.wf() && acts@[k]@.len == cols,
            t <= acts@.len(),
            out@.len() == t,
            forall|k: int|
                0 <= k < t ==> (#[trigger] out@[k])@ == vecdot::row_terms(
                    ty,
                    row_of(w@, row as int),
                    acts@[k]@,
                ),
        decreases acts.len() - t,
    {
        proof {
            vecdot::law_unpacked_terms_are_the_packed_terms(scratch@, ty, bytes@, acts@[t as int]@);
        }
        out.push(row_dot_unpacked(scratch, &acts[t]));
        t += 1;
    }
    Ok(out)
}

} // verus!
