//! Scratch space, allocated once and reused for every token.
use super::kv::{filled, overwrite};
use super::plan::{Act, Buffer, Row, Widths, PREFILL_CHUNK};
use crate::bits::F32Bits;
use crate::gguf::ModelConfig;
use crate::ops::matmul;
use crate::ops::matmul::{matmul_fused, matvec_fused};
use crate::quant::blocks;
use crate::quant::dequant::QuantError;
use crate::quant::vecdot;
use crate::quant::vecdot::{ActivationQ8, ActivationView, DotTerm, UnpackedRow};
use crate::tensor::quant_matrix::QuantMatrix;
use vstd::prelude::*;

verus! {

/// Buffers for the batched prefill path.
#[derive(Debug)]
struct PrefillBatch<T> {
    xs: Vec<T>,
    xb: Vec<T>,
    q: Vec<T>,
    k: Vec<T>,
    v: Vec<T>,
    attn_out: Vec<T>,
    gate: Vec<T>,
    up: Vec<T>,
    down: Vec<T>,
    /// One quantised activation per position of a chunk.
    acts: Vec<ActivationQ8>,
    /// One unpacked weight row, reused across every row of every projection.
    unpacked: UnpackedRow,
}

/// Scratch buffers for one token and for a chunk.
#[derive(Debug)]
pub struct Workspace<T> {
    x: Vec<T>,
    xb: Vec<T>,
    xb2: Vec<T>,
    q: Vec<T>,
    k: Vec<T>,
    v: Vec<T>,
    attn_out: Vec<T>,
    gate: Vec<T>,
    up: Vec<T>,
    logits: Vec<T>,
    /// Scores of one head.
    att: Vec<T>,
    /// One dequantised weight row, for the unfused path.
    row: Vec<T>,
    /// Attention weights of the current token, `[layer][head][position]`.
    attn: Vec<T>,
    /// Whether to fill `attn`.
    capture_attention: bool,
    n_layers: usize,
    n_heads: usize,
    max_seq: usize,
    widths: Widths,
    batch: PrefillBatch<T>,
    /// The activation vector of a token, quantised once and read by every projection
    /// that shares it.
    act: ActivationQ8,
}

/// The longest vector that is quantised.
pub open spec fn widest(w: Widths) -> int {
    let a = if w.d >= w.ff {
        w.d
    } else {
        w.ff
    };
    if a >= w.q_dim {
        a as int
    } else {
        w.q_dim as int
    }
}

fn widest_of(w: &Widths) -> (r: usize)
    ensures
        r == widest(*w),
{
    let a: usize = if w.d >= w.ff {
        w.d
    } else {
        w.ff
    };
    if a >= w.q_dim {
        a
    } else {
        w.q_dim
    }
}

/// The longest row of weights that is read as exact numbers.
pub open spec fn longest_row(w: Widths) -> int {
    if w.d >= w.ff {
        w.d as int
    } else {
        w.ff as int
    }
}

/// A quantised activation vector with room for `n` elements.
pub open spec fn has_room(a: ActivationView, n: int) -> bool {
    &&& a.wf()
    &&& a.quants.len() == n
    &&& a.scales.len() == n / 32
}

/// A quantised activation vector of `n` zeros.
pub open spec fn blank(a: ActivationView, n: int) -> bool {
    &&& a.len == n
    &&& a.quants == Seq::new(n as nat, |i: int| 0i8)
    &&& a.scales == Seq::new((n / 32) as nat, |i: int| F32Bits(0))
    &&& a.sums == Seq::new((n / 32) as nat, |i: int| 0i32)
}

/// The numbers that the buffers of a token hold.
pub open spec fn token_numbers(w: Widths, n_layers: int, n_heads: int, max_seq: int) -> int {
    3 * w.d + 2 * w.q_dim + 2 * w.kv_dim + 2 * w.ff + w.vocab + max_seq + longest_row(w) + n_layers
        * n_heads * max_seq
}

/// The numbers that the buffers of a chunk hold.
pub open spec fn batch_numbers(w: Widths) -> int {
    PREFILL_CHUNK * (3 * w.d + 2 * w.q_dim + 2 * w.kv_dim + 2 * w.ff)
}

/// Bytes of a quantised vector of `n` elements.
pub open spec fn act_bytes(n: int) -> int {
    n / 32 * 4 + n + n / 32 * 4
}

/// Bytes of everything in a workspace, at four to a number.
pub open spec fn workspace_bytes(w: Widths, n_layers: int, n_heads: int, max_seq: int) -> int {
    4 * token_numbers(w, n_layers, n_heads, max_seq) + 4 * batch_numbers(w) + (1 + PREFILL_CHUNK)
        * act_bytes(widest(w)) + widest(w) + 2 * (widest(w) / 16 + 1) * 4
}

impl<T> Workspace<T> {
    /// What a buffer holds, row after row.
    pub closed spec fn data(&self, b: Buffer) -> Seq<T> {
        match b {
            Buffer::X => self.x@,
            Buffer::Xb => self.xb@,
            Buffer::Xb2 => self.xb2@,
            Buffer::Q => self.q@,
            Buffer::K => self.k@,
            Buffer::V => self.v@,
            Buffer::AttnOut => self.attn_out@,
            Buffer::Gate => self.gate@,
            Buffer::Up => self.up@,
            Buffer::Logits => self.logits@,
            Buffer::BatchX => self.batch.xs@,
            Buffer::BatchXb => self.batch.xb@,
            Buffer::BatchQ => self.batch.q@,
            Buffer::BatchK => self.batch.k@,
            Buffer::BatchV => self.batch.v@,
            Buffer::BatchAttnOut => self.batch.attn_out@,
            Buffer::BatchGate => self.batch.gate@,
            Buffer::BatchUp => self.batch.up@,
            Buffer::BatchDown => self.batch.down@,
        }
    }

    pub closed spec fn widths(&self) -> Widths {
        self.widths
    }

    pub closed spec fn spec_n_layers(&self) -> int {
        self.n_layers as int
    }

    pub closed spec fn spec_n_heads(&self) -> int {
        self.n_heads as int
    }

    pub closed spec fn spec_max_seq(&self) -> int {
        self.max_seq as int
    }

    pub closed spec fn capturing(&self) -> bool {
        self.capture_attention
    }

    /// The captured attention weights.
    pub closed spec fn captured(&self) -> Seq<T> {
        self.attn@
    }

    /// The scores of the current head.
    pub closed spec fn scores_view(&self) -> Seq<T> {
        self.att@
    }

    /// The current row of exact weights.
    pub closed spec fn exact_row_view(&self) -> Seq<T> {
        self.row@
    }

    /// A quantised activation vector.
    pub closed spec fn act_view(&self, a: Act) -> ActivationView {
        match a {
            Act::Token => self.act@,
            Act::Batch(i) => self.batch.acts@[i as int]@,
        }
    }

    /// The contents of a row.
    pub open spec fn row_data(&self, r: Row) -> Seq<T> {
        let w = r.buffer.width(self.widths());
        self.data(r.buffer).subrange(r.index * w, (r.index + 1) * w)
    }

    /// Every buffer has its rows, and the vectors to be quantised fit.
    pub closed spec fn wf(&self) -> bool {
        &&& forall|b: Buffer|
            (#[trigger] self.data(b)).len() == b.rows() * b.width(self.widths)
        &&& self.att@.len() == self.max_seq
        &&& self.row@.len() == longest_row(self.widths)
        &&& self.attn@.len() == self.n_layers * self.n_heads * self.max_seq
        &&& widest(self.widths) % 32 == 0
        &&& has_room(self.act@, widest(self.widths))
        &&& self.batch.acts@.len() == PREFILL_CHUNK
        &&& forall|i: int|
            0 <= i < PREFILL_CHUNK ==> has_room(
                (#[trigger] self.batch.acts@[i])@,
                widest(self.widths),
            )
        &&& self.batch.unpacked@.quants.len() == widest(self.widths)
        &&& self.batch.unpacked@.scales.len() == widest(self.widths) / 16 + 1
        &&& self.batch.unpacked@.mins.len() == widest(self.widths) / 16 + 1
    }

    /// A quantised vector that a plan can name.
    pub open spec fn has_act(a: Act) -> bool {
        match a {
            Act::Token => true,
            Act::Batch(i) => i < PREFILL_CHUNK,
        }
    }
}

impl<T: Copy> Workspace<T> {
    /// Buffers of zeros for a model and a maximum sequence length.
    pub fn new(config: &ModelConfig, max_seq: usize, zero: T) -> (r: Self)
        requires
            config.head_count * config.head_dim <= usize::MAX,
            config.head_count_kv * config.head_dim <= usize::MAX,
            config.block_count * config.head_count <= usize::MAX,
            config.block_count * config.head_count * max_seq <= usize::MAX,
            batch_numbers(Widths::spec_of(*config)) <= usize::MAX,
            widest(Widths::spec_of(*config)) < usize::MAX,
            widest(Widths::spec_of(*config)) % 32 == 0,
        ensures
            r.wf(),
            r.widths() == Widths::spec_of(*config),
            r.spec_n_layers() == config.block_count,
            r.spec_n_heads() == config.head_count,
            r.spec_max_seq() == max_seq,
            !r.capturing(),
            r.captured() == Seq::new(
                (config.block_count * config.head_count * max_seq) as nat,
                |i: int| zero,
            ),
            r.scores_view() == Seq::new(max_seq as nat, |i: int| zero),
            r.exact_row_view() == Seq::new(
                longest_row(Widths::spec_of(*config)) as nat,
                |i: int| zero,
            ),
            forall|a: Act|
                Self::has_act(a) ==> blank(
                    #[trigger] r.act_view(a),
                    widest(Widths::spec_of(*config)),
                ),
            forall|b: Buffer, i: int|
                #![trigger r.data(b)[i]]
                0 <= i < r.data(b).len() ==> r.data(b)[i] == zero,
    {
        let w = Widths::of(config);
        let n: usize = widest_of(&w);
        let longest: usize = if w.d >= w.ff {
            w.d
        } else {
            w.ff
        };
        let t: usize = PREFILL_CHUNK;
        let mut acts: Vec<ActivationQ8> = Vec::with_capacity(t);
        let mut i: usize = 0;
        while i < t
            invariant
                i <= t == PREFILL_CHUNK,
                n % 32 == 0,
                acts@.len() == i,
                forall|j: int|
                    0 <= j < i ==> has_room((#[trigger] acts@[j])@, n as int) && blank(
                        acts@[j]@,
                        n as int,
                    ),
            decreases t - i,
        {
            acts.push(ActivationQ8::new(n));
            i += 1;
        }
        let batch = PrefillBatch {
            xs: filled(zero, t * w.d),
            xb: filled(zero, t * w.d),
            q: filled(zero, t * w.q_dim),
            k: filled(zero, t * w.kv_dim),
            v: filled(zero, t * w.kv_dim),
            attn_out: filled(zero, t * w.q_dim),
            gate: filled(zero, t * w.ff),
            up: filled(zero, t * w.ff),
            down: filled(zero, t * w.d),
            acts,
            unpacked: UnpackedRow::new(n),
        };
        let r = Workspace {
            x: filled(zero, w.d),
            xb: filled(zero, w.d),
            xb2: filled(zero, w.d),
            q: filled(zero, w.q_dim),
            k: filled(zero, w.kv_dim),
            v: filled(zero, w.kv_dim),
            attn_out: filled(zero, w.q_dim),
            gate: filled(zero, w.ff),
            up: filled(zero, w.ff),
            logits: filled(zero, w.vocab),
            att: filled(zero, max_seq),
            row: filled(zero, longest),
            attn: filled(zero, config.block_count * config.head_count * max_seq),
            capture_attention: false,
            n_layers: config.block_count,
            n_heads: config.head_count,
            max_seq,
            widths: w,
            batch,
            act: ActivationQ8::new(n),
        };
        proof {
            assert forall|b: Buffer| (#[trigger] r.data(b)).len() == b.rows() * b.width(
                r.widths,
            ) by {
                match b {
                    Buffer::X => {},
                    Buffer::Xb => {},
                    Buffer::Xb2 => {},
                    Buffer::Q => {},
                    Buffer::K => {},
                    Buffer::V => {},
                    Buffer::AttnOut => {},
                    Buffer::Gate => {},
                    Buffer::Up => {},
                    Buffer::Logits => {},
                    Buffer::BatchX => {},
                    Buffer::BatchXb => {},
                    Buffer::BatchQ => {},
                    Buffer::BatchK => {},
                    Buffer::BatchV => {},
                    Buffer::BatchAttnOut => {},
                    Buffer::BatchGate => {},
                    Buffer::BatchUp => {},
                    Buffer::BatchDown => {},
                }
            }
        }
        r
    }

    /// One row of a buffer.
    pub fn row(&self, r: Row) -> (s: &[T])
        requires
            self.wf(),
            r.index < r.buffer.rows(),
        ensures
            s@ == self.row_data(r),
            s@.len() == r.buffer.width(self.widths()),
    {
        let w: usize = r.buffer.row_width(&self.widths);
        let buf: &Vec<T> = match r.buffer {
            Buffer::X => &self.x,
            Buffer::Xb => &self.xb,
            Buffer::Xb2 => &self.xb2,
            Buffer::Q => &self.q,
            Buffer::K => &self.k,
            Buffer::V => &self.v,
            Buffer::AttnOut => &self.attn_out,
            Buffer::Gate => &self.gate,
            Buffer::Up => &self.up,
            Buffer::Logits => &self.logits,
            Buffer::BatchX => &self.batch.xs,
            Buffer::BatchXb => &self.batch.xb,
            Buffer::BatchQ => &self.batch.q,
            Buffer::BatchK => &self.batch.k,
            Buffer::BatchV => &self.batch.v,
            Buffer::BatchAttnOut => &self.batch.attn_out,
            Buffer::BatchGate => &self.batch.gate,
            Buffer::BatchUp => &self.batch.up,
            Buffer::BatchDown => &self.batch.down,
        };
        let total: usize = buf.len();
        proof {
            assert(self.data(r.buffer) == buf@);
            lemma_row_inside(r.index as int, r.buffer.rows(), w as int);
        }
        let start: usize = r.index * w;
        vstd::slice::slice_subrange(buf.as_slice(), start, start + w)
    }

    /// Overwrite one row of a buffer.
    pub fn set_row(&mut self, r: Row, values: &[T])
        requires
            old(self).wf(),
            r.index < r.buffer.rows(),
            values@.len() == r.buffer.width(old(self).widths()),
        ensures
            final(self).wf(),
            final(self).same_sizes(old(self)),
            final(self).captured() == old(self).captured(),
            final(self).scores_view() == old(self).scores_view(),
            final(self).exact_row_view() == old(self).exact_row_view(),
            forall|b: Buffer|
                b != r.buffer ==> #[trigger] final(self).data(b) == old(self).data(b),
            ({
                let w = r.buffer.width(old(self).widths());
                forall|i: int|
                    0 <= i < old(self).data(r.buffer).len() ==> #[trigger] final(self).data(
                        r.buffer,
                    )[i] == if r.index * w <= i < (r.index + 1) * w {
                        values@[i - r.index * w]
                    } else {
                        old(self).data(r.buffer)[i]
                    }
            }),
            forall|a: Act| #[trigger] final(self).act_view(a) == old(self).act_view(a),
    {
        let w: usize = r.buffer.row_width(&self.widths);
        let ghost total = self.data(r.buffer).len();
        let len: usize = self.buffer_len(r.buffer);
        proof {
            lemma_row_inside(r.index as int, r.buffer.rows(), w as int);
        }
        let start: usize = r.index * w;
        match r.buffer {
            Buffer::X => overwrite(&mut self.x, start, values, 0, w),
            Buffer::Xb => overwrite(&mut self.xb, start, values, 0, w),
            Buffer::Xb2 => overwrite(&mut self.xb2, start, values, 0, w),
            Buffer::Q => overwrite(&mut self.q, start, values, 0, w),
            Buffer::K => overwrite(&mut self.k, start, values, 0, w),
            Buffer::V => overwrite(&mut self.v, start, values, 0, w),
            Buffer::AttnOut => overwrite(&mut self.attn_out, start, values, 0, w),
            Buffer::Gate => overwrite(&mut self.gate, start, values, 0, w),
            Buffer::Up => overwrite(&mut self.up, start, values, 0, w),
            Buffer::Logits => overwrite(&mut self.logits, start, values, 0, w),
            Buffer::BatchX => overwrite(&mut self.batch.xs, start, values, 0, w),
            Buffer::BatchXb => overwrite(&mut self.batch.xb, start, values, 0, w),
            Buffer::BatchQ => overwrite(&mut self.batch.q, start, values, 0, w),
            Buffer::BatchK => overwrite(&mut self.batch.k, start, values, 0, w),
            Buffer::BatchV => overwrite(&mut self.batch.v, start, values, 0, w),
            Buffer::BatchAttnOut => overwrite(&mut self.batch.attn_out, start, values, 0, w),
            Buffer::BatchGate => overwrite(&mut self.batch.gate, start, values, 0, w),
            Buffer::BatchUp => overwrite(&mut self.batch.up, start, values, 0, w),
            Buffer::BatchDown => overwrite(&mut self.batch.down, start, values, 0, w),
        }
        proof {
            assert forall|b: Buffer| (#[trigger] self.data(b)).len() == b.rows() * b.width(
                self.widths,
            ) by {
                assert(old(self).data(b).len() == b.rows() * b.width(self.widths));
            }
        }
    }

    fn buffer_len(&self, b: Buffer) -> (r: usize)
        ensures
            r == self.data(b).len(),
    {
        match b {
            Buffer::X => self.x.len(),
            Buffer::Xb => self.xb.len(),
            Buffer::Xb2 => self.xb2.len(),
            Buffer::Q => self.q.len(),
            Buffer::K => self.k.len(),
            Buffer::V => self.v.len(),
            Buffer::AttnOut => self.attn_out.len(),
            Buffer::Gate => self.gate.len(),
            Buffer::Up => self.up.len(),
            Buffer::Logits => self.logits.len(),
            Buffer::BatchX => self.batch.xs.len(),
            Buffer::BatchXb => self.batch.xb.len(),
            Buffer::BatchQ => self.batch.q.len(),
            Buffer::BatchK => self.batch.k.len(),
            Buffer::BatchV => self.batch.v.len(),
            Buffer::BatchAttnOut => self.batch.attn_out.len(),
            Buffer::BatchGate => self.batch.gate.len(),
            Buffer::BatchUp => self.batch.up.len(),
            Buffer::BatchDown => self.batch.down.len(),
        }
    }

    /// A quantised activation vector.
    pub fn act(&self, a: Act) -> (r: &ActivationQ8)
        requires
            self.wf(),
            Self::has_act(a),
        ensures
            r@ == self.act_view(a),
            has_room(r@, widest(self.widths())),
    {
        match a {
            Act::Token => &self.act,
            Act::Batch(i) => &self.batch.acts[i],
        }
    }

    /// Take over a vector's quants and the scales of their blocks.
    pub fn quantize(&mut self, a: Act, scales: &[F32Bits], quants: &[i8])
        requires
            old(self).wf(),
            Self::has_act(a),
            quants@.len() <= widest(old(self).widths()),
            quants@.len() == 32 * scales@.len(),
        ensures
            final(self).wf(),
            final(self).same_sizes(old(self)),
            final(self).captured() == old(self).captured(),
            final(self).scores_view() == old(self).scores_view(),
            final(self).exact_row_view() == old(self).exact_row_view(),
            forall|b: Buffer| #[trigger] final(self).data(b) == old(self).data(b),
            forall|x: Act|
                Self::has_act(x) && x != a ==> #[trigger] final(self).act_view(x) == old(
                    self,
                ).act_view(x),
            final(self).act_view(a).len == quants@.len(),
            final(self).act_view(a).quants == quants@ + old(self).act_view(a).quants.skip(
                quants@.len() as int,
            ),
            final(self).act_view(a).scales == scales@ + old(self).act_view(a).scales.skip(
                scales@.len() as int,
            ),
    {
        match a {
            Act::Token => {
                self.act.quantize(scales, quants);
            },
            Act::Batch(i) => {
                self.batch.acts[i].quantize(scales, quants);
            },
        }
        proof {
            assert forall|b: Buffer| #[trigger] self.data(b) == old(self).data(b) by {
                assert(old(self).data(b).len() == b.rows() * b.width(self.widths));
            }
        }
    }

    /// Output `row` of a matrix times a quantised vector.
    pub fn project_row(&self, w: &QuantMatrix<'_>, a: Act, row: usize) -> (r: Result<
        Vec<DotTerm>,
        QuantError,
    >)
        requires
            self.wf(),
            Self::has_act(a),
            self.act_view(a).len == w@.cols,
            row < w@.rows,
        ensures
            match r {
                Ok(v) => blocks::is_block_format(w@.ty) && v@ == vecdot::row_terms(
                    w@.ty,
                    matmul::row_of(w@, row as int),
                    self.act_view(a),
                ),
                Err(e) => !blocks::is_block_format(w@.ty) && e == QuantError::UnsupportedType(
                    w@.ty,
                ),
            },
    {
        matvec_fused(w, self.act(a), row)
    }

    /// Output `row` of a matrix times the first `count` quantised vectors of a chunk.
    pub fn project_batch_row(&mut self, w: &QuantMatrix<'_>, count: usize, row: usize) -> (r: Result<
        Vec<Vec<DotTerm>>,
        QuantError,
    >)
        requires
            old(self).wf(),
            count <= PREFILL_CHUNK,
            w@.cols <= widest(old(self).widths()),
            forall|i: int|
                0 <= i < count ==> (#[trigger] old(self).act_view(Act::Batch(i as usize))).len
                    == w@.cols,
            row < w@.rows,
        ensures
            final(self).wf(),
            final(self).same_sizes(old(self)),
            final(self).captured() == old(self).captured(),
            final(self).scores_view() == old(self).scores_view(),
            final(self).exact_row_view() == old(self).exact_row_view(),
            forall|b: Buffer| #[trigger] final(self).data(b) == old(self).data(b),
            forall|a: Act| #[trigger] final(self).act_view(a) == old(self).act_view(a),
            match r {
                Ok(v) => blocks::is_block_format(w@.ty) && v@.len() == count && forall|i: int|
                    0 <= i < count ==> (#[trigger] v@[i])@ == vecdot::row_terms(
                        w@.ty,
                        matmul::row_of(w@, row as int),
                        old(self).act_view(Act::Batch(i as usize)),
                    ),
                Err(e) => !blocks::is_block_format(w@.ty) && e == QuantError::UnsupportedType(
                    w@.ty,
                ),
            },
    {
        let acts = vstd::slice::slice_subrange(self.batch.acts.as_slice(), 0, count);
        proof {
            assert forall|i: int| 0 <= i < count implies (#[trigger] acts@[i])@ == self.act_view(
                Act::Batch(i as usize),
            ) && acts@[i]@.wf() && acts@[i]@.len == w@.cols by {
                assert(acts@[i] == self.batch.acts@[i]);
                assert(self.act_view(Act::Batch(i as usize)).len == w@.cols);
                assert(has_room(self.batch.acts@[i]@, widest(self.widths)));
            }
        }
        let r = matmul_fused(w, acts, row, &mut self.batch.unpacked);
        proof {
            assert forall|b: Buffer| #[trigger] self.data(b) == old(self).data(b) by {
                assert(old(self).data(b).len() == b.rows() * b.width(self.widths));
            }
        }
        r
    }

    /// The scores of the current head over the first `n` positions.
    pub fn scores(&self, n: usize) -> (r: &[T])
        requires
            self.wf(),
            n <= self.spec_max_seq(),
        ensures
            r@ == self.scores_view().take(n as int),
    {
        vstd::slice::slice_subrange(self.att.as_slice(), 0, n)
    }

    /// Keep the scores of the current head.
    pub fn set_scores(&mut self, values: &[T])
        requires
            old(self).wf(),
            values@.len() <= old(self).spec_max_seq(),
        ensures
            final(self).wf(),
            final(self).same_sizes(old(self)),
            final(self).scores_view() == values@ + old(self).scores_view().skip(
                values@.len() as int,
            ),
            final(self).exact_row_view() == old(self).exact_row_view(),
            final(self).captured() == old(self).captured(),
            forall|b: Buffer| #[trigger] final(self).data(b) == old(self).data(b),
            forall|a: Act| #[trigger] final(self).act_view(a) == old(self).act_view(a),
    {
        let n: usize = values.len();
        overwrite(&mut self.att, 0, values, 0, n);
        proof {
            assert(self.att@ =~= values@ + old(self).att@.skip(n as int));
            assert forall|b: Buffer| #[trigger] self.data(b) == old(self).data(b) by {
                assert(old(self).data(b).len() == b.rows() * b.width(self.widths));
            }
        }
    }

    /// The first `n` numbers of the current row of exact weights.
    pub fn exact_row(&self, n: usize) -> (r: &[T])
        requires
            self.wf(),
            n <= longest_row(self.widths()),
        ensures
            r@ == self.exact_row_view().take(n as int),
    {
        vstd::slice::slice_subrange(self.row.as_slice(), 0, n)
    }

    /// Keep a row of exact weights.
    pub fn set_exact_row(&mut self, values: &[T])
        requires
            old(self).wf(),
            values@.len() <= longest_row(old(self).widths()),
        ensures
            final(self).wf(),
            final(self).same_sizes(old(self)),
            final(self).exact_row_view() == values@ + old(self).exact_row_view().skip(
                values@.len() as int,
            ),
            final(self).scores_view() == old(self).scores_view(),
            final(self).captured() == old(self).captured(),
            forall|b: Buffer| #[trigger] final(self).data(b) == old(self).data(b),
            forall|a: Act| #[trigger] final(self).act_view(a) == old(self).act_view(a),
    {
        let n: usize = values.len();
        overwrite(&mut self.row, 0, values, 0, n);
        proof {
            assert(self.row@ =~= values@ + old(self).row@.skip(n as int));
            assert forall|b: Buffer| #[trigger] self.data(b) == old(self).data(b) by {
                assert(old(self).data(b).len() == b.rows() * b.width(self.widths));
            }
        }
    }

    /// Record attention weights for every layer and head, or do not.
    pub fn set_capture_attention(&mut self, on: bool)
        requires
            old(self).wf(),
        ensures
            final(self).wf(),
            final(self).capturing() == on,
            final(self).widths() == old(self).widths(),
            final(self).spec_n_layers() == old(self).spec_n_layers(),
            final(self).spec_n_heads() == old(self).spec_n_heads(),
            final(self).spec_max_seq() == old(self).spec_max_seq(),
            final(self).captured() == old(self).captured(),
            final(self).scores_view() == old(self).scores_view(),
            final(self).exact_row_view() == old(self).exact_row_view(),
            forall|b: Buffer| #[trigger] final(self).data(b) == old(self).data(b),
            forall|a: Act| #[trigger] final(self).act_view(a) == old(self).act_view(a),
    {
        self.capture_attention = on;
        proof {
            assert forall|b: Buffer| #[trigger] self.data(b) == old(self).data(b) by {
                assert(old(self).data(b).len() == b.rows() * b.width(self.widths));
            }
        }
    }

    pub fn captures_attention(&self) -> (r: bool)
        ensures
            r == self.capturing(),
    {
        self.capture_attention
    }

    /// Where a head's attention weights start.
    pub open spec fn attention_start(&self, layer: int, head: int) -> int {
        (layer * self.spec_n_heads() + head) * self.spec_max_seq()
    }

    /// Keep a head's attention weights over the first positions.
    pub fn capture(&mut self, layer: usize, head: usize, weights: &[T])
        requires
            old(self).wf(),
            layer < old(self).spec_n_layers(),
            head < old(self).spec_n_heads(),
            weights@.len() <= old(self).spec_max_seq(),
        ensures
            final(self).wf(),
            final(self).same_sizes(old(self)),
            final(self).scores_view() == old(self).scores_view(),
            final(self).exact_row_view() == old(self).exact_row_view(),
            forall|b: Buffer| #[trigger] final(self).data(b) == old(self).data(b),
            forall|a: Act| #[trigger] final(self).act_view(a) == old(self).act_view(a),
            final(self).captured().len() == old(self).captured().len(),
            ({
                let start = old(self).attention_start(layer as int, head as int);
                forall|i: int|
                    0 <= i < old(self).captured().len() ==> #[trigger] final(self).captured()[i]
                        == if start <= i < start + weights@.len() {
                        weights@[i - start]
                    } else {
                        old(self).captured()[i]
                    }
            }),
    {
        let base: usize = self.attention_base(layer, head);
        let n: usize = weights.len();
        overwrite(&mut self.attn, base, weights, 0, n);
        proof {
            assert forall|b: Buffer| #[trigger] self.data(b) == old(self).data(b) by {
                assert(old(self).data(b).len() == b.rows() * b.width(self.widths));
            }
        }
    }

    fn attention_base(&self, layer: usize, head: usize) -> (r: usize)
        requires
            self.wf(),
            layer < self.spec_n_layers(),
            head < self.spec_n_heads(),
        ensures
            r == self.attention_start(layer as int, head as int),
            r + self.spec_max_seq() <= self.captured().len(),
            self.captured().len() <= usize::MAX,
    {
        let total: usize = self.attn.len();
        proof {
            let h = self.n_heads as int;
            let s = self.max_seq as int;
            let k = layer * h + head;
            assert(0 <= layer * h && 0 <= k < self.n_layers * h) by (nonlinear_arith)
                requires
                    layer < self.n_layers,
                    head < h,
                    k == layer * h + head,
            ;
            assert(0 <= k * s && k * s + s <= self.n_layers * h * s) by (nonlinear_arith)
                requires
                    0 <= k < self.n_layers * h,
                    s >= 0,
            ;
            if s > 0 {
                assert(k <= k * s) by (nonlinear_arith)
                    requires
                        0 <= k,
                        s > 0,
                ;
            } else {
                assert(k * s == 0) by (nonlinear_arith)
                    requires
                        s == 0,
                ;
            }
        }
        if self.max_seq == 0 {
            0
        } else {
            (layer * self.n_heads + head) * self.max_seq
        }
    }

    /// One head's attention weights over the first `len` positions.
    pub fn attention(&self, layer: usize, head: usize, len: usize) -> (r: &[T])
        requires
            self.wf(),
            layer < self.spec_n_layers(),
            head < self.spec_n_heads(),
        ensures
            ({
                let start = self.attention_start(layer as int, head as int);
                let n = if len <= self.spec_max_seq() {
                    len as int
                } else {
                    self.spec_max_seq()
                };
                r@ == self.captured().subrange(start, start + n)
            }),
    {
        let base: usize = self.attention_base(layer, head);
        let n: usize = if len <= self.max_seq {
            len
        } else {
            self.max_seq
        };
        vstd::slice::slice_subrange(self.attn.as_slice(), base, base + n)
    }

    /// The whole `[layer][head][position]` block.
    pub fn attention_all(&self) -> (r: &[T])
        ensures
            r@ == self.captured(),
    {
        self.attn.as_slice()
    }

    /// The current logits.
    pub fn logits(&self) -> (r: &[T])
        ensures
            r@ == self.data(Buffer::Logits),
    {
        self.logits.as_slice()
    }

    /// A copy of the current logits.
    pub fn logits_vec(&self) -> (r: Vec<T>)
        ensures
            r@ == self.data(Buffer::Logits),
    {
        let mut v: Vec<T> = Vec::with_capacity(self.logits.len());
        let mut i: usize = 0;
        while i < self.logits.len()
            invariant
                i <= self.logits@.len(),
                v@ == self.logits@.take(i as int),
            decreases self.logits.len() - i,
        {
            v.push(self.logits[i]);
            i += 1;
            assert(v@ =~= self.logits@.take(i as int));
        }
        assert(v@ =~= self.logits@);
        v
    }

    /// Bytes held.
    pub fn byte_len(&self) -> (r: usize)
        requires
            self.wf(),
            workspace_bytes(
                self.widths(),
                self.spec_n_layers(),
                self.spec_n_heads(),
                self.spec_max_seq(),
            ) <= usize::MAX,
        ensures
            r == workspace_bytes(
                self.widths(),
                self.spec_n_layers(),
                self.spec_n_heads(),
                self.spec_max_seq(),
            ),
    {
        let ghost n = widest(self.widths);
        let token: usize = self.token_len();
        let batch: usize = self.batch_len();
        let acts: usize = self.acts_len();
        assert((1 + PREFILL_CHUNK) * act_bytes(n) == act_bytes(n) + PREFILL_CHUNK * act_bytes(n))
            by (nonlinear_arith);
        token * 4 + self.act.byte_len() + (batch * 4 + acts + self.batch.unpacked.byte_len())
    }

    fn token_len(&self) -> (r: usize)
        requires
            self.wf(),
            token_numbers(
                self.widths(),
                self.spec_n_layers(),
                self.spec_n_heads(),
                self.spec_max_seq(),
            ) <= usize::MAX,
        ensures
            r == token_numbers(
                self.widths(),
                self.spec_n_layers(),
                self.spec_n_heads(),
                self.spec_max_seq(),
            ),
    {
        let ghost w = self.widths;
        proof {
            assert(self.data(Buffer::X).len() == w.d);
            assert(self.data(Buffer::Xb).len() == w.d);
            assert(self.data(Buffer::Xb2).len() == w.d);
            assert(self.data(Buffer::Q).len() == w.q_dim);
            assert(self.data(Buffer::K).len() == w.kv_dim);
            assert(self.data(Buffer::V).len() == w.kv_dim);
            assert(self.data(Buffer::AttnOut).len() == w.q_dim);
            assert(self.data(Buffer::Gate).len() == w.ff);
            assert(self.data(Buffer::Up).len() == w.ff);
            assert(self.data(Buffer::Logits).len() == w.vocab);
        }
        self.x.len() + self.xb.len() + self.xb2.len() + self.q.len() + self.k.len()
            + self.v.len() + self.att.len() + self.attn_out.len() + self.gate.len()
            + self.up.len() + self.row.len() + self.attn.len() + self.logits.len()
    }

    fn batch_len(&self) -> (r: usize)
        requires
            self.wf(),
            batch_numbers(self.widths()) <= usize::MAX,
        ensures
            r == batch_numbers(self.widths()),
    {
        let ghost w = self.widths;
        proof {
            assert(self.data(Buffer::BatchX).len() == PREFILL_CHUNK * w.d);
            assert(self.data(Buffer::BatchXb).len() == PREFILL_CHUNK * w.d);
            assert(self.data(Buffer::BatchQ).len() == PREFILL_CHUNK * w.q_dim);
            assert(self.data(Buffer::BatchK).len() == PREFILL_CHUNK * w.kv_dim);
            assert(self.data(Buffer::BatchV).len() == PREFILL_CHUNK * w.kv_dim);
            assert(self.data(Buffer::BatchAttnOut).len() == PREFILL_CHUNK * w.q_dim);
            assert(self.data(Buffer::BatchGate).len() == PREFILL_CHUNK * w.ff);
            assert(self.data(Buffer::BatchUp).len() == PREFILL_CHUNK * w.ff);
            assert(self.data(Buffer::BatchDown).len() == PREFILL_CHUNK * w.d);
        }
        let b = &self.batch;
        b.xs.len() + b.xb.len() + b.q.len() + b.k.len() + b.v.len() + b.attn_out.len()
            + b.gate.len() + b.up.len() + b.down.len()
    }

    fn acts_len(&self) -> (r: usize)
        requires
            self.wf(),
            PREFILL_CHUNK * act_bytes(widest(self.widths())) <= usize::MAX,
        ensures
            r == PREFILL_CHUNK * act_bytes(widest(self.widths())),
    {
        let ghost n = widest(self.widths);
        let mut acts: usize = 0;
        let mut i: usize = 0;
        while i < self.batch.acts.len()
            invariant
                self.wf(),
                n == widest(self.widths),
                0 <= act_bytes(n),
                PREFILL_CHUNK * act_bytes(n) <= usize::MAX,
                i <= PREFILL_CHUNK,
                self.batch.acts@.len() == PREFILL_CHUNK,
                acts == i * act_bytes(n),
            decreases self.batch.acts.len() - i,
        {
            proof {
                assert(has_room(self.batch.acts@[i as int]@, n));
                let one = act_bytes(n);
                assert((i + 1) * one == i * one + one && (i + 1) * one <= PREFILL_CHUNK * one)
                    by (nonlinear_arith)
                    requires
                        0 <= one,
                        0 <= i < PREFILL_CHUNK,
                ;
            }
            acts = acts + self.batch.acts[i].byte_len();
            i += 1;
        }
        acts
    }

    pub open spec fn same_sizes(&self, other: &Self) -> bool {
        &&& self.widths() == other.widths()
        &&& self.spec_n_layers() == other.spec_n_layers()
        &&& self.spec_n_heads() == other.spec_n_heads()
        &&& self.spec_max_seq() == other.spec_max_seq()
        &&& self.capturing() == other.capturing()
    }
}

/// A row lies inside its buffer.
proof fn lemma_row_inside(i: int, rows: int, w: int)
    requires
        0 <= i < rows,
        w >= 0,
    ensures
        0 <= i * w,
        (i + 1) * w == i * w + w,
        i * w + w <= rows * w,
{
    assert(0 <= i * w && (i + 1) * w == i * w + w && i * w + w <= rows * w) by (nonlinear_arith)
        requires
            0 <= i < rows,
            w >= 0,
    ;
}

} // verus!
