//! Plans stay inside the buffers, the layers and the cache.
use super::plan;
use super::plan::{Act, BiasId, MatrixId, NormId, Row, Step, Widths, PREFILL_CHUNK};
use crate::gguf::ModelConfig;
use vstd::prelude::*;

verus! {

/// The rows and columns of a matrix.
pub open spec fn matrix_shape(m: MatrixId, w: Widths) -> (int, int) {
    let d = w.d as int;
    let ff = w.ff as int;
    match m {
        MatrixId::AttnQ(_) => (w.q_dim as int, d),
        MatrixId::AttnK(_) => (w.kv_dim as int, d),
        MatrixId::AttnV(_) => (w.kv_dim as int, d),
        MatrixId::AttnOutput(_) => (d, w.q_dim as int),
        MatrixId::FfnGate(_) => (ff, d),
        MatrixId::FfnUp(_) => (ff, d),
        MatrixId::FfnDown(_) => (d, ff),
        MatrixId::Unembedding => (w.vocab as int, d),
    }
}

/// A model with sizes that can be counted, and a cache for `max_seq` positions.
pub struct Bounds {
    pub c: ModelConfig,
    /// How many layers the model has.
    pub layers: nat,
    pub max_seq: int,
}

impl Bounds {
    pub open spec fn widths(self) -> Widths {
        Widths::spec_of(self.c)
    }

    pub open spec fn layer(self, l: usize) -> bool {
        l < self.layers
    }

    pub open spec fn matrix(self, m: MatrixId) -> bool {
        match m {
            MatrixId::AttnQ(l) => self.layer(l),
            MatrixId::AttnK(l) => self.layer(l),
            MatrixId::AttnV(l) => self.layer(l),
            MatrixId::AttnOutput(l) => self.layer(l),
            MatrixId::FfnGate(l) => self.layer(l),
            MatrixId::FfnUp(l) => self.layer(l),
            MatrixId::FfnDown(l) => self.layer(l),
            MatrixId::Unembedding => true,
        }
    }

    pub open spec fn norm(self, n: NormId) -> bool {
        match n {
            NormId::Attn(l) => self.layer(l),
            NormId::Ffn(l) => self.layer(l),
            NormId::Output => true,
        }
    }

    /// A row of a buffer, of a given length.
    pub open spec fn row(self, r: Row, width: int) -> bool {
        r.index < r.buffer.rows() && r.buffer.width(self.widths()) == width
    }

    pub open spec fn act(self, a: Act) -> bool {
        match a {
            Act::Token => true,
            Act::Batch(i) => i < PREFILL_CHUNK,
        }
    }

    /// A step names rows, layers and positions that exist, and the lengths of its vectors
    /// and matrices agree.
    pub open spec fn step(self, s: Step) -> bool {
        let w = self.widths();
        let d = w.d as int;
        let q_dim = w.q_dim as int;
        let kv_dim = w.kv_dim as int;
        match s {
            Step::StartTimer => true,
            Step::Mark(_) => true,
            Step::Record { name, from } => self.row(from, from.buffer.width(w)),
            Step::Embed { token, to } => self.row(to, d),
            Step::Norm { norm, from, to } => self.norm(norm) && self.row(from, d) && self.row(
                to,
                d,
            ),
            Step::Quantize { from, act } => self.row(from, from.buffer.width(w)) && self.act(act),
            Step::Project { matrix, from, act, to } => {
                &&& self.matrix(matrix)
                &&& self.row(from, matrix_shape(matrix, w).1)
                &&& self.act(act)
                &&& self.row(to, matrix_shape(matrix, w).0)
            },
            Step::ProjectBatch { matrix, count, to } => {
                &&& self.matrix(matrix)
                &&& count <= to.rows()
                &&& to.rows() == PREFILL_CHUNK
                &&& to.width(w) == matrix_shape(matrix, w).0
            },
            Step::AddBias { bias, to } => match bias {
                BiasId::Q(l) => self.layer(l) && self.row(to, q_dim),
                BiasId::K(l) => self.layer(l) && self.row(to, kv_dim),
                BiasId::V(l) => self.layer(l) && self.row(to, kv_dim),
            },
            Step::Rotate { row, n_heads, pos } => self.row(row, n_heads * self.c.head_dim) && pos
                < self.max_seq,
            Step::Store { layer, pos, k, v } => {
                &&& self.layer(layer)
                &&& pos < self.max_seq
                &&& self.row(k, kv_dim)
                &&& self.row(v, kv_dim)
            },
            Step::Attend { layer, pos, q, to } => {
                &&& self.layer(layer)
                &&& pos < self.max_seq
                &&& self.row(q, q_dim)
                &&& self.row(to, q_dim)
            },
            Step::Advance { len } => len <= self.max_seq,
            Step::Add { to, from } => self.row(to, d) && self.row(from, d),
            Step::Swiglu { gate, up } => self.row(gate, w.ff as int) && self.row(up, w.ff as int),
            Step::Copy { from, to } => self.row(from, d) && self.row(to, d),
        }
    }

    pub open spec fn steps(self, s: Seq<Step>) -> bool {
        forall|i: int| 0 <= i < s.len() ==> self.step(#[trigger] s[i])
    }

    /// The widths of the projections can be counted, and the cache has as many layers as
    /// the model.
    pub open spec fn countable(self) -> bool {
        &&& self.layers <= self.c.block_count
        &&& self.c.head_count * self.c.head_dim <= usize::MAX
        &&& self.c.head_count_kv * self.c.head_dim <= usize::MAX
        &&& self.max_seq <= usize::MAX
    }

    proof fn lemma_each(self, n: nat, f: spec_fn(int) -> Seq<Step>)
        requires
            forall|i: int| 0 <= i < n ==> self.steps(#[trigger] f(i)),
        ensures
            self.steps(plan::each(n, f)),
        decreases n,
    {
        if n > 0 {
            self.lemma_each((n - 1) as nat, f);
            assert(self.steps(f(n - 1)));
        }
    }

    proof fn lemma_token_layer(self, li: int, pos: int, trace: bool)
        requires
            self.countable(),
            0 <= li < self.layers,
            0 <= pos < self.max_seq,
        ensures
            self.steps(plan::token_layer(self.c, li, pos, trace)),
    {
        assert(self.steps(plan::token_attention(self.c, li, pos)));
        assert(self.steps(plan::token_ffn(li)));
    }

    proof fn lemma_chunk_layer(self, li: int, start: int, t: nat)
        requires
            self.countable(),
            0 <= li < self.layers,
            0 <= start,
            t <= PREFILL_CHUNK,
            start + t <= self.max_seq,
        ensures
            self.steps(plan::chunk_layer(self.c, li, start, t)),
    {
        let l = li as usize;
        self.lemma_each(t, plan::chunk_norms(NormId::Attn(l)));
        self.lemma_each(t, plan::chunk_rotates(self.c, li, start));
        self.lemma_each(t, plan::chunk_stores(li, start));
        self.lemma_each(t, plan::chunk_attends(li, start));
        self.lemma_each(t, plan::chunk_quantizes());
        self.lemma_each(t, plan::chunk_adds());
        self.lemma_each(t, plan::chunk_norms(NormId::Ffn(l)));
        self.lemma_each(t, plan::chunk_swiglus());
    }
}

/// The plan of a token at a position of the cache stays inside the buffers, the layers
/// and the cache, and the lengths of its vectors and matrices agree.
pub proof fn law_token_plans_stay_inside(b: Bounds, token: u32, pos: int, trace: bool)
    requires
        b.countable(),
        0 <= pos < b.max_seq,
    ensures
        b.steps(plan::token_steps(b.c, b.layers, token, pos, trace)),
{
    let f = plan::token_layers(b.c, pos, trace);
    assert forall|li: int| 0 <= li < b.layers implies b.steps(#[trigger] f(li)) by {
        b.lemma_token_layer(li, pos, trace);
    }
    b.lemma_each(b.layers, f);
    assert(b.steps(plan::token_start(token, trace)));
    assert(b.steps(plan::token_end(pos, trace)));
}

/// The plan of a chunk that fits the buffers and the cache stays inside both, and the
/// lengths of its vectors and matrices agree.
pub proof fn law_chunk_plans_stay_inside(b: Bounds, tokens: Seq<u32>, start: int, want_logits: bool)
    requires
        b.countable(),
        0 <= start,
        0 < tokens.len() <= PREFILL_CHUNK,
        start + tokens.len() <= b.max_seq,
    ensures
        b.steps(plan::chunk_steps(b.c, b.layers, tokens, start, want_logits)),
{
    let t = tokens.len();
    let f = plan::chunk_layers(b.c, start, t);
    assert forall|li: int| 0 <= li < b.layers implies b.steps(#[trigger] f(li)) by {
        b.lemma_chunk_layer(li, start, t);
    }
    b.lemma_each(b.layers, f);
    b.lemma_each(t, plan::chunk_embeds(tokens));
}

} // verus!
