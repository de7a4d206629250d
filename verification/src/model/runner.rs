//! A loaded model, and what to plan for a prompt.
use super::plan;
use super::plan::{Buffer, MatrixId, Step, PREFILL_CHUNK};
use super::weights::{LayerWeights, ModelWeights};
use super::workspace::Workspace;
use crate::bits::F32Bits;
use crate::gguf::{GgmlType, ModelConfig};
use crate::ops::rope::RopeTable;
use crate::sample::sampler;
use vstd::prelude::*;

verus! {

/// A piece of a prompt that is planned at once.
#[derive(Debug, Clone, Copy, PartialEq, Eq, Structural)]
pub enum Work {
    /// Token `index` of the prompt, at a position of the cache.
    Token { index: usize, pos: usize, trace: bool },
    /// Tokens `from..to` of the prompt, from a position of the cache on.
    Chunk { from: usize, to: usize, pos: usize, want_logits: bool },
}

/// A prompt of `n` tokens from a position on, token by token.  Only the last is traced.
pub open spec fn token_by_token(n: nat, start: int, trace: bool) -> Seq<Work> {
    Seq::new(
        n,
        |i: int|
            Work::Token {
                index: i as usize,
                pos: (start + i) as usize,
                trace: trace && i + 1 == n,
            },
    )
}

/// Token by token, every token is run once, in order, each at the position behind the one
/// before it; only the last is traced.
pub proof fn law_tokens_are_run_in_order(n: nat, start: int, trace: bool, i: int)
    requires
        0 <= start,
        start + n <= usize::MAX,
        0 <= i < n,
    ensures
        token_by_token(n, start, trace).len() == n,
        token_by_token(n, start, trace)[i] matches Work::Token { index, pos, trace: traced }
            && index == i && pos == start + i && traced == (trace && i == n - 1),
{
}

/// How many chunks a prompt of `n` tokens has.
pub open spec fn n_chunks(n: nat) -> nat {
    ((n + PREFILL_CHUNK - 1) / (PREFILL_CHUNK as int)) as nat
}

/// Chunk `ci` of a prompt.  Only the last gives logits.
pub open spec fn chunk_of(n: nat, start: int, ci: int) -> Work {
    let end = (ci + 1) * PREFILL_CHUNK;
    Work::Chunk {
        from: (ci * PREFILL_CHUNK) as usize,
        to: (if end <= n {
            end
        } else {
            n as int
        }) as usize,
        pos: (start + ci * PREFILL_CHUNK) as usize,
        want_logits: end >= n,
    }
}

/// A prompt of `n` tokens from a position on, chunk by chunk.
pub open spec fn chunk_by_chunk(n: nat, start: int) -> Seq<Work> {
    Seq::new(n_chunks(n), |ci: int| chunk_of(n, start, ci))
}

/// Chunks follow each other without a gap or an overlap, none is empty or longer than
/// the buffers, together they are the prompt, each stands at the position of its first
/// token, and exactly the last gives logits.
pub proof fn law_chunks_cover_the_prompt(n: nat, start: int, ci: int)
    requires
        n <= usize::MAX,
        0 <= start,
        start + n <= usize::MAX,
        0 <= ci < n_chunks(n),
    ensures
        ({
            let from = ci * PREFILL_CHUNK;
            let to = if ci + 1 < n_chunks(n) {
                (ci + 1) * PREFILL_CHUNK
            } else {
                n as int
            };
            &&& chunk_by_chunk(n, start)[ci] == (Work::Chunk {
                from: from as usize,
                to: to as usize,
                pos: (start + from) as usize,
                want_logits: ci + 1 == n_chunks(n),
            })
            &&& 0 <= from < to <= n
            &&& to - from <= PREFILL_CHUNK
            &&& from == 32 * ci
            &&& to == (if n < 32 * ci + 32 {
                n as int
            } else {
                32 * ci + 32
            })
        }),
{
}

/// Which query heads read which key/value head.
#[derive(Debug, Clone, Copy, PartialEq, Eq, Structural)]
pub struct HeadWork {
    pub kv_head: usize,
    /// Where the head's part of a query or output row starts.
    pub start: usize,
    /// Where it ends.
    pub end: usize,
}

/// The key/value head that a query head reads: consecutive heads share one.
pub open spec fn kv_head_of(c: ModelConfig, h: int) -> int {
    h / (c.head_count as int / c.head_count_kv as int)
}

/// Every key/value head serves the same number of consecutive query heads.
pub proof fn law_heads_share_evenly(c: ModelConfig, h: int, k: int)
    requires
        c.consistent(),
        0 <= h < c.head_count,
        0 <= k < c.head_count_kv,
    ensures
        ({
            let group = c.head_count as int / c.head_count_kv as int;
            &&& group > 0
            &&& group * c.head_count_kv == c.head_count
            &&& 0 <= kv_head_of(c, h) < c.head_count_kv
            &&& kv_head_of(c, h) == k <==> k * group <= h < (k + 1) * group
        }),
{
    let n = c.head_count as int;
    let kv = c.head_count_kv as int;
    let group = n / kv;
    vstd::arithmetic::div_mod::lemma_fundamental_div_mod(n, kv);
    assert(group > 0 && group * kv == n) by (nonlinear_arith)
        requires
            n == kv * group + n % kv,
            n % kv == 0,
            n > 0,
            kv > 0,
    ;
    vstd::arithmetic::div_mod::lemma_fundamental_div_mod(h, group);
    let q = h / group;
    assert(0 <= q < kv) by (nonlinear_arith)
        requires
            h == group * q + h % group,
            0 <= h % group < group,
            0 <= h < group * kv,
            group > 0,
    ;
    assert(q == k <==> k * group <= h < (k + 1) * group) by (nonlinear_arith)
        requires
            h == group * q + h % group,
            0 <= h % group < group,
    ;
}

/// Whether a projection runs on the quantised vector.
pub open spec fn fused_for(fused: bool, ty: GgmlType) -> bool {
    fused && ty != GgmlType::F32
}

/// Whether a projection runs on the quantised vector: where that is wanted, unless the
/// weights are exact.
pub fn uses_fused(fused: bool, ty: GgmlType) -> (r: bool)
    ensures
        r == fused_for(fused, ty),
{
    fused && ty != GgmlType::F32
}

/// Every projection of a layer runs on the quantised vector.
pub open spec fn layer_fused(fused: bool, l: LayerWeights<'_>) -> bool {
    forall|j: int| 0 <= j < l.types().len() ==> fused_for(fused, #[trigger] l.types()[j])
}

/// Whether every projection of a layer runs on the quantised vector.
fn fuses_layer(fused: bool, l: &LayerWeights<'_>) -> (r: bool)
    ensures
        r == layer_fused(fused, *l),
{
    let r = uses_fused(fused, l.attn_q.ggml_type()) && uses_fused(fused, l.attn_k.ggml_type())
        && uses_fused(fused, l.attn_v.ggml_type()) && uses_fused(
        fused,
        l.attn_output.ggml_type(),
    ) && uses_fused(fused, l.ffn_gate.ggml_type()) && uses_fused(fused, l.ffn_up.ggml_type())
        && uses_fused(fused, l.ffn_down.ggml_type());
    proof {
        let t = l.types();
        assert(t.len() == 7);
        if layer_fused(fused, *l) {
            assert(fused_for(fused, t[0]) && fused_for(fused, t[1]) && fused_for(fused, t[2]));
            assert(fused_for(fused, t[3]) && fused_for(fused, t[4]) && fused_for(fused, t[5]));
            assert(fused_for(fused, t[6]));
        }
    }
    r
}

/// How many components of a head are rotated.
pub open spec fn rotated(c: ModelConfig) -> usize {
    match c.rope_dimension_count {
        Some(n) => n,
        None => c.head_dim,
    }
}

/// How many components of a head are rotated: all of them, unless the configuration
/// says how many.
pub fn rope_dim_of(c: &ModelConfig) -> (r: usize)
    ensures
        r == rotated(*c),
        c.consistent() ==> r <= c.head_dim && r % 2 == 0,
{
    match c.rope_dimension_count {
        Some(n) => n,
        None => c.head_dim,
    }
}

/// A loaded model, ready to run.
#[derive(Debug)]
pub struct Model<'a, T> {
    pub weights: ModelWeights<'a>,
    pub rope: RopeTable<T>,
    /// Use the quantised kernels.  Turned off, the projections dequantise and
    /// multiply, which is what the quantised kernels are held against.
    pub fused: bool,
    /// Use the batched projections for prefill, where the model has them.  The results
    /// are the same either way, bit for bit.
    pub batched_prefill: bool,
}

impl<'a, T: Copy> Model<'a, T> {
    /// A model with its rotation table; quantised kernels are on.
    pub fn new(weights: ModelWeights<'a>, rope: RopeTable<T>, batched_prefill: bool) -> (r: Self)
        requires
            rope@.head_dim == weights.config.head_dim,
            rope@.rope_dim == rotated(weights.config),
        ensures
            r.weights == weights,
            r.rope == rope,
            r.fused,
            r.batched_prefill == batched_prefill,
    {
        Model { weights, rope, fused: true, batched_prefill }
    }

    /// Switch between the quantised kernels and the dequantising path.
    pub fn set_fused(&mut self, fused: bool)
        ensures
            final(self).fused == fused,
            final(self).weights == old(self).weights,
            final(self).rope == old(self).rope,
            final(self).batched_prefill == old(self).batched_prefill,
    {
        self.fused = fused;
    }

    /// Use the batched projections for prefill, or do not.  The results are the same
    /// either way, bit for bit.
    pub fn set_batched_prefill(&mut self, on: bool)
        ensures
            final(self).batched_prefill == on,
            final(self).weights == old(self).weights,
            final(self).rope == old(self).rope,
            final(self).fused == old(self).fused,
    {
        self.batched_prefill = on;
    }

    pub fn is_batched_prefill(&self) -> (r: bool)
        ensures
            r == self.batched_prefill,
    {
        self.batched_prefill
    }

    pub fn is_fused(&self) -> (r: bool)
        ensures
            r == self.fused,
    {
        self.fused
    }

    pub fn config(&self) -> (r: &ModelConfig)
        ensures
            *r == self.weights.config,
    {
        &self.weights.config
    }

    /// What to plan for running `n` tokens from a position on, token by token.  Only the
    /// last position's activations are traced.
    pub fn forward(&self, n: usize, start: usize, trace: bool) -> (r: Vec<Work>)
        requires
            start + n <= usize::MAX,
        ensures
            r@ == token_by_token(n as nat, start as int, trace),
    {
        let mut out: Vec<Work> = Vec::with_capacity(n);
        let mut i: usize = 0;
        while i < n
            invariant
                i <= n,
                start + n <= usize::MAX,
                out@ == token_by_token(n as nat, start as int, trace).take(i as int),
            decreases n - i,
        {
            out.push(Work::Token { index: i, pos: start + i, trace: trace && i + 1 == n });
            i += 1;
            assert(out@ =~= token_by_token(n as nat, start as int, trace).take(i as int));
        }
        assert(out@ =~= token_by_token(n as nat, start as int, trace));
        out
    }

    /// The format of a matrix.
    pub open spec fn format(&self, id: MatrixId) -> GgmlType {
        match id {
            MatrixId::AttnQ(l) => self.weights.layers@[l as int].attn_q@.ty,
            MatrixId::AttnK(l) => self.weights.layers@[l as int].attn_k@.ty,
            MatrixId::AttnV(l) => self.weights.layers@[l as int].attn_v@.ty,
            MatrixId::AttnOutput(l) => self.weights.layers@[l as int].attn_output@.ty,
            MatrixId::FfnGate(l) => self.weights.layers@[l as int].ffn_gate@.ty,
            MatrixId::FfnUp(l) => self.weights.layers@[l as int].ffn_up@.ty,
            MatrixId::FfnDown(l) => self.weights.layers@[l as int].ffn_down@.ty,
            MatrixId::Unembedding => self.weights.output@.ty,
        }
    }

    /// Every projection of the layers runs on quantised vectors: the batched projections
    /// know no others.
    pub open spec fn batchable(&self) -> bool {
        forall|i: int|
            0 <= i < self.weights.layers@.len() ==> layer_fused(
                self.fused,
                #[trigger] self.weights.layers@[i],
            )
    }

    fn is_batchable(&self) -> (r: bool)
        ensures
            r == self.batchable(),
    {
        let mut i: usize = 0;
        while i < self.weights.layers.len()
            invariant
                i <= self.weights.layers@.len(),
                forall|j: int|
                    0 <= j < i ==> layer_fused(self.fused, #[trigger] self.weights.layers@[j]),
            decreases self.weights.layers.len() - i,
        {
            if !fuses_layer(self.fused, &self.weights.layers[i]) {
                assert(!layer_fused(self.fused, self.weights.layers@[i as int]));
                return false;
            }
            i += 1;
        }
        true
    }

    /// What is planned for a prompt of `n` tokens from a position on: chunks where they are
    /// wanted and every projection can be batched, single tokens otherwise.
    pub open spec fn prefill_work(&self, n: nat, start: int) -> Seq<Work> {
        if self.batched_prefill && self.batchable() {
            chunk_by_chunk(n, start)
        } else {
            token_by_token(n, start, false)
        }
    }

    /// What to plan for a prompt of `n` tokens from a position on.
    pub fn prefill(&self, n: usize, start: usize) -> (r: Vec<Work>)
        requires
            start + n <= usize::MAX,
        ensures
            r@ == self.prefill_work(n as nat, start as int),
    {
        if !self.batched_prefill || !self.is_batchable() {
            return self.forward(n, start, false);
        }
        let mut out: Vec<Work> = Vec::new();
        let mut from: usize = 0;
        let ghost mut ci: int = 0;
        while from < n
            invariant
                start + n <= usize::MAX,
                self.batched_prefill && self.batchable(),
                0 <= ci,
                from < n ==> from == ci * PREFILL_CHUNK,
                from <= n,
                from == n ==> ci == n_chunks(n as nat),
                out@ == Seq::new(ci as nat, |k: int| chunk_of(n as nat, start as int, k)),
            decreases n - from,
        {
            let last: bool = n - from <= PREFILL_CHUNK;
            let to: usize = if last {
                n
            } else {
                from + PREFILL_CHUNK
            };
            out.push(Work::Chunk { from, to, pos: start + from, want_logits: last });
            proof {
                assert(out@ =~= Seq::new(
                    (ci + 1) as nat,
                    |k: int| chunk_of(n as nat, start as int, k),
                ));
                ci = ci + 1;
            }
            from = to;
        }
        out
    }

    /// The steps that run one token at a position.
    pub fn forward_token(&self, token: u32, pos: usize, trace: bool) -> (r: Vec<Step>)
        requires
            pos < usize::MAX,
        ensures
            r@ == plan::token_steps(
                self.weights.config,
                self.weights.layers@.len(),
                token,
                pos as int,
                trace,
            ),
    {
        plan::plan_token(&self.weights.config, self.weights.layers.len(), token, pos, trace)
    }

    /// The steps that run a chunk of a prompt from a position on, with every projection of
    /// the layers batched.
    pub fn prefill_chunk(&self, tokens: &[u32], start: usize, want_logits: bool) -> (r: Vec<Step>)
        requires
            tokens@.len() <= PREFILL_CHUNK,
            start + tokens@.len() <= usize::MAX,
            want_logits ==> tokens@.len() > 0,
        ensures
            r@ == plan::chunk_steps(
                self.weights.config,
                self.weights.layers@.len(),
                tokens@,
                start as int,
                want_logits,
            ),
    {
        plan::plan_chunk(
            &self.weights.config,
            self.weights.layers.len(),
            tokens,
            start,
            want_logits,
        )
    }

    /// The logits that the last pass left behind.
    pub fn logits<'w>(&self, ws: &'w Workspace<T>) -> (r: &'w [T])
        ensures
            r@ == ws.data(Buffer::Logits),
    {
        ws.logits()
    }

    /// The token with the largest logit.
    pub fn argmax(&self, ws: &Workspace<F32Bits>) -> (r: u32)
        requires
            ws.data(Buffer::Logits).len() <= u32::MAX + 1,
        ensures
            sampler::is_argmax(ws.data(Buffer::Logits), r as int),
    {
        sampler::argmax(ws.logits())
    }

    /// Where a query head's numbers stand, and which key/value head it reads.
    pub fn head_work(&self, h: usize) -> (r: HeadWork)
        requires
            0 < self.weights.config.head_count_kv <= self.weights.config.head_count,
            h < self.weights.config.head_count,
            self.weights.config.head_count * self.weights.config.head_dim <= usize::MAX,
        ensures
            r.kv_head == kv_head_of(self.weights.config, h as int),
            self.weights.config.consistent() ==> r.kv_head < self.weights.config.head_count_kv,
            r.start == h * self.weights.config.head_dim,
            r.end == r.start + self.weights.config.head_dim,
            r.end <= self.weights.config.head_count * self.weights.config.head_dim,
    {
        let c = &self.weights.config;
        proof {
            if c.consistent() {
                law_heads_share_evenly(*c, h as int, 0);
            }
            assert(c.head_count / c.head_count_kv > 0) by (nonlinear_arith)
                requires
                    0 < c.head_count_kv <= c.head_count,
            ;
            assert(0 <= h * c.head_dim && h * c.head_dim + c.head_dim <= c.head_count * c.head_dim)
                by (nonlinear_arith)
                requires
                    h < c.head_count,
            ;
        }
        let start: usize = h * c.head_dim;
        HeadWork { kv_head: h / c.kv_group_size(), start, end: start + c.head_dim }
    }
}

/// Running a sequence in two goes from one cache is running it in one: the second go
/// takes up the positions where the first left off.
pub proof fn law_two_goes_are_one(a: nat, b: nat, start: int, i: int)
    requires
        0 <= start,
        start + a + b <= usize::MAX,
        0 <= i < b,
    ensures
        token_by_token(a, start, false) == token_by_token(a + b, start, false).take(a as int),
        match (
            token_by_token(b, start + a, false)[i],
            token_by_token(a + b, start, false)[a + i],
        ) {
            (
                Work::Token { index: i1, pos: p1, trace: t1 },
                Work::Token { index: i2, pos: p2, trace: t2 },
            ) => i1 + a == i2 && p1 == p2 && t1 == t2,
            _ => false,
        },
{
    assert(token_by_token(a, start, false) =~= token_by_token(a + b, start, false).take(a as int));
}

} // verus!
