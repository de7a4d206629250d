//! Whatever a plan projects was quantised before, at the length that the matrix takes.
use super::limits;
use super::plan;
use super::plan::{Act, Buffer, MatrixId, NormId, Step, Widths, PREFILL_CHUNK};
use crate::gguf::ModelConfig;
use vstd::prelude::*;

verus! {

/// How long the quantised vectors are; none was quantised where it is `None`.
pub struct Lens {
    pub token: Option<int>,
    pub batch: Seq<Option<int>>,
}

impl Lens {
    /// Nothing was quantised.
    pub open spec fn none() -> Lens {
        Lens { token: None, batch: Seq::new(PREFILL_CHUNK as nat, |i: int| None) }
    }

    pub open spec fn of(self, a: Act) -> Option<int> {
        match a {
            Act::Token => self.token,
            Act::Batch(i) => self.batch[i as int],
        }
    }

    /// The lengths after a step.
    pub open spec fn after(self, s: Step, w: Widths) -> Lens {
        match s {
            Step::Quantize { from, act } => {
                let n = Some(from.buffer.width(w));
                match act {
                    Act::Token => Lens { token: n, ..self },
                    Act::Batch(i) => Lens { batch: self.batch.update(i as int, n), ..self },
                }
            },
            _ => self,
        }
    }

    /// What a step projects has the length that its matrix takes.
    pub open spec fn ready(self, s: Step, w: Widths) -> bool {
        match s {
            Step::Project { matrix, from, act, to } => self.of(act) == Some(
                limits::matrix_shape(matrix, w).1,
            ),
            Step::ProjectBatch { matrix, count, to } => forall|i: int|
                0 <= i < count ==> #[trigger] self.batch[i] == Some(
                    limits::matrix_shape(matrix, w).1,
                ),
            _ => true,
        }
    }

    /// The lengths after some steps.
    pub open spec fn through(self, steps: Seq<Step>, w: Widths) -> Lens
        decreases steps.len(),
    {
        if steps.len() == 0 {
            self
        } else {
            self.through(steps.drop_last(), w).after(steps.last(), w)
        }
    }

    /// Every step is ready when its turn comes.
    pub open spec fn all_ready(self, steps: Seq<Step>, w: Widths) -> bool
        decreases steps.len(),
    {
        steps.len() == 0 || (self.all_ready(steps.drop_last(), w) && self.through(
            steps.drop_last(),
            w,
        ).ready(steps.last(), w))
    }

    /// Steps one after the other.
    proof fn lemma_then(self, a: Seq<Step>, b: Seq<Step>, w: Widths)
        ensures
            self.through(a + b, w) == self.through(a, w).through(b, w),
            self.all_ready(a + b, w) == (self.all_ready(a, w) && self.through(a, w).all_ready(
                b,
                w,
            )),
        decreases b.len(),
    {
        if b.len() == 0 {
            assert(a + b =~= a);
        } else {
            self.lemma_then(a, b.drop_last(), w);
            assert((a + b).drop_last() =~= a + b.drop_last());
        }
    }
}

/// A step that neither quantises nor projects.
pub open spec fn idle(s: Step) -> bool {
    s !is Quantize && s !is Project && s !is ProjectBatch
}

/// Steps that neither quantise nor project change nothing.
proof fn lemma_idle(l: Lens, steps: Seq<Step>, w: Widths)
    requires
        forall|i: int| 0 <= i < steps.len() ==> idle(#[trigger] steps[i]),
    ensures
        l.through(steps, w) == l,
        l.all_ready(steps, w),
    decreases steps.len(),
{
    if steps.len() > 0 {
        assert(idle(steps[steps.len() - 1]));
        assert forall|i: int| 0 <= i < steps.drop_last().len() implies idle(
            #[trigger] steps.drop_last()[i],
        ) by {
            assert(idle(steps[i]));
        }
        lemma_idle(l, steps.drop_last(), w);
    }
}

proof fn lemma_idle_each(l: Lens, n: nat, f: spec_fn(int) -> Seq<Step>, w: Widths)
    requires
        forall|i: int, k: int| 0 <= i < n && 0 <= k < f(i).len() ==> idle(#[trigger] f(i)[k]),
    ensures
        l.through(plan::each(n, f), w) == l,
        l.all_ready(plan::each(n, f), w),
    decreases n,
{
    if n > 0 {
        lemma_idle_each(l, (n - 1) as nat, f, w);
        lemma_idle(l, f(n - 1), w);
        l.lemma_then(plan::each((n - 1) as nat, f), f(n - 1), w);
    }
}

/// The first `n` vectors of a chunk are quantised at a length.
pub open spec fn batch_at(l: Lens, n: int, len: int) -> bool {
    &&& l.batch.len() == PREFILL_CHUNK
    &&& forall|i: int| 0 <= i < n ==> #[trigger] l.batch[i] == Some(len)
}

/// Something that quantises vector `i` of a chunk from row `i` of a buffer, and does
/// nothing else that matters here.
pub open spec fn quantizes(steps: Seq<Step>, b: Buffer, i: int) -> bool {
    &&& steps.len() > 0
    &&& steps.last() == (Step::Quantize { from: plan::row(b, i), act: Act::Batch(i as usize) })
    &&& forall|k: int| 0 <= k < steps.len() - 1 ==> idle(#[trigger] steps[k])
}

/// Quantising each of the first vectors of a chunk.
proof fn lemma_batch(l: Lens, n: nat, f: spec_fn(int) -> Seq<Step>, b: Buffer, w: Widths)
    requires
        n <= PREFILL_CHUNK,
        l.batch.len() == PREFILL_CHUNK,
        forall|i: int| 0 <= i < n ==> quantizes(#[trigger] f(i), b, i),
    ensures
        l.all_ready(plan::each(n, f), w),
        batch_at(l.through(plan::each(n, f), w), n as int, b.width(w)),
        l.through(plan::each(n, f), w).token == l.token,
    decreases n,
{
    if n > 0 {
        let p = (n - 1) as nat;
        lemma_batch(l, p, f, b, w);
        let before = l.through(plan::each(p, f), w);
        let s = f(n - 1);
        assert(quantizes(s, b, n - 1));
        assert forall|k: int| 0 <= k < s.drop_last().len() implies idle(
            #[trigger] s.drop_last()[k],
        ) by {
            assert(idle(s[k]));
        }
        lemma_idle(before, s.drop_last(), w);
        l.lemma_then(plan::each(p, f), s, w);
    }
}

/// A projection of the first vectors of a chunk through a matrix that takes a length.
pub open spec fn takes_batch(s: Step, t: nat, len: int, w: Widths) -> bool {
    s matches Step::ProjectBatch { matrix, count, to } && count == t && limits::matrix_shape(
        matrix,
        w,
    ).1 == len
}

/// A batch of vectors of one length goes through projections that take it.
proof fn lemma_projections(l: Lens, steps: Seq<Step>, t: nat, len: int, w: Widths)
    requires
        batch_at(l, t as int, len),
        t <= PREFILL_CHUNK,
        forall|k: int| 0 <= k < steps.len() ==> takes_batch(#[trigger] steps[k], t, len, w),
    ensures
        l.through(steps, w) == l,
        l.all_ready(steps, w),
    decreases steps.len(),
{
    if steps.len() > 0 {
        let front = steps.drop_last();
        assert forall|k: int| 0 <= k < front.len() implies takes_batch(
            #[trigger] front[k],
            t,
            len,
            w,
        ) by {
            assert(front[k] == steps[k]);
        }
        lemma_projections(l, front, t, len, w);
        assert(takes_batch(steps[steps.len() - 1], t, len, w));
    }
}

/// A layer for one token.
proof fn lemma_token_layer(l: Lens, c: ModelConfig, li: int, pos: int, trace: bool)
    ensures
        l.all_ready(plan::token_layer(c, li, pos, trace), Widths::spec_of(c)),
        l.through(plan::token_layer(c, li, pos, trace), Widths::spec_of(c)).batch == l.batch,
{
    let w = Widths::spec_of(c);
    let u = li as usize;
    let x = plan::row(Buffer::X, 0);
    let xb = plan::row(Buffer::Xb, 0);
    let p1 = seq![Step::Norm { norm: NormId::Attn(u), from: x, to: xb }] + plan::record(
        trace,
        plan::TraceName::AttnNorm(u),
        Buffer::Xb,
    );
    let p2 = plan::token_attention(c, li, pos);
    let p3 = seq![Step::Norm { norm: NormId::Ffn(u), from: x, to: xb }] + plan::record(
        trace,
        plan::TraceName::FfnNorm(u),
        Buffer::Xb,
    );
    let p4 = plan::token_ffn(li);
    let p5 = plan::record(trace, plan::TraceName::Hidden((u + 1) as usize), Buffer::X);
    lemma_idle(l, p1, w);
    lemma_attention_ready(l, c, li, pos);
    let l2 = l.through(p2, w);
    lemma_idle(l2, p3, w);
    lemma_ffn_ready(l2, c, li);
    let l4 = l2.through(p4, w);
    lemma_idle(l4, p5, w);
    l.lemma_then(p1, p2, w);
    l.lemma_then(p1 + p2, p3, w);
    l.lemma_then(p1 + p2 + p3, p4, w);
    l.lemma_then(p1 + p2 + p3 + p4, p5, w);
    assert(plan::token_layer(c, li, pos, trace) =~= p1 + p2 + p3 + p4 + p5);
}

/// A step that projects, if anything, a vector of a buffer's width.
pub open spec fn takes(s: Step, from: Buffer, w: Widths) -> bool {
    idle(s) || (s matches Step::Project { matrix, from: r, act, to } && act == Act::Token
        && limits::matrix_shape(matrix, w).1 == from.width(w))
}

/// A vector is quantised, and only projections that take its length follow.
proof fn lemma_piece(l: Lens, a: Seq<Step>, from: Buffer, w: Widths)
    requires
        a.len() > 0,
        a[0] == (Step::Quantize { from: plan::row(from, 0), act: Act::Token }),
        forall|k: int| 1 <= k < a.len() ==> takes(#[trigger] a[k], from, w),
    ensures
        l.all_ready(a, w),
        l.through(a, w) == (Lens { token: Some(from.width(w)), ..l }),
    decreases a.len(),
{
    let front = a.drop_last();
    if a.len() == 1 {
        assert(l.through(front, w) == l && l.all_ready(front, w));
    } else {
        lemma_piece(l, front, from, w);
        assert(takes(a[a.len() - 1], from, w));
    }
}

proof fn lemma_attention_ready(l: Lens, c: ModelConfig, li: int, pos: int)
    ensures
        l.all_ready(plan::token_attention(c, li, pos), Widths::spec_of(c)),
        l.through(plan::token_attention(c, li, pos), Widths::spec_of(c)).batch == l.batch,
{
    let w = Widths::spec_of(c);
    let all = plan::token_attention(c, li, pos);
    let a = all.take(15);
    let b = all.skip(15);
    lemma_piece(l, a, Buffer::Xb, w);
    lemma_piece(l.through(a, w), b, Buffer::AttnOut, w);
    l.lemma_then(a, b, w);
    assert(a + b =~= all);
}

proof fn lemma_ffn_ready(l: Lens, c: ModelConfig, li: int)
    ensures
        l.all_ready(plan::token_ffn(li), Widths::spec_of(c)),
        l.through(plan::token_ffn(li), Widths::spec_of(c)).batch == l.batch,
{
    let w = Widths::spec_of(c);
    let all = plan::token_ffn(li);
    let a = all.take(6);
    let b = all.skip(6);
    lemma_piece(l, a, Buffer::Xb, w);
    lemma_piece(l.through(a, w), b, Buffer::Gate, w);
    l.lemma_then(a, b, w);
    assert(a + b =~= all);
}

proof fn lemma_token_layers(l: Lens, c: ModelConfig, n: nat, pos: int, trace: bool)
    ensures
        l.all_ready(plan::each(n, plan::token_layers(c, pos, trace)), Widths::spec_of(c)),
    decreases n,
{
    let w = Widths::spec_of(c);
    let f = plan::token_layers(c, pos, trace);
    if n > 0 {
        let p = (n - 1) as nat;
        lemma_token_layers(l, c, p, pos, trace);
        lemma_token_layer(l.through(plan::each(p, f), w), c, n - 1, pos, trace);
        l.lemma_then(plan::each(p, f), f(n - 1), w);
    }
}

/// In the plan of a token, whatever is projected was quantised at the length that the
/// matrix takes.
pub proof fn law_token_plans_project_what_fits(
    c: ModelConfig,
    n: nat,
    token: u32,
    pos: int,
    trace: bool,
)
    ensures
        Lens::none().all_ready(plan::token_steps(c, n, token, pos, trace), Widths::spec_of(c)),
{
    let w = Widths::spec_of(c);
    let l = Lens::none();
    let p1 = plan::token_start(token, trace);
    let p2 = plan::each(n, plan::token_layers(c, pos, trace));
    let p3 = plan::token_end(pos, trace);
    lemma_idle(l, p1, w);
    lemma_token_layers(l, c, n, pos, trace);
    l.lemma_then(p1, p2, w);
    let l2 = l.through(p1 + p2, w);
    let record = plan::record(trace, plan::TraceName::Logits, Buffer::Logits);
    let head = p3.take(p3.len() - 3 - record.len());
    let tail = p3.skip(p3.len() - 3 - record.len());
    lemma_idle(l2, head, w);
    lemma_piece(l2, tail, Buffer::Xb, w);
    l2.lemma_then(head, tail, w);
    assert(head + tail =~= p3);
    l.lemma_then(p1 + p2, p3, w);
}

/// Attention over a chunk.
proof fn lemma_chunk_attention(l: Lens, c: ModelConfig, li: int, start: int, t: nat)
    requires
        t <= PREFILL_CHUNK,
        l.batch.len() == PREFILL_CHUNK,
    ensures
        l.all_ready(plan::chunk_attention(c, li, start, t), Widths::spec_of(c)),
        l.through(plan::chunk_attention(c, li, start, t), Widths::spec_of(c)).batch.len()
            == PREFILL_CHUNK,
{
    let w = Widths::spec_of(c);
    let u = li as usize;
    let q1 = plan::each(t, plan::chunk_norms(NormId::Attn(u)));
    let q2 = seq![
        plan::project_batch(MatrixId::AttnQ(u), t, Buffer::BatchQ),
        plan::project_batch(MatrixId::AttnK(u), t, Buffer::BatchK),
        plan::project_batch(MatrixId::AttnV(u), t, Buffer::BatchV),
    ];
    let q3 = plan::each(t, plan::chunk_rotates(c, li, start));
    let q4 = plan::each(t, plan::chunk_stores(li, start));
    let q5 = seq![Step::Advance { len: (start + t) as usize }];
    let q6 = plan::each(t, plan::chunk_attends(li, start));
    let q7 = plan::each(t, plan::chunk_quantizes());
    let q8 = seq![plan::project_batch(MatrixId::AttnOutput(u), t, Buffer::BatchDown)];
    let q9 = plan::each(t, plan::chunk_adds());
    lemma_batch(l, t, plan::chunk_norms(NormId::Attn(u)), Buffer::BatchXb, w);
    let l1 = l.through(q1, w);
    lemma_projections(l1, q2, t, w.d as int, w);
    lemma_idle_each(l1, t, plan::chunk_rotates(c, li, start), w);
    lemma_idle_each(l1, t, plan::chunk_stores(li, start), w);
    lemma_idle(l1, q5, w);
    lemma_idle_each(l1, t, plan::chunk_attends(li, start), w);
    lemma_batch(l1, t, plan::chunk_quantizes(), Buffer::BatchAttnOut, w);
    let l7 = l1.through(q7, w);
    lemma_projections(l7, q8, t, w.q_dim as int, w);
    lemma_idle_each(l7, t, plan::chunk_adds(), w);
    l.lemma_then(q1, q2, w);
    l.lemma_then(q1 + q2, q3, w);
    l.lemma_then(q1 + q2 + q3, q4, w);
    l.lemma_then(q1 + q2 + q3 + q4, q5, w);
    l.lemma_then(q1 + q2 + q3 + q4 + q5, q6, w);
    l.lemma_then(q1 + q2 + q3 + q4 + q5 + q6, q7, w);
    l.lemma_then(q1 + q2 + q3 + q4 + q5 + q6 + q7, q8, w);
    l.lemma_then(q1 + q2 + q3 + q4 + q5 + q6 + q7 + q8, q9, w);
}

/// The feed-forward half of a layer over a chunk.
proof fn lemma_chunk_ffn(l: Lens, c: ModelConfig, li: int, t: nat)
    requires
        t <= PREFILL_CHUNK,
        l.batch.len() == PREFILL_CHUNK,
    ensures
        l.all_ready(plan::chunk_ffn(li, t), Widths::spec_of(c)),
        l.through(plan::chunk_ffn(li, t), Widths::spec_of(c)).batch.len() == PREFILL_CHUNK,
{
    let w = Widths::spec_of(c);
    let u = li as usize;
    let q1 = plan::each(t, plan::chunk_norms(NormId::Ffn(u)));
    let q2 = seq![
        plan::project_batch(MatrixId::FfnGate(u), t, Buffer::BatchGate),
        plan::project_batch(MatrixId::FfnUp(u), t, Buffer::BatchUp),
    ];
    let q3 = plan::each(t, plan::chunk_swiglus());
    let q4 = seq![plan::project_batch(MatrixId::FfnDown(u), t, Buffer::BatchDown)];
    let q5 = plan::each(t, plan::chunk_adds());
    lemma_batch(l, t, plan::chunk_norms(NormId::Ffn(u)), Buffer::BatchXb, w);
    let l1 = l.through(q1, w);
    lemma_projections(l1, q2, t, w.d as int, w);
    lemma_batch(l1, t, plan::chunk_swiglus(), Buffer::BatchGate, w);
    let l3 = l1.through(q3, w);
    lemma_projections(l3, q4, t, w.ff as int, w);
    lemma_idle_each(l3, t, plan::chunk_adds(), w);
    l.lemma_then(q1, q2, w);
    l.lemma_then(q1 + q2, q3, w);
    l.lemma_then(q1 + q2 + q3, q4, w);
    l.lemma_then(q1 + q2 + q3 + q4, q5, w);
}

/// A layer for a chunk.
proof fn lemma_chunk_layer(l: Lens, c: ModelConfig, li: int, start: int, t: nat)
    requires
        t <= PREFILL_CHUNK,
        l.batch.len() == PREFILL_CHUNK,
    ensures
        l.all_ready(plan::chunk_layer(c, li, start, t), Widths::spec_of(c)),
        l.through(plan::chunk_layer(c, li, start, t), Widths::spec_of(c)).batch.len()
            == PREFILL_CHUNK,
{
    let w = Widths::spec_of(c);
    let first = plan::chunk_attention(c, li, start, t);
    let second = plan::chunk_ffn(li, t);
    lemma_chunk_attention(l, c, li, start, t);
    lemma_chunk_ffn(l.through(first, w), c, li, t);
    l.lemma_then(first, second, w);
}

proof fn lemma_chunk_layers(l: Lens, c: ModelConfig, n: nat, start: int, t: nat)
    requires
        t <= PREFILL_CHUNK,
        l.batch.len() == PREFILL_CHUNK,
    ensures
        l.all_ready(plan::each(n, plan::chunk_layers(c, start, t)), Widths::spec_of(c)),
        l.through(plan::each(n, plan::chunk_layers(c, start, t)), Widths::spec_of(c)).batch.len()
            == PREFILL_CHUNK,
    decreases n,
{
    let w = Widths::spec_of(c);
    let f = plan::chunk_layers(c, start, t);
    if n > 0 {
        let p = (n - 1) as nat;
        lemma_chunk_layers(l, c, p, start, t);
        lemma_chunk_layer(l.through(plan::each(p, f), w), c, n - 1, start, t);
        l.lemma_then(plan::each(p, f), f(n - 1), w);
    }
}

/// In the plan of a chunk, whatever is projected was quantised at the length that the
/// matrix takes.
pub proof fn law_chunk_plans_project_what_fits(
    c: ModelConfig,
    n: nat,
    tokens: Seq<u32>,
    start: int,
    want_logits: bool,
)
    requires
        tokens.len() <= PREFILL_CHUNK,
    ensures
        Lens::none().all_ready(
            plan::chunk_steps(c, n, tokens, start, want_logits),
            Widths::spec_of(c),
        ),
{
    let w = Widths::spec_of(c);
    let l = Lens::none();
    let t = tokens.len();
    let p1 = plan::each(t, plan::chunk_embeds(tokens));
    let p2 = plan::each(n, plan::chunk_layers(c, start, t));
    let p3 = plan::chunk_end(t, want_logits);
    lemma_idle_each(l, t, plan::chunk_embeds(tokens), w);
    lemma_chunk_layers(l, c, n, start, t);
    l.lemma_then(p1, p2, w);
    let l2 = l.through(p1 + p2, w);
    if want_logits {
        let head = p3.take(2);
        let tail = p3.skip(2);
        lemma_idle(l2, head, w);
        lemma_piece(l2, tail, Buffer::Xb, w);
        l2.lemma_then(head, tail, w);
        assert(head + tail =~= p3);
    }
    l.lemma_then(p1 + p2, p3, w);
}

} // verus!
