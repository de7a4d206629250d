//! Which error a prompt ends in, where a kernel refuses a matrix.
use super::meaning::steps_of;
use super::plan;
use super::plan::{Buffer, MatrixId, NormId, Step};
use super::runner;
use super::runner::{Model, Work};
use crate::gguf::ModelConfig;
use crate::quant::blocks;
use crate::quant::dequant::QuantError;
use vstd::prelude::*;

verus! {

/// What a matrix is refused with, where it is.
pub type Refuses = spec_fn(MatrixId) -> Option<QuantError>;

/// The first of two errors.
pub open spec fn first(a: Option<QuantError>, b: Option<QuantError>) -> Option<QuantError> {
    if a is Some {
        a
    } else {
        b
    }
}

/// The error that a step ends in.
pub open spec fn refused_by(f: Refuses, s: Step) -> Option<QuantError> {
    match s {
        Step::Project { matrix, from, act, to } => f(matrix),
        Step::ProjectBatch { matrix, count, to } => f(matrix),
        _ => None,
    }
}

/// The error that the first `n` steps of a plan end in.
pub open spec fn refused_in(f: Refuses, steps: Seq<Step>, n: nat) -> Option<QuantError>
    decreases n,
{
    if n == 0 {
        None
    } else {
        first(refused_in(f, steps, (n - 1) as nat), refused_by(f, steps[n - 1]))
    }
}

/// The error that a plan ends in.
pub open spec fn refused(f: Refuses, steps: Seq<Step>) -> Option<QuantError> {
    refused_in(f, steps, steps.len())
}

/// The error that the first `n` pieces of a prompt end in.
pub open spec fn refused_pieces(
    f: Refuses,
    c: ModelConfig,
    layers: nat,
    tokens: Seq<u32>,
    pieces: Seq<Work>,
    n: nat,
) -> Option<QuantError>
    decreases n,
{
    if n == 0 {
        None
    } else {
        first(
            refused_pieces(f, c, layers, tokens, pieces, (n - 1) as nat),
            refused(f, steps_of(c, layers, tokens, pieces[n - 1])),
        )
    }
}

/// What a model's kernels refuse: a matrix that is to be taken on quantised vectors, and
/// whose format has no blocks.
pub open spec fn refuses<T: Copy>(model: Model<'_, T>) -> Refuses {
    |id: MatrixId|
        {
            let ty = model.format(id);
            if runner::fused_for(model.fused, ty) && !blocks::is_block_format(ty) {
                Some(QuantError::UnsupportedType(ty))
            } else {
                None
            }
        }
}

proof fn lemma_prefix(f: Refuses, a: Seq<Step>, b: Seq<Step>, n: nat)
    requires
        n <= a.len(),
    ensures
        refused_in(f, a + b, n) == refused_in(f, a, n),
    decreases n,
{
    if n > 0 {
        lemma_prefix(f, a, b, (n - 1) as nat);
        assert((a + b)[n - 1] == a[n - 1]);
    }
}

proof fn lemma_more(f: Refuses, a: Seq<Step>, b: Seq<Step>, n: nat)
    requires
        n <= b.len(),
    ensures
        refused_in(f, a + b, a.len() + n) == first(refused(f, a), refused_in(f, b, n)),
    decreases n,
{
    if n == 0 {
        lemma_prefix(f, a, b, a.len());
    } else {
        lemma_more(f, a, b, (n - 1) as nat);
        assert((a + b)[a.len() + n - 1] == b[n - 1]);
    }
}

/// Plans run one after the other.
proof fn lemma_then(f: Refuses, a: Seq<Step>, b: Seq<Step>)
    ensures
        refused(f, a + b) == first(refused(f, a), refused(f, b)),
{
    lemma_more(f, a, b, b.len());
}

/// A step that projects nothing.
pub open spec fn quiet(s: Step) -> bool {
    s !is Project && s !is ProjectBatch
}

proof fn lemma_quiet(f: Refuses, steps: Seq<Step>, n: nat)
    requires
        n <= steps.len(),
        forall|i: int| 0 <= i < steps.len() ==> quiet(#[trigger] steps[i]),
    ensures
        refused_in(f, steps, n) is None,
    decreases n,
{
    if n > 0 {
        lemma_quiet(f, steps, (n - 1) as nat);
        assert(quiet(steps[n - 1]));
    }
}

proof fn lemma_quiet_each(f: Refuses, n: nat, g: spec_fn(int) -> Seq<Step>)
    requires
        forall|i: int, k: int| 0 <= i < n && 0 <= k < g(i).len() ==> quiet(#[trigger] g(i)[k]),
    ensures
        refused(f, plan::each(n, g)) is None,
    decreases n,
{
    if n > 0 {
        lemma_quiet_each(f, (n - 1) as nat, g);
        lemma_quiet(f, g(n - 1), g(n - 1).len());
        lemma_then(f, plan::each((n - 1) as nat, g), g(n - 1));
    }
}

/// The error of the attention projections of a layer.
pub open spec fn attention_error(f: Refuses, li: int) -> Option<QuantError> {
    let l = li as usize;
    first(
        first(first(f(MatrixId::AttnQ(l)), f(MatrixId::AttnK(l))), f(MatrixId::AttnV(l))),
        f(MatrixId::AttnOutput(l)),
    )
}

/// The error of the feed-forward projections of a layer.
pub open spec fn ffn_error(f: Refuses, li: int) -> Option<QuantError> {
    let l = li as usize;
    first(first(f(MatrixId::FfnGate(l)), f(MatrixId::FfnUp(l))), f(MatrixId::FfnDown(l)))
}

/// The error of the first `n` layers.
pub open spec fn layers_error(f: Refuses, n: nat) -> Option<QuantError>
    decreases n,
{
    if n == 0 {
        None
    } else {
        first(
            layers_error(f, (n - 1) as nat),
            first(attention_error(f, n - 1), ffn_error(f, n - 1)),
        )
    }
}

#[verifier::spinoff_prover]
proof fn lemma_token_attention(f: Refuses, c: ModelConfig, li: int, pos: int)
    ensures
        refused(f, plan::token_attention(c, li, pos)) == attention_error(f, li),
{
    reveal_with_fuel(refused_in, 20);
    assert(plan::token_attention(c, li, pos).len() == 19);
}

#[verifier::spinoff_prover]
proof fn lemma_token_ffn(f: Refuses, li: int)
    ensures
        refused(f, plan::token_ffn(li)) == ffn_error(f, li),
{
    reveal_with_fuel(refused_in, 12);
    assert(plan::token_ffn(li).len() == 11);
}

proof fn lemma_token_layer(f: Refuses, c: ModelConfig, li: int, pos: int)
    ensures
        refused(f, plan::token_layer(c, li, pos, false)) == first(
            attention_error(f, li),
            ffn_error(f, li),
        ),
{
    let l = li as usize;
    let x = plan::row(Buffer::X, 0);
    let xb = plan::row(Buffer::Xb, 0);
    let a = seq![Step::Norm { norm: NormId::Attn(l), from: x, to: xb }];
    let b = plan::token_attention(c, li, pos);
    let d = seq![Step::Norm { norm: NormId::Ffn(l), from: x, to: xb }];
    let e = plan::token_ffn(li);
    lemma_quiet(f, a, a.len());
    lemma_quiet(f, d, d.len());
    lemma_token_attention(f, c, li, pos);
    lemma_token_ffn(f, li);
    lemma_then(f, a, b);
    lemma_then(f, a + b, d);
    lemma_then(f, a + b + d, e);
    assert(plan::token_layer(c, li, pos, false) =~= a + b + d + e);
}

proof fn lemma_token_layers(f: Refuses, c: ModelConfig, n: nat, pos: int)
    ensures
        refused(f, plan::each(n, plan::token_layers(c, pos, false))) == layers_error(f, n),
    decreases n,
{
    let g = plan::token_layers(c, pos, false);
    if n > 0 {
        lemma_token_layers(f, c, (n - 1) as nat, pos);
        lemma_token_layer(f, c, n - 1, pos);
        lemma_then(f, plan::each((n - 1) as nat, g), g(n - 1));
    }
}

/// The error that one token ends in.
proof fn lemma_token(f: Refuses, c: ModelConfig, layers: nat, token: u32, pos: int)
    ensures
        refused(f, plan::token_steps(c, layers, token, pos, false)) == first(
            layers_error(f, layers),
            f(MatrixId::Unembedding),
        ),
{
    let n = layers;
    let a = plan::token_start(token, false);
    let b = plan::each(n, plan::token_layers(c, pos, false));
    let e = plan::token_end(pos, false);
    lemma_quiet(f, a, a.len());
    lemma_token_layers(f, c, n, pos);
    lemma_then(f, a, b);
    lemma_then(f, a + b, e);
    assert(refused(f, e) == f(MatrixId::Unembedding)) by {
        reveal_with_fuel(refused_in, 7);
        assert(e.len() == 6);
    }
}

/// The steps of a chunk that project, and those around them.
proof fn lemma_chunk_layer(f: Refuses, c: ModelConfig, li: int, start: int, t: nat)
    ensures
        refused(f, plan::chunk_layer(c, li, start, t)) == first(
            attention_error(f, li),
            ffn_error(f, li),
        ),
{
    lemma_chunk_attention(f, c, li, start, t);
    lemma_chunk_ffn(f, li, t);
    lemma_then(f, plan::chunk_attention(c, li, start, t), plan::chunk_ffn(li, t));
}

proof fn lemma_chunk_attention(f: Refuses, c: ModelConfig, li: int, start: int, t: nat)
    ensures
        refused(f, plan::chunk_attention(c, li, start, t)) == attention_error(f, li),
{
    let l = li as usize;
    let q1 = plan::each(t, plan::chunk_norms(NormId::Attn(l)));
    let q2 = seq![
        plan::project_batch(MatrixId::AttnQ(l), t, Buffer::BatchQ),
        plan::project_batch(MatrixId::AttnK(l), t, Buffer::BatchK),
        plan::project_batch(MatrixId::AttnV(l), t, Buffer::BatchV),
    ];
    let q3 = plan::each(t, plan::chunk_rotates(c, li, start));
    let q4 = plan::each(t, plan::chunk_stores(li, start));
    let q5 = seq![Step::Advance { len: (start + t) as usize }];
    let q6 = plan::each(t, plan::chunk_attends(li, start));
    let q7 = plan::each(t, plan::chunk_quantizes());
    let q8 = seq![plan::project_batch(MatrixId::AttnOutput(l), t, Buffer::BatchDown)];
    let q9 = plan::each(t, plan::chunk_adds());
    lemma_quiet_each(f, t, plan::chunk_norms(NormId::Attn(l)));
    lemma_quiet_each(f, t, plan::chunk_rotates(c, li, start));
    lemma_quiet_each(f, t, plan::chunk_stores(li, start));
    lemma_quiet(f, q5, q5.len());
    lemma_quiet_each(f, t, plan::chunk_attends(li, start));
    lemma_quiet_each(f, t, plan::chunk_quantizes());
    lemma_quiet_each(f, t, plan::chunk_adds());
    lemma_then(f, q1, q2);
    lemma_then(f, q1 + q2, q3);
    lemma_then(f, q1 + q2 + q3, q4);
    lemma_then(f, q1 + q2 + q3 + q4, q5);
    lemma_then(f, q1 + q2 + q3 + q4 + q5, q6);
    lemma_then(f, q1 + q2 + q3 + q4 + q5 + q6, q7);
    lemma_then(f, q1 + q2 + q3 + q4 + q5 + q6 + q7, q8);
    lemma_then(f, q1 + q2 + q3 + q4 + q5 + q6 + q7 + q8, q9);
    assert(refused(f, q2) == first(
        first(f(MatrixId::AttnQ(l)), f(MatrixId::AttnK(l))),
        f(MatrixId::AttnV(l)),
    ) && refused(f, q8) == f(MatrixId::AttnOutput(l))) by {
        reveal_with_fuel(refused_in, 4);
    }
}

proof fn lemma_chunk_ffn(f: Refuses, li: int, t: nat)
    ensures
        refused(f, plan::chunk_ffn(li, t)) == ffn_error(f, li),
{
    let l = li as usize;
    let q1 = plan::each(t, plan::chunk_norms(NormId::Ffn(l)));
    let q2 = seq![
        plan::project_batch(MatrixId::FfnGate(l), t, Buffer::BatchGate),
        plan::project_batch(MatrixId::FfnUp(l), t, Buffer::BatchUp),
    ];
    let q3 = plan::each(t, plan::chunk_swiglus());
    let q4 = seq![plan::project_batch(MatrixId::FfnDown(l), t, Buffer::BatchDown)];
    let q5 = plan::each(t, plan::chunk_adds());
    lemma_quiet_each(f, t, plan::chunk_norms(NormId::Ffn(l)));
    lemma_quiet_each(f, t, plan::chunk_swiglus());
    lemma_quiet_each(f, t, plan::chunk_adds());
    lemma_then(f, q1, q2);
    lemma_then(f, q1 + q2, q3);
    lemma_then(f, q1 + q2 + q3, q4);
    lemma_then(f, q1 + q2 + q3 + q4, q5);
    assert(refused(f, q2) == first(f(MatrixId::FfnGate(l)), f(MatrixId::FfnUp(l))) && refused(
        f,
        q4,
    ) == f(MatrixId::FfnDown(l))) by {
        reveal_with_fuel(refused_in, 3);
    }
}

proof fn lemma_chunk_layers(f: Refuses, c: ModelConfig, n: nat, start: int, t: nat)
    ensures
        refused(f, plan::each(n, plan::chunk_layers(c, start, t))) == layers_error(f, n),
    decreases n,
{
    let g = plan::chunk_layers(c, start, t);
    if n > 0 {
        lemma_chunk_layers(f, c, (n - 1) as nat, start, t);
        lemma_chunk_layer(f, c, n - 1, start, t);
        lemma_then(f, plan::each((n - 1) as nat, g), g(n - 1));
    }
}

/// The error that a chunk ends in.
proof fn lemma_chunk(
    f: Refuses,
    c: ModelConfig,
    layers: nat,
    tokens: Seq<u32>,
    start: int,
    want_logits: bool,
)
    ensures
        refused(f, plan::chunk_steps(c, layers, tokens, start, want_logits)) == first(
            layers_error(f, layers),
            if want_logits {
                f(MatrixId::Unembedding)
            } else {
                None
            },
        ),
{
    let t = tokens.len();
    let n = layers;
    let a = plan::each(t, plan::chunk_embeds(tokens));
    let b = plan::each(n, plan::chunk_layers(c, start, t));
    let e = plan::chunk_end(t, want_logits);
    lemma_quiet_each(f, t, plan::chunk_embeds(tokens));
    lemma_chunk_layers(f, c, n, start, t);
    lemma_then(f, a, b);
    lemma_then(f, a + b, e);
    assert(refused(f, e) == if want_logits {
        f(MatrixId::Unembedding)
    } else {
        None
    }) by {
        reveal_with_fuel(refused_in, 5);
    }
}

proof fn lemma_tokens(f: Refuses, c: ModelConfig, layers: nat, tokens: Seq<u32>, start: int, n: nat)
    requires
        n <= tokens.len(),
    ensures
        refused_pieces(
            f,
            c,
            layers,
            tokens,
            runner::token_by_token(tokens.len(), start, false),
            n,
        ) == if n == 0 {
            None
        } else {
            first(layers_error(f, layers), f(MatrixId::Unembedding))
        },
    decreases n,
{
    if n > 0 {
        lemma_tokens(f, c, layers, tokens, start, (n - 1) as nat);
        let i = n - 1;
        lemma_token(f, c, layers, tokens[(i as usize) as int], ((start + i) as usize) as int);
    }
}

proof fn lemma_chunks(f: Refuses, c: ModelConfig, layers: nat, tokens: Seq<u32>, start: int, ci: nat)
    requires
        0 <= start,
        start + tokens.len() <= usize::MAX,
        ci <= runner::n_chunks(tokens.len()),
    ensures
        refused_pieces(f, c, layers, tokens, runner::chunk_by_chunk(tokens.len(), start), ci)
            == if ci == 0 {
            None
        } else {
            first(
                layers_error(f, layers),
                if ci == runner::n_chunks(tokens.len()) {
                    f(MatrixId::Unembedding)
                } else {
                    None
                },
            )
        },
    decreases ci,
{
    if ci > 0 {
        lemma_chunks(f, c, layers, tokens, start, (ci - 1) as nat);
        runner::law_chunks_cover_the_prompt(tokens.len(), start, ci - 1);
        match runner::chunk_by_chunk(tokens.len(), start)[ci - 1] {
            Work::Chunk { from, to, pos, want_logits } => {
                lemma_chunk(
                    f,
                    c,
                    layers,
                    tokens.subrange(from as int, to as int),
                    pos as int,
                    want_logits,
                );
            },
            _ => {},
        }
    }
}

/// Prefill ends in an error exactly where running the tokens one by one does, and in the
/// same one.
pub proof fn law_prefill_fails_like_single_tokens<T: Copy>(
    model: Model<'_, T>,
    tokens: Seq<u32>,
    start: int,
)
    requires
        0 <= start,
        start + tokens.len() <= usize::MAX,
    ensures
        ({
            let f = refuses(model);
            let c = model.weights.config;
            let layers = model.weights.layers@.len();
            let n = tokens.len();
            let prefill = model.prefill_work(n, start);
            let single = runner::token_by_token(n, start, false);
            refused_pieces(f, c, layers, tokens, prefill, prefill.len()) == refused_pieces(
                f,
                c,
                layers,
                tokens,
                single,
                single.len(),
            )
        }),
{
    let f = refuses(model);
    let c = model.weights.config;
    let layers = model.weights.layers@.len();
    let n = tokens.len();
    lemma_tokens(f, c, layers, tokens, start, n);
    lemma_chunks(f, c, layers, tokens, start, runner::n_chunks(n));
}

} // verus!
