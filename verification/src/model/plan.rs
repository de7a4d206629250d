//! The order of the work of a forward pass.
//!
//! ```text
//! x = embed(token)
//! per layer:
//!   x += attention(rmsnorm(x, attn_norm))
//!   x += ffn(rmsnorm(x, ffn_norm))
//! logits = output @ rmsnorm(x, output_norm)
//! ```
//!
//! A plan says which kernel runs on which rows of which buffers, and in what order.
//! Decoding plans one token at a time; prefill plans a chunk of positions with batched
//! projections.
use crate::gguf::ModelConfig;
use crate::text;
use vstd::prelude::*;

verus! {

/// Positions processed together during prefill.
pub const PREFILL_CHUNK: usize = 32;

/// The scratch buffers, each a table of rows.  Those named after a batch have a row
/// for each position of a chunk, the others have one row.
#[derive(Debug, Clone, Copy, PartialEq, Eq, Structural)]
pub enum Buffer {
    X,
    Xb,
    Xb2,
    Q,
    K,
    V,
    AttnOut,
    Gate,
    Up,
    Logits,
    BatchX,
    BatchXb,
    BatchQ,
    BatchK,
    BatchV,
    BatchAttnOut,
    BatchGate,
    BatchUp,
    BatchDown,
}

/// One row of a buffer.
#[derive(Debug, Clone, Copy, PartialEq, Eq, Structural)]
pub struct Row {
    pub buffer: Buffer,
    pub index: usize,
}

/// A quantised activation vector: the one of a single token, or one of a chunk's.
#[derive(Debug, Clone, Copy, PartialEq, Eq, Structural)]
pub enum Act {
    Token,
    Batch(usize),
}

/// A weight matrix, by its layer.
#[derive(Debug, Clone, Copy, PartialEq, Eq, Structural)]
pub enum MatrixId {
    AttnQ(usize),
    AttnK(usize),
    AttnV(usize),
    AttnOutput(usize),
    FfnGate(usize),
    FfnUp(usize),
    FfnDown(usize),
    Unembedding,
}

/// The weights of a norm, by its layer.
#[derive(Debug, Clone, Copy, PartialEq, Eq, Structural)]
pub enum NormId {
    Attn(usize),
    Ffn(usize),
    Output,
}

/// An attention bias, by its layer.
#[derive(Debug, Clone, Copy, PartialEq, Eq, Structural)]
pub enum BiasId {
    Q(usize),
    K(usize),
    V(usize),
}

/// What a recorded vector is.
#[derive(Debug, Clone, Copy, PartialEq, Eq, Structural)]
pub enum TraceName {
    /// The hidden state before a layer, or after the last.
    Hidden(usize),
    AttnNorm(usize),
    FfnNorm(usize),
    FinalNorm,
    Logits,
}

/// What the time since the last mark went into.
#[derive(Debug, Clone, Copy, PartialEq, Eq, Structural)]
pub enum Bucket {
    Matmul,
    Attention,
    Other,
}

/// One piece of work.
#[derive(Debug, Clone, Copy, PartialEq, Eq, Structural)]
pub enum Step {
    /// Set the timings to zero and mark the time.
    StartTimer,
    /// Count the time since the last mark, and mark the time.
    Mark(Bucket),
    /// Keep a copy of a row under a name.
    Record { name: TraceName, from: Row },
    /// A token's embedding.
    Embed { token: u32, to: Row },
    /// RMS-normalise a row.
    Norm { norm: NormId, from: Row, to: Row },
    /// Quantise a row.
    Quantize { from: Row, act: Act },
    /// A matrix times one vector, from its quantised or its exact form.
    Project { matrix: MatrixId, from: Row, act: Act, to: Row },
    /// A matrix times the first `count` quantised vectors of a chunk, to as many rows.
    ProjectBatch { matrix: MatrixId, count: usize, to: Buffer },
    /// Add a bias, where the model has it.
    AddBias { bias: BiasId, to: Row },
    /// Rotate each head of a row for a position.
    Rotate { row: Row, n_heads: usize, pos: usize },
    /// Put keys and values into the cache.
    Store { layer: usize, pos: usize, k: Row, v: Row },
    /// Attend with every head to positions `0..=pos`.
    Attend { layer: usize, pos: usize, q: Row, to: Row },
    /// The first `len` positions of the cache are written.
    Advance { len: usize },
    /// Add one row to another.
    Add { to: Row, from: Row },
    /// `gate = silu(gate) * up`.
    Swiglu { gate: Row, up: Row },
    Copy { from: Row, to: Row },
}

impl Buffer {
    /// How many rows a buffer has.
    pub open spec fn rows(self) -> int {
        match self {
            Buffer::BatchX
            | Buffer::BatchXb
            | Buffer::BatchQ
            | Buffer::BatchK
            | Buffer::BatchV
            | Buffer::BatchAttnOut
            | Buffer::BatchGate
            | Buffer::BatchUp
            | Buffer::BatchDown => PREFILL_CHUNK as int,
            _ => 1,
        }
    }

    /// How long the rows of a buffer are.
    pub open spec fn width(self, w: Widths) -> int {
        match self {
            Buffer::X
            | Buffer::Xb
            | Buffer::Xb2
            | Buffer::BatchX
            | Buffer::BatchXb
            | Buffer::BatchDown => w.d as int,
            Buffer::Q | Buffer::AttnOut | Buffer::BatchQ | Buffer::BatchAttnOut => w.q_dim as int,
            Buffer::K | Buffer::V | Buffer::BatchK | Buffer::BatchV => w.kv_dim as int,
            Buffer::Gate | Buffer::Up | Buffer::BatchGate | Buffer::BatchUp => w.ff as int,
            Buffer::Logits => w.vocab as int,
        }
    }

    /// How long the rows of a buffer are.
    pub fn row_width(self, w: &Widths) -> (r: usize)
        ensures
            r == self.width(*w),
    {
        match self {
            Buffer::X
            | Buffer::Xb
            | Buffer::Xb2
            | Buffer::BatchX
            | Buffer::BatchXb
            | Buffer::BatchDown => w.d,
            Buffer::Q | Buffer::AttnOut | Buffer::BatchQ | Buffer::BatchAttnOut => w.q_dim,
            Buffer::K | Buffer::V | Buffer::BatchK | Buffer::BatchV => w.kv_dim,
            Buffer::Gate | Buffer::Up | Buffer::BatchGate | Buffer::BatchUp => w.ff,
            Buffer::Logits => w.vocab,
        }
    }
}

/// The lengths of the vectors of a model.
#[derive(Debug, Clone, Copy, PartialEq, Eq, Structural)]
pub struct Widths {
    /// The hidden state.
    pub d: usize,
    /// Between the two halves of the feed-forward network.
    pub ff: usize,
    /// The queries of all heads.
    pub q_dim: usize,
    /// The keys or values of all heads.
    pub kv_dim: usize,
    pub vocab: usize,
}

impl Widths {
    pub open spec fn spec_of(c: ModelConfig) -> Widths {
        Widths {
            d: c.embedding_length,
            ff: c.feed_forward_length,
            q_dim: (c.head_count * c.head_dim) as usize,
            kv_dim: (c.head_count_kv * c.head_dim) as usize,
            vocab: c.vocab_size,
        }
    }

    pub fn of(c: &ModelConfig) -> (r: Widths)
        requires
            c.head_count * c.head_dim <= usize::MAX,
            c.head_count_kv * c.head_dim <= usize::MAX,
        ensures
            r == Widths::spec_of(*c),
    {
        Widths {
            d: c.embedding_length,
            ff: c.feed_forward_length,
            q_dim: c.q_dim(),
            kv_dim: c.kv_dim(),
            vocab: c.vocab_size,
        }
    }
}

impl TraceName {
    /// The name as text.
    pub open spec fn spec_text(self) -> Seq<char> {
        match self {
            TraceName::Hidden(i) => "hidden."@ + text::decimal(i as nat),
            TraceName::AttnNorm(i) => "l"@ + text::decimal(i as nat) + ".attn_norm"@,
            TraceName::FfnNorm(i) => "l"@ + text::decimal(i as nat) + ".ffn_norm"@,
            TraceName::FinalNorm => "final_norm"@,
            TraceName::Logits => "logits"@,
        }
    }

    /// The name as text.
    pub fn text(self) -> (r: String)
        ensures
            r@ == self.spec_text(),
    {
        match self {
            TraceName::Hidden(i) => {
                let mut s = "hidden.".to_owned();
                text::push_decimal(&mut s, i as u128);
                s
            },
            TraceName::AttnNorm(i) => {
                let mut s = "l".to_owned();
                text::push_decimal(&mut s, i as u128);
                s.push_str(".attn_norm");
                s
            },
            TraceName::FfnNorm(i) => {
                let mut s = "l".to_owned();
                text::push_decimal(&mut s, i as u128);
                s.push_str(".ffn_norm");
                s
            },
            TraceName::FinalNorm => "final_norm".to_owned(),
            TraceName::Logits => "logits".to_owned(),
        }
    }
}

pub open spec fn row(buffer: Buffer, i: int) -> Row {
    Row { buffer, index: i as usize }
}

/// The steps of `f(0)`, then of `f(1)`, up to `f(n - 1)`.
pub open spec fn each(n: nat, f: spec_fn(int) -> Seq<Step>) -> Seq<Step>
    decreases n,
{
    if n == 0 {
        Seq::empty()
    } else {
        each((n - 1) as nat, f) + f(n - 1)
    }
}

/// A record, where one is wanted.
pub open spec fn record(trace: bool, name: TraceName, buffer: Buffer) -> Seq<Step> {
    if trace {
        seq![Step::Record { name, from: row(buffer, 0) }]
    } else {
        Seq::empty()
    }
}

/// Project one vector.
pub open spec fn project(matrix: MatrixId, from: Buffer, to: Buffer) -> Step {
    Step::Project { matrix, from: row(from, 0), act: Act::Token, to: row(to, 0) }
}

/// The work of a layer for one token.
pub open spec fn token_layer(c: ModelConfig, li: int, pos: int, trace: bool) -> Seq<Step> {
    let l = li as usize;
    let x = row(Buffer::X, 0);
    let xb = row(Buffer::Xb, 0);
    seq![Step::Norm { norm: NormId::Attn(l), from: x, to: xb }] + record(
        trace,
        TraceName::AttnNorm(l),
        Buffer::Xb,
    ) + token_attention(c, li, pos) + seq![
        Step::Norm { norm: NormId::Ffn(l), from: x, to: xb },
    ] + record(trace, TraceName::FfnNorm(l), Buffer::Xb) + token_ffn(li) + record(
        trace,
        TraceName::Hidden((l + 1) as usize),
        Buffer::X,
    )
}

pub open spec fn token_layers(c: ModelConfig, pos: int, trace: bool) -> spec_fn(int) -> Seq<Step> {
    |li: int| token_layer(c, li, pos, trace)
}

/// From the normed vector to the sum with what attention gives.  Queries, keys and
/// values come from one quantised vector; keys are rotated, values never are.
pub open spec fn token_attention(c: ModelConfig, li: int, pos: int) -> Seq<Step> {
    let l = li as usize;
    let p = pos as usize;
    let q = row(Buffer::Q, 0);
    let k = row(Buffer::K, 0);
    let v = row(Buffer::V, 0);
    let attn_out = row(Buffer::AttnOut, 0);
    seq![
        Step::Quantize { from: row(Buffer::Xb, 0), act: Act::Token },
        Step::Mark(Bucket::Other),
        project(MatrixId::AttnQ(l), Buffer::Xb, Buffer::Q),
        project(MatrixId::AttnK(l), Buffer::Xb, Buffer::K),
        project(MatrixId::AttnV(l), Buffer::Xb, Buffer::V),
        Step::Mark(Bucket::Matmul),
        Step::AddBias { bias: BiasId::Q(l), to: q },
        Step::AddBias { bias: BiasId::K(l), to: k },
        Step::AddBias { bias: BiasId::V(l), to: v },
        Step::Rotate { row: q, n_heads: c.head_count, pos: p },
        Step::Rotate { row: k, n_heads: c.head_count_kv, pos: p },
        Step::Store { layer: l, pos: p, k, v },
        Step::Mark(Bucket::Other),
        Step::Attend { layer: l, pos: p, q, to: attn_out },
        Step::Mark(Bucket::Attention),
        Step::Quantize { from: attn_out, act: Act::Token },
        project(MatrixId::AttnOutput(l), Buffer::AttnOut, Buffer::Xb2),
        Step::Add { to: row(Buffer::X, 0), from: row(Buffer::Xb2, 0) },
        Step::Mark(Bucket::Matmul),
    ]
}

/// From the normed vector to the sum with what the feed-forward block gives.
pub open spec fn token_ffn(li: int) -> Seq<Step> {
    let l = li as usize;
    seq![
        Step::Quantize { from: row(Buffer::Xb, 0), act: Act::Token },
        Step::Mark(Bucket::Other),
        project(MatrixId::FfnGate(l), Buffer::Xb, Buffer::Gate),
        project(MatrixId::FfnUp(l), Buffer::Xb, Buffer::Up),
        Step::Mark(Bucket::Matmul),
        Step::Swiglu { gate: row(Buffer::Gate, 0), up: row(Buffer::Up, 0) },
        Step::Quantize { from: row(Buffer::Gate, 0), act: Act::Token },
        Step::Mark(Bucket::Other),
        project(MatrixId::FfnDown(l), Buffer::Gate, Buffer::Xb2),
        Step::Add { to: row(Buffer::X, 0), from: row(Buffer::Xb2, 0) },
        Step::Mark(Bucket::Matmul),
    ]
}

/// Embed one token.
pub open spec fn token_start(token: u32, trace: bool) -> Seq<Step> {
    seq![Step::StartTimer, Step::Embed { token, to: row(Buffer::X, 0) }] + record(
        trace,
        TraceName::Hidden(0),
        Buffer::X,
    ) + seq![Step::Mark(Bucket::Matmul)]
}

/// Note the position, and unembed.
pub open spec fn token_end(pos: int, trace: bool) -> Seq<Step> {
    seq![
        Step::Advance { len: (pos + 1) as usize },
        Step::Norm { norm: NormId::Output, from: row(Buffer::X, 0), to: row(Buffer::Xb, 0) },
    ] + record(trace, TraceName::FinalNorm, Buffer::Xb) + seq![
        Step::Mark(Bucket::Other),
        Step::Quantize { from: row(Buffer::Xb, 0), act: Act::Token },
        project(MatrixId::Unembedding, Buffer::Xb, Buffer::Logits),
        Step::Mark(Bucket::Matmul),
    ] + record(trace, TraceName::Logits, Buffer::Logits)
}

/// The work for one token at a position, in a model of `n` layers.
pub open spec fn token_steps(
    c: ModelConfig,
    n: nat,
    token: u32,
    pos: int,
    trace: bool,
) -> Seq<Step> {
    token_start(token, trace) + each(
        n,
        token_layers(c, pos, trace),
    ) + token_end(pos, trace)
}

/// Normalise and quantise each row of a chunk.
pub open spec fn chunk_norm(norm: NormId, i: int) -> Seq<Step> {
    seq![
        Step::Norm { norm, from: row(Buffer::BatchX, i), to: row(Buffer::BatchXb, i) },
        Step::Quantize { from: row(Buffer::BatchXb, i), act: Act::Batch(i as usize) },
    ]
}

pub open spec fn chunk_norms(norm: NormId) -> spec_fn(int) -> Seq<Step> {
    |i: int| chunk_norm(norm, i)
}

/// Add the biases of a position, and rotate its queries and keys.
pub open spec fn chunk_rotate(c: ModelConfig, li: int, start: int, i: int) -> Seq<Step> {
    let l = li as usize;
    let p = (start + i) as usize;
    let q = row(Buffer::BatchQ, i);
    let k = row(Buffer::BatchK, i);
    let v = row(Buffer::BatchV, i);
    seq![
        Step::AddBias { bias: BiasId::Q(l), to: q },
        Step::Rotate { row: q, n_heads: c.head_count, pos: p },
        Step::AddBias { bias: BiasId::K(l), to: k },
        Step::Rotate { row: k, n_heads: c.head_count_kv, pos: p },
        Step::AddBias { bias: BiasId::V(l), to: v },
    ]
}

pub open spec fn chunk_rotates(c: ModelConfig, li: int, start: int) -> spec_fn(int) -> Seq<Step> {
    |i: int| chunk_rotate(c, li, start, i)
}

/// Put the keys and values of a position into the cache.
pub open spec fn chunk_store(li: int, start: int, i: int) -> Seq<Step> {
    seq![
        Step::Store {
            layer: li as usize,
            pos: (start + i) as usize,
            k: row(Buffer::BatchK, i),
            v: row(Buffer::BatchV, i),
        },
    ]
}

pub open spec fn chunk_stores(li: int, start: int) -> spec_fn(int) -> Seq<Step> {
    |i: int| chunk_store(li, start, i)
}

/// Attend with the queries of a position.
pub open spec fn chunk_attend(li: int, start: int, i: int) -> Seq<Step> {
    seq![
        Step::Attend {
            layer: li as usize,
            pos: (start + i) as usize,
            q: row(Buffer::BatchQ, i),
            to: row(Buffer::BatchAttnOut, i),
        },
    ]
}

pub open spec fn chunk_attends(li: int, start: int) -> spec_fn(int) -> Seq<Step> {
    |i: int| chunk_attend(li, start, i)
}

/// Quantise what attention gave for a position.
pub open spec fn chunk_quantize(i: int) -> Seq<Step> {
    seq![Step::Quantize { from: row(Buffer::BatchAttnOut, i), act: Act::Batch(i as usize) }]
}

pub open spec fn chunk_quantizes() -> spec_fn(int) -> Seq<Step> {
    |i: int| chunk_quantize(i)
}

/// Add what a block gave for a position to its hidden state.
pub open spec fn chunk_add(i: int) -> Seq<Step> {
    seq![Step::Add { to: row(Buffer::BatchX, i), from: row(Buffer::BatchDown, i) }]
}

pub open spec fn chunk_adds() -> spec_fn(int) -> Seq<Step> {
    |i: int| chunk_add(i)
}

/// Gate the feed-forward vector of a position, and quantise it.
pub open spec fn chunk_swiglu(i: int) -> Seq<Step> {
    seq![
        Step::Swiglu { gate: row(Buffer::BatchGate, i), up: row(Buffer::BatchUp, i) },
        Step::Quantize { from: row(Buffer::BatchGate, i), act: Act::Batch(i as usize) },
    ]
}

pub open spec fn chunk_swiglus() -> spec_fn(int) -> Seq<Step> {
    |i: int| chunk_swiglu(i)
}

pub open spec fn project_batch(matrix: MatrixId, t: nat, to: Buffer) -> Step {
    Step::ProjectBatch { matrix, count: t as usize, to }
}

/// The work of a layer for a chunk of `t` positions.  Every position's keys and values
/// are in the cache before any of them attends, so that a later position of the chunk
/// sees the earlier ones.
pub open spec fn chunk_layer(c: ModelConfig, li: int, start: int, t: nat) -> Seq<Step> {
    chunk_attention(c, li, start, t) + chunk_ffn(li, t)
}

/// Attention over a chunk.
pub open spec fn chunk_attention(c: ModelConfig, li: int, start: int, t: nat) -> Seq<Step> {
    let l = li as usize;
    each(t, chunk_norms(NormId::Attn(l))) + seq![
        project_batch(MatrixId::AttnQ(l), t, Buffer::BatchQ),
        project_batch(MatrixId::AttnK(l), t, Buffer::BatchK),
        project_batch(MatrixId::AttnV(l), t, Buffer::BatchV),
    ] + each(t, chunk_rotates(c, li, start)) + each(
        t,
        chunk_stores(li, start),
    ) + seq![Step::Advance { len: (start + t) as usize }] + each(
        t,
        chunk_attends(li, start),
    ) + each(t, chunk_quantizes()) + seq![
        project_batch(MatrixId::AttnOutput(l), t, Buffer::BatchDown),
    ] + each(t, chunk_adds())
}

/// The feed-forward half of a layer over a chunk.
pub open spec fn chunk_ffn(li: int, t: nat) -> Seq<Step> {
    let l = li as usize;
    each(t, chunk_norms(NormId::Ffn(l))) + seq![
        project_batch(MatrixId::FfnGate(l), t, Buffer::BatchGate),
        project_batch(MatrixId::FfnUp(l), t, Buffer::BatchUp),
    ] + each(t, chunk_swiglus()) + seq![
        project_batch(MatrixId::FfnDown(l), t, Buffer::BatchDown),
    ] + each(t, chunk_adds())
}

pub open spec fn chunk_layers(c: ModelConfig, start: int, t: nat) -> spec_fn(int) -> Seq<Step> {
    |li: int| chunk_layer(c, li, start, t)
}

/// Embed a token of a chunk.
pub open spec fn chunk_embed(tokens: Seq<u32>, i: int) -> Seq<Step> {
    seq![Step::Embed { token: tokens[i], to: row(Buffer::BatchX, i) }]
}

pub open spec fn chunk_embeds(tokens: Seq<u32>) -> spec_fn(int) -> Seq<Step> {
    |i: int| chunk_embed(tokens, i)
}

/// Unembed the last position of a chunk, where that is wanted.
pub open spec fn chunk_end(t: nat, want_logits: bool) -> Seq<Step> {
    if want_logits {
        seq![
            Step::Copy { from: row(Buffer::BatchX, t - 1), to: row(Buffer::X, 0) },
            Step::Norm { norm: NormId::Output, from: row(Buffer::X, 0), to: row(Buffer::Xb, 0) },
            Step::Quantize { from: row(Buffer::Xb, 0), act: Act::Token },
            project(MatrixId::Unembedding, Buffer::Xb, Buffer::Logits),
        ]
    } else {
        Seq::empty()
    }
}

/// The work for a chunk of tokens from a position on, in a model of `n` layers.
pub open spec fn chunk_steps(
    c: ModelConfig,
    n: nat,
    tokens: Seq<u32>,
    start: int,
    want_logits: bool,
) -> Seq<Step> {
    let t = tokens.len();
    each(t, chunk_embeds(tokens)) + each(
        n,
        chunk_layers(c, start, t),
    ) + chunk_end(t, want_logits)
}

/// Row 0 of a buffer.
fn single(buffer: Buffer) -> (r: Row)
    ensures
        r == row(buffer, 0),
{
    Row { buffer, index: 0 }
}

fn push_record(out: &mut Vec<Step>, trace: bool, name: TraceName, buffer: Buffer)
    ensures
        final(out)@ == old(out)@ + record(trace, name, buffer),
{
    if trace {
        out.push(Step::Record { name, from: single(buffer) });
    }
    assert(out@ =~= old(out)@ + record(trace, name, buffer));
}

fn projection(matrix: MatrixId, from: Buffer, to: Buffer) -> (r: Step)
    ensures
        r == project(matrix, from, to),
{
    Step::Project { matrix, from: single(from), act: Act::Token, to: single(to) }
}

fn push_token_attention(out: &mut Vec<Step>, c: &ModelConfig, l: usize, pos: usize)
    ensures
        final(out)@ == old(out)@ + token_attention(*c, l as int, pos as int),
{
    let q = single(Buffer::Q);
    let k = single(Buffer::K);
    let v = single(Buffer::V);
    let attn_out = single(Buffer::AttnOut);
    out.push(Step::Quantize { from: single(Buffer::Xb), act: Act::Token });
    out.push(Step::Mark(Bucket::Other));
    out.push(projection(MatrixId::AttnQ(l), Buffer::Xb, Buffer::Q));
    out.push(projection(MatrixId::AttnK(l), Buffer::Xb, Buffer::K));
    out.push(projection(MatrixId::AttnV(l), Buffer::Xb, Buffer::V));
    out.push(Step::Mark(Bucket::Matmul));
    out.push(Step::AddBias { bias: BiasId::Q(l), to: q });
    out.push(Step::AddBias { bias: BiasId::K(l), to: k });
    out.push(Step::AddBias { bias: BiasId::V(l), to: v });
    out.push(Step::Rotate { row: q, n_heads: c.head_count, pos });
    out.push(Step::Rotate { row: k, n_heads: c.head_count_kv, pos });
    out.push(Step::Store { layer: l, pos, k, v });
    out.push(Step::Mark(Bucket::Other));
    out.push(Step::Attend { layer: l, pos, q, to: attn_out });
    out.push(Step::Mark(Bucket::Attention));
    out.push(Step::Quantize { from: attn_out, act: Act::Token });
    out.push(projection(MatrixId::AttnOutput(l), Buffer::AttnOut, Buffer::Xb2));
    out.push(Step::Add { to: single(Buffer::X), from: single(Buffer::Xb2) });
    out.push(Step::Mark(Bucket::Matmul));
    assert(out@ =~= old(out)@ + token_attention(*c, l as int, pos as int));
}

fn push_token_ffn(out: &mut Vec<Step>, l: usize)
    ensures
        final(out)@ == old(out)@ + token_ffn(l as int),
{
    out.push(Step::Quantize { from: single(Buffer::Xb), act: Act::Token });
    out.push(Step::Mark(Bucket::Other));
    out.push(projection(MatrixId::FfnGate(l), Buffer::Xb, Buffer::Gate));
    out.push(projection(MatrixId::FfnUp(l), Buffer::Xb, Buffer::Up));
    out.push(Step::Mark(Bucket::Matmul));
    out.push(Step::Swiglu { gate: single(Buffer::Gate), up: single(Buffer::Up) });
    out.push(Step::Quantize { from: single(Buffer::Gate), act: Act::Token });
    out.push(Step::Mark(Bucket::Other));
    out.push(projection(MatrixId::FfnDown(l), Buffer::Gate, Buffer::Xb2));
    out.push(Step::Add { to: single(Buffer::X), from: single(Buffer::Xb2) });
    out.push(Step::Mark(Bucket::Matmul));
    assert(out@ =~= old(out)@ + token_ffn(l as int));
}

fn push_token_layer(out: &mut Vec<Step>, c: &ModelConfig, l: usize, pos: usize, trace: bool)
    requires
        l < usize::MAX,
    ensures
        final(out)@ == old(out)@ + token_layer(*c, l as int, pos as int, trace),
{
    out.push(
        Step::Norm { norm: NormId::Attn(l), from: single(Buffer::X), to: single(Buffer::Xb) },
    );
    push_record(out, trace, TraceName::AttnNorm(l), Buffer::Xb);
    push_token_attention(out, c, l, pos);
    out.push(Step::Norm { norm: NormId::Ffn(l), from: single(Buffer::X), to: single(Buffer::Xb) });
    push_record(out, trace, TraceName::FfnNorm(l), Buffer::Xb);
    push_token_ffn(out, l);
    push_record(out, trace, TraceName::Hidden(l + 1), Buffer::X);
    assert(out@ =~= old(out)@ + token_layer(*c, l as int, pos as int, trace));
}

/// Plan one token at a position, through `n` layers.  With `trace`, the hidden state before the first layer
/// and after each, every normed vector and the logits are recorded.
pub fn plan_token(
    c: &ModelConfig,
    n: usize,
    token: u32,
    pos: usize,
    trace: bool,
) -> (r: Vec<Step>)
    requires
        pos < usize::MAX,
    ensures
        r@ == token_steps(*c, n as nat, token, pos as int, trace),
{
    let mut out: Vec<Step> = Vec::new();
    out.push(Step::StartTimer);
    out.push(Step::Embed { token, to: single(Buffer::X) });
    push_record(&mut out, trace, TraceName::Hidden(0), Buffer::X);
    out.push(Step::Mark(Bucket::Matmul));
    assert(out@ =~= token_start(token, trace));
    let ghost layers = token_layers(*c, pos as int, trace);
    let ghost before = out@;
    assert(before + each(0, layers) =~= before);
    let mut l: usize = 0;
    while l < n
        invariant
            l <= n,
            layers == token_layers(*c, pos as int, trace),
            out@ == before + each(l as nat, layers),
        decreases n - l,
    {
        push_token_layer(&mut out, c, l, pos, trace);
        l += 1;
        assert(out@ =~= before + each(l as nat, layers));
    }
    let ghost middle = out@;
    out.push(Step::Advance { len: pos + 1 });
    out.push(
        Step::Norm { norm: NormId::Output, from: single(Buffer::X), to: single(Buffer::Xb) },
    );
    push_record(&mut out, trace, TraceName::FinalNorm, Buffer::Xb);
    out.push(Step::Mark(Bucket::Other));
    out.push(Step::Quantize { from: single(Buffer::Xb), act: Act::Token });
    out.push(projection(MatrixId::Unembedding, Buffer::Xb, Buffer::Logits));
    out.push(Step::Mark(Bucket::Matmul));
    push_record(&mut out, trace, TraceName::Logits, Buffer::Logits);
    assert(out@ =~= middle + token_end(pos as int, trace));
    assert(out@ =~= token_steps(*c, n as nat, token, pos as int, trace));
    out
}

fn push_norms(out: &mut Vec<Step>, t: usize, norm: NormId)
    requires
        t <= PREFILL_CHUNK,
    ensures
        final(out)@ == old(out)@ + each(t as nat, chunk_norms(norm)),
{
    let ghost before = out@;
    assert(before + each(0, chunk_norms(norm)) =~= before);
    let mut i: usize = 0;
    while i < t
        invariant
            i <= t <= PREFILL_CHUNK,
            before == old(out)@,
            out@ == before + each(i as nat, chunk_norms(norm)),
        decreases t - i,
    {
        out.push(
            Step::Norm {
                norm,
                from: Row { buffer: Buffer::BatchX, index: i },
                to: Row { buffer: Buffer::BatchXb, index: i },
            },
        );
        out.push(
            Step::Quantize {
                from: Row { buffer: Buffer::BatchXb, index: i },
                act: Act::Batch(i),
            },
        );
        i += 1;
        assert(out@ =~= before + each(i as nat, chunk_norms(norm)));
    }
}

fn push_rotates(out: &mut Vec<Step>, t: usize, c: &ModelConfig, l: usize, start: usize)
    requires
        t <= PREFILL_CHUNK,
        start + t <= usize::MAX,
    ensures
        final(out)@ == old(out)@ + each(t as nat, chunk_rotates(*c, l as int, start as int)),
{
    let ghost before = out@;
    assert(before + each(0, chunk_rotates(*c, l as int, start as int)) =~= before);
    let mut i: usize = 0;
    while i < t
        invariant
            i <= t <= PREFILL_CHUNK,
            before == old(out)@,
            start + t <= usize::MAX,
            out@ == before + each(i as nat, chunk_rotates(*c, l as int, start as int)),
        decreases t - i,
    {
        let q = Row { buffer: Buffer::BatchQ, index: i };
        let k = Row { buffer: Buffer::BatchK, index: i };
        let v = Row { buffer: Buffer::BatchV, index: i };
        let pos: usize = start + i;
        out.push(Step::AddBias { bias: BiasId::Q(l), to: q });
        out.push(Step::Rotate { row: q, n_heads: c.head_count, pos });
        out.push(Step::AddBias { bias: BiasId::K(l), to: k });
        out.push(Step::Rotate { row: k, n_heads: c.head_count_kv, pos });
        out.push(Step::AddBias { bias: BiasId::V(l), to: v });
        i += 1;
        assert(out@ =~= before + each(i as nat, chunk_rotates(*c, l as int, start as int)));
    }
}

fn push_stores(out: &mut Vec<Step>, t: usize, l: usize, start: usize)
    requires
        t <= PREFILL_CHUNK,
        start + t <= usize::MAX,
    ensures
        final(out)@ == old(out)@ + each(t as nat, chunk_stores(l as int, start as int)),
{
    let ghost before = out@;
    assert(before + each(0, chunk_stores(l as int, start as int)) =~= before);
    let mut i: usize = 0;
    while i < t
        invariant
            i <= t <= PREFILL_CHUNK,
            before == old(out)@,
            start + t <= usize::MAX,
            out@ == before + each(i as nat, chunk_stores(l as int, start as int)),
        decreases t - i,
    {
        out.push(
            Step::Store {
                layer: l,
                pos: start + i,
                k: Row { buffer: Buffer::BatchK, index: i },
                v: Row { buffer: Buffer::BatchV, index: i },
            },
        );
        i += 1;
        assert(out@ =~= before + each(i as nat, chunk_stores(l as int, start as int)));
    }
}

fn push_attends(out: &mut Vec<Step>, t: usize, l: usize, start: usize)
    requires
        t <= PREFILL_CHUNK,
        start + t <= usize::MAX,
    ensures
        final(out)@ == old(out)@ + each(t as nat, chunk_attends(l as int, start as int)),
{
    let ghost before = out@;
    assert(before + each(0, chunk_attends(l as int, start as int)) =~= before);
    let mut i: usize = 0;
    while i < t
        invariant
            i <= t <= PREFILL_CHUNK,
            before == old(out)@,
            start + t <= usize::MAX,
            out@ == before + each(i as nat, chunk_attends(l as int, start as int)),
        decreases t - i,
    {
        out.push(
            Step::Attend {
                layer: l,
                pos: start + i,
                q: Row { buffer: Buffer::BatchQ, index: i },
                to: Row { buffer: Buffer::BatchAttnOut, index: i },
            },
        );
        i += 1;
        assert(out@ =~= before + each(i as nat, chunk_attends(l as int, start as int)));
    }
}

fn push_quantizes(out: &mut Vec<Step>, t: usize)
    requires
        t <= PREFILL_CHUNK,
    ensures
        final(out)@ == old(out)@ + each(t as nat, chunk_quantizes()),
{
    let ghost before = out@;
    assert(before + each(0, chunk_quantizes()) =~= before);
    let mut i: usize = 0;
    while i < t
        invariant
            i <= t <= PREFILL_CHUNK,
            before == old(out)@,
            out@ == before + each(i as nat, chunk_quantizes()),
        decreases t - i,
    {
        out.push(
            Step::Quantize {
                from: Row { buffer: Buffer::BatchAttnOut, index: i },
                act: Act::Batch(i),
            },
        );
        i += 1;
        assert(out@ =~= before + each(i as nat, chunk_quantizes()));
    }
}

fn push_adds(out: &mut Vec<Step>, t: usize)
    requires
        t <= PREFILL_CHUNK,
    ensures
        final(out)@ == old(out)@ + each(t as nat, chunk_adds()),
{
    let ghost before = out@;
    assert(before + each(0, chunk_adds()) =~= before);
    let mut i: usize = 0;
    while i < t
        invariant
            i <= t <= PREFILL_CHUNK,
            before == old(out)@,
            out@ == before + each(i as nat, chunk_adds()),
        decreases t - i,
    {
        out.push(
            Step::Add {
                to: Row { buffer: Buffer::BatchX, index: i },
                from: Row { buffer: Buffer::BatchDown, index: i },
            },
        );
        i += 1;
        assert(out@ =~= before + each(i as nat, chunk_adds()));
    }
}

fn push_swiglus(out: &mut Vec<Step>, t: usize)
    requires
        t <= PREFILL_CHUNK,
    ensures
        final(out)@ == old(out)@ + each(t as nat, chunk_swiglus()),
{
    let ghost before = out@;
    assert(before + each(0, chunk_swiglus()) =~= before);
    let mut i: usize = 0;
    while i < t
        invariant
            i <= t <= PREFILL_CHUNK,
            before == old(out)@,
            out@ == before + each(i as nat, chunk_swiglus()),
        decreases t - i,
    {
        out.push(
            Step::Swiglu {
                gate: Row { buffer: Buffer::BatchGate, index: i },
                up: Row { buffer: Buffer::BatchUp, index: i },
            },
        );
        out.push(
            Step::Quantize {
                from: Row { buffer: Buffer::BatchGate, index: i },
                act: Act::Batch(i),
            },
        );
        i += 1;
        assert(out@ =~= before + each(i as nat, chunk_swiglus()));
    }
}

fn push_chunk_attention(out: &mut Vec<Step>, c: &ModelConfig, l: usize, start: usize, t: usize)
    requires
        t <= PREFILL_CHUNK,
        start + t <= usize::MAX,
    ensures
        final(out)@ == old(out)@ + chunk_attention(*c, l as int, start as int, t as nat),
{
    let ghost li = l as int;
    let ghost p = start as int;
    let ghost n = t as nat;
    let ghost before = out@;
    push_norms(out, t, NormId::Attn(l));
    let ghost done = each(n, chunk_norms(NormId::Attn(l)));
    out.push(Step::ProjectBatch { matrix: MatrixId::AttnQ(l), count: t, to: Buffer::BatchQ });
    out.push(Step::ProjectBatch { matrix: MatrixId::AttnK(l), count: t, to: Buffer::BatchK });
    out.push(Step::ProjectBatch { matrix: MatrixId::AttnV(l), count: t, to: Buffer::BatchV });
    let ghost done = done + seq![
        project_batch(MatrixId::AttnQ(l), n, Buffer::BatchQ),
        project_batch(MatrixId::AttnK(l), n, Buffer::BatchK),
        project_batch(MatrixId::AttnV(l), n, Buffer::BatchV),
    ];
    assert(out@ =~= before + done);
    push_rotates(out, t, c, l, start);
    let ghost done = done + each(n, chunk_rotates(*c, li, p));
    assert(out@ =~= before + done);
    push_stores(out, t, l, start);
    let ghost done = done + each(n, chunk_stores(li, p));
    assert(out@ =~= before + done);
    out.push(Step::Advance { len: start + t });
    let ghost done = done + seq![Step::Advance { len: (p + n) as usize }];
    assert(out@ =~= before + done);
    push_attends(out, t, l, start);
    let ghost done = done + each(n, chunk_attends(li, p));
    assert(out@ =~= before + done);
    push_quantizes(out, t);
    let ghost done = done + each(n, chunk_quantizes());
    assert(out@ =~= before + done);
    out.push(
        Step::ProjectBatch { matrix: MatrixId::AttnOutput(l), count: t, to: Buffer::BatchDown },
    );
    let ghost done = done + seq![project_batch(MatrixId::AttnOutput(l), n, Buffer::BatchDown)];
    assert(out@ =~= before + done);
    push_adds(out, t);
    let ghost done = done + each(n, chunk_adds());
    assert(out@ =~= before + done);
    assert(done == chunk_attention(*c, li, p, n));
}

fn push_chunk_ffn(out: &mut Vec<Step>, l: usize, t: usize)
    requires
        t <= PREFILL_CHUNK,
    ensures
        final(out)@ == old(out)@ + chunk_ffn(l as int, t as nat),
{
    let ghost n = t as nat;
    let ghost before = out@;
    push_norms(out, t, NormId::Ffn(l));
    let ghost done = each(n, chunk_norms(NormId::Ffn(l)));
    out.push(Step::ProjectBatch { matrix: MatrixId::FfnGate(l), count: t, to: Buffer::BatchGate });
    out.push(Step::ProjectBatch { matrix: MatrixId::FfnUp(l), count: t, to: Buffer::BatchUp });
    let ghost done = done + seq![
        project_batch(MatrixId::FfnGate(l), n, Buffer::BatchGate),
        project_batch(MatrixId::FfnUp(l), n, Buffer::BatchUp),
    ];
    assert(out@ =~= before + done);
    push_swiglus(out, t);
    let ghost done = done + each(n, chunk_swiglus());
    assert(out@ =~= before + done);
    out.push(Step::ProjectBatch { matrix: MatrixId::FfnDown(l), count: t, to: Buffer::BatchDown });
    let ghost done = done + seq![project_batch(MatrixId::FfnDown(l), n, Buffer::BatchDown)];
    assert(out@ =~= before + done);
    push_adds(out, t);
    let ghost done = done + each(n, chunk_adds());
    assert(out@ =~= before + done);
    assert(done == chunk_ffn(l as int, n));
}

fn push_chunk_layer(out: &mut Vec<Step>, c: &ModelConfig, l: usize, start: usize, t: usize)
    requires
        t <= PREFILL_CHUNK,
        start + t <= usize::MAX,
    ensures
        final(out)@ == old(out)@ + chunk_layer(*c, l as int, start as int, t as nat),
{
    let ghost first = chunk_attention(*c, l as int, start as int, t as nat);
    let ghost second = chunk_ffn(l as int, t as nat);
    push_chunk_attention(out, c, l, start, t);
    push_chunk_ffn(out, l, t);
    assert(old(out)@ + first + second =~= old(out)@ + (first + second));
}

/// Plan a chunk of tokens from a position on, through `n` layers.  Logits are wanted for the last position
/// of the last chunk only: the unembedding is the most expensive projection of all.
pub fn plan_chunk(
    c: &ModelConfig,
    n: usize,
    tokens: &[u32],
    start: usize,
    want_logits: bool,
) -> (r: Vec<Step>)
    requires
        tokens@.len() <= PREFILL_CHUNK,
        start + tokens@.len() <= usize::MAX,
        want_logits ==> tokens@.len() > 0,
    ensures
        r@ == chunk_steps(*c, n as nat, tokens@, start as int, want_logits),
{
    let t: usize = tokens.len();
    let mut out: Vec<Step> = Vec::new();
    assert(each(0, chunk_embeds(tokens@)) =~= Seq::<Step>::empty());
    let mut i: usize = 0;
    while i < t
        invariant
            i <= t,
            t == tokens@.len() <= PREFILL_CHUNK,
            out@ == each(i as nat, chunk_embeds(tokens@)),
        decreases t - i,
    {
        out.push(
            Step::Embed { token: tokens[i], to: Row { buffer: Buffer::BatchX, index: i } },
        );
        i += 1;
        assert(out@ =~= each(i as nat, chunk_embeds(tokens@)));
    }
    let ghost layers = chunk_layers(*c, start as int, t as nat);
    let ghost before = out@;
    assert(before + each(0, layers) =~= before);
    let mut l: usize = 0;
    while l < n
        invariant
            l <= n,
            t == tokens@.len() <= PREFILL_CHUNK,
            start + t <= usize::MAX,
            layers == chunk_layers(*c, start as int, t as nat),
            out@ == before + each(l as nat, layers),
        decreases n - l,
    {
        push_chunk_layer(&mut out, c, l, start, t);
        l += 1;
        assert(out@ =~= before + each(l as nat, layers));
    }
    let ghost middle = out@;
    if want_logits {
        out.push(
            Step::Copy {
                from: Row { buffer: Buffer::BatchX, index: t - 1 },
                to: single(Buffer::X),
            },
        );
        out.push(
            Step::Norm { norm: NormId::Output, from: single(Buffer::X), to: single(Buffer::Xb) },
        );
        out.push(Step::Quantize { from: single(Buffer::Xb), act: Act::Token });
        out.push(projection(MatrixId::Unembedding, Buffer::Xb, Buffer::Logits));
    }
    assert(out@ =~= middle + chunk_end(t as nat, want_logits));
    out
}

} // verus!
