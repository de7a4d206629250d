//! What a plan computes, whatever the kernels do.
//!
//! The kernels are taken as unknown functions on vectors.  A plan then computes a term
//! over them, and two plans that compute the same term give the same numbers, bit for
//! bit, on every machine.
use super::plan;
use super::plan::{Act, BiasId, Bucket, Buffer, MatrixId, NormId, Row, Step, PREFILL_CHUNK};
use super::runner;
use super::runner::{Model, Work};
use crate::gguf::ModelConfig;
use vstd::prelude::*;

verus! {

/// The kernels, as functions from vectors to vectors.
#[verifier::reject_recursive_types(V)]
pub struct Kernels<V> {
    pub embed: spec_fn(u32) -> V,
    pub norm: spec_fn(NormId, V) -> V,
    pub quantize: spec_fn(V) -> V,
    /// Whether a projection runs on the quantised vector.
    pub fused: spec_fn(MatrixId) -> bool,
    /// A matrix times a quantised vector.
    pub project: spec_fn(MatrixId, V) -> V,
    /// The exact weights of a matrix times a vector.
    pub exact: spec_fn(MatrixId, V) -> V,
    pub bias: spec_fn(BiasId, V) -> V,
    /// Rotate the heads of a vector for a position.
    pub rotate: spec_fn(V, usize, usize) -> V,
    /// Attend with a vector of queries to keys and values.
    pub attend: spec_fn(V, Seq<V>, Seq<V>) -> V,
    pub add: spec_fn(V, V) -> V,
    pub swiglu: spec_fn(V, V) -> V,
}

impl<V> Kernels<V> {
    /// A projection of a vector, given as it is and quantised.
    pub open spec fn projected(self, id: MatrixId, x: V, quantised: V) -> V {
        if (self.fused)(id) {
            (self.project)(id, quantised)
        } else {
            (self.exact)(id, x)
        }
    }

    /// A vector through a matrix.
    pub open spec fn through(self, id: MatrixId, x: V) -> V {
        self.projected(id, x, (self.quantize)(x))
    }

    /// Every projection of the first `n` layers runs on the quantised vector.
    pub open spec fn layers_fused(self, n: nat) -> bool {
        forall|id: MatrixId| of_layers(id, n) ==> #[trigger] (self.fused)(id)
    }
}

/// A matrix of one of the first `n` layers.
pub open spec fn of_layers(id: MatrixId, n: nat) -> bool {
    match id {
        MatrixId::AttnQ(l) => l < n,
        MatrixId::AttnK(l) => l < n,
        MatrixId::AttnV(l) => l < n,
        MatrixId::AttnOutput(l) => l < n,
        MatrixId::FfnGate(l) => l < n,
        MatrixId::FfnUp(l) => l < n,
        MatrixId::FfnDown(l) => l < n,
        MatrixId::Unembedding => false,
    }
}

/// The buffers and the cache.
#[verifier::reject_recursive_types(V)]
pub struct Machine<V> {
    pub rows: Map<Row, V>,
    pub acts: Map<Act, V>,
    /// The keys of a layer at a position.
    pub keys: Map<(int, int), V>,
    pub values: Map<(int, int), V>,
    pub len: int,
}

/// What stands at positions `0..=pos` of a layer.
pub open spec fn history<V>(cells: Map<(int, int), V>, layer: int, pos: int) -> Seq<V> {
    Seq::new((pos + 1) as nat, |p: int| cells[(layer, p)])
}

/// The larger of two numbers.
pub open spec fn larger(a: int, b: int) -> int {
    if a >= b {
        a
    } else {
        b
    }
}

impl<V> Machine<V> {
    pub open spec fn put(self, r: Row, v: V) -> Self {
        Machine { rows: self.rows.insert(r, v), ..self }
    }

    /// The machine after one step.  Timing and recording change nothing.
    pub open spec fn after(self, k: Kernels<V>, s: Step) -> Self {
        match s {
            Step::StartTimer => self,
            Step::Mark(_) => self,
            Step::Record { .. } => self,
            Step::Embed { token, to } => self.put(to, (k.embed)(token)),
            Step::Norm { norm, from, to } => self.put(to, (k.norm)(norm, self.rows[from])),
            Step::Quantize { from, act } => Machine {
                acts: self.acts.insert(act, (k.quantize)(self.rows[from])),
                ..self
            },
            Step::Project { matrix, from, act, to } => self.put(
                to,
                k.projected(matrix, self.rows[from], self.acts[act]),
            ),
            Step::ProjectBatch { matrix, count, to } => Machine {
                rows: Map::new(
                    |r: Row| true,
                    |r: Row|
                        if r.buffer == to && r.index < count {
                            (k.project)(matrix, self.acts[Act::Batch(r.index)])
                        } else {
                            self.rows[r]
                        },
                ),
                ..self
            },
            Step::AddBias { bias, to } => self.put(to, (k.bias)(bias, self.rows[to])),
            Step::Rotate { row, n_heads, pos } => self.put(
                row,
                (k.rotate)(self.rows[row], n_heads, pos),
            ),
            Step::Store { layer, pos, k: kr, v: vr } => Machine {
                keys: self.keys.insert((layer as int, pos as int), self.rows[kr]),
                values: self.values.insert((layer as int, pos as int), self.rows[vr]),
                ..self
            },
            Step::Attend { layer, pos, q, to } => self.put(
                to,
                (k.attend)(
                    self.rows[q],
                    history(self.keys, layer as int, pos as int),
                    history(self.values, layer as int, pos as int),
                ),
            ),
            Step::Advance { len } => Machine { len: larger(self.len, len as int), ..self },
            Step::Add { to, from } => self.put(to, (k.add)(self.rows[to], self.rows[from])),
            Step::Swiglu { gate, up } => self.put(
                gate,
                (k.swiglu)(self.rows[gate], self.rows[up]),
            ),
            Step::Copy { from, to } => self.put(to, self.rows[from]),
        }
    }

    /// The machine after the first `n` steps of a plan.
    pub open spec fn after_first(self, k: Kernels<V>, steps: Seq<Step>, n: nat) -> Self
        decreases n,
    {
        if n == 0 {
            self
        } else {
            self.after_first(k, steps, (n - 1) as nat).after(k, steps[n - 1])
        }
    }

    /// The machine after a plan.
    pub open spec fn run(self, k: Kernels<V>, steps: Seq<Step>) -> Self {
        self.after_first(k, steps, steps.len())
    }
}

proof fn lemma_after_first_of_more<V>(
    m: Machine<V>,
    k: Kernels<V>,
    a: Seq<Step>,
    b: Seq<Step>,
    n: nat,
)
    requires
        n <= b.len(),
    ensures
        m.after_first(k, a + b, a.len() + n) == m.run(k, a).after_first(k, b, n),
    decreases n,
{
    if n == 0 {
        lemma_after_first_of_prefix(m, k, a, b, a.len());
    } else {
        lemma_after_first_of_more(m, k, a, b, (n - 1) as nat);
        assert((a + b)[a.len() + n - 1] == b[n - 1]);
    }
}

proof fn lemma_after_first_of_prefix<V>(
    m: Machine<V>,
    k: Kernels<V>,
    a: Seq<Step>,
    b: Seq<Step>,
    n: nat,
)
    requires
        n <= a.len(),
    ensures
        m.after_first(k, a + b, n) == m.after_first(k, a, n),
    decreases n,
{
    if n > 0 {
        lemma_after_first_of_prefix(m, k, a, b, (n - 1) as nat);
        assert((a + b)[n - 1] == a[n - 1]);
    }
}

/// Plans run one after the other.
pub proof fn law_plans_compose<V>(m: Machine<V>, k: Kernels<V>, a: Seq<Step>, b: Seq<Step>)
    ensures
        m.run(k, a + b) == m.run(k, a).run(k, b),
{
    lemma_after_first_of_more(m, k, a, b, b.len());
}

/// The queries of a hidden state.
pub open spec fn query_of<V>(k: Kernels<V>, c: ModelConfig, l: int, h: V, pos: int) -> V {
    let x = (k.norm)(NormId::Attn(l as usize), h);
    (k.rotate)(
        (k.bias)(BiasId::Q(l as usize), k.through(MatrixId::AttnQ(l as usize), x)),
        c.head_count,
        pos as usize,
    )
}

/// The keys of a hidden state.
pub open spec fn key_of<V>(k: Kernels<V>, c: ModelConfig, l: int, h: V, pos: int) -> V {
    let x = (k.norm)(NormId::Attn(l as usize), h);
    (k.rotate)(
        (k.bias)(BiasId::K(l as usize), k.through(MatrixId::AttnK(l as usize), x)),
        c.head_count_kv,
        pos as usize,
    )
}

/// The values of a hidden state.
pub open spec fn value_of<V>(k: Kernels<V>, l: int, h: V) -> V {
    let x = (k.norm)(NormId::Attn(l as usize), h);
    (k.bias)(BiasId::V(l as usize), k.through(MatrixId::AttnV(l as usize), x))
}

/// A hidden state with what attention gives added.
pub open spec fn attended<V>(k: Kernels<V>, l: int, h: V, q: V, ks: Seq<V>, vs: Seq<V>) -> V {
    (k.add)(h, k.through(MatrixId::AttnOutput(l as usize), (k.attend)(q, ks, vs)))
}

/// A hidden state with what the feed-forward block gives added.
pub open spec fn fed<V>(k: Kernels<V>, l: int, h: V) -> V {
    let x = (k.norm)(NormId::Ffn(l as usize), h);
    (k.add)(
        h,
        k.through(
            MatrixId::FfnDown(l as usize),
            (k.swiglu)(
                k.through(MatrixId::FfnGate(l as usize), x),
                k.through(MatrixId::FfnUp(l as usize), x),
            ),
        ),
    )
}

/// Logits of a hidden state.
pub open spec fn logits_of<V>(k: Kernels<V>, h: V) -> V {
    k.through(MatrixId::Unembedding, (k.norm)(NormId::Output, h))
}

/// Tokens to be run from a position on, with what is in the cache before.
#[verifier::reject_recursive_types(V)]
pub struct Passage<V> {
    pub k: Kernels<V>,
    pub c: ModelConfig,
    /// How many layers the model has.
    pub layers: nat,
    pub keys: Map<(int, int), V>,
    pub values: Map<(int, int), V>,
    pub tokens: Seq<u32>,
    pub start: int,
}

impl<V> Passage<V> {
    /// The hidden state of token `i` before layer `l`.
    pub open spec fn hidden(self, l: nat, i: int) -> V
        decreases l, 0nat,
    {
        if l == 0 {
            (self.k.embed)(self.tokens[i])
        } else {
            let below = (l - 1) as nat;
            let h = self.hidden(below, i);
            fed(
                self.k,
                l - 1,
                attended(
                    self.k,
                    l - 1,
                    h,
                    query_of(self.k, self.c, l - 1, h, self.start + i),
                    self.keys_seen(below, i),
                    self.values_seen(below, i),
                ),
            )
        }
    }

    /// The keys that token `i` attends to in layer `l`: those of the cache before the
    /// passage, then those of the passage up to the token itself.
    pub open spec fn keys_seen(self, l: nat, i: int) -> Seq<V>
        decreases l, 1nat,
    {
        Seq::new(
            (self.start + i + 1) as nat,
            |p: int|
                if p < self.start {
                    self.keys[(l as int, p)]
                } else {
                    key_of(self.k, self.c, l as int, self.hidden(l, p - self.start), p)
                },
        )
    }

    /// The values that token `i` attends to in layer `l`.
    pub open spec fn values_seen(self, l: nat, i: int) -> Seq<V>
        decreases l, 1nat,
    {
        Seq::new(
            (self.start + i + 1) as nat,
            |p: int|
                if p < self.start {
                    self.values[(l as int, p)]
                } else {
                    value_of(self.k, l as int, self.hidden(l, p - self.start))
                },
        )
    }

    /// The machine's cache holds the passage's keys and values in the cells that
    /// `done` names, and what was there before in the others.
    pub open spec fn cached(self, m: Machine<V>, done: spec_fn(int, int) -> bool) -> bool {
        &&& forall|l: int, p: int|
            #![trigger m.keys[(l, p)]]
            m.keys[(l, p)] == if done(l, p) {
                key_of(self.k, self.c, l, self.hidden(l as nat, p - self.start), p)
            } else {
                self.keys[(l, p)]
            }
        &&& forall|l: int, p: int|
            #![trigger m.values[(l, p)]]
            m.values[(l, p)] == if done(l, p) {
                value_of(self.k, l, self.hidden(l as nat, p - self.start))
            } else {
                self.values[(l, p)]
            }
    }

    pub open spec fn n_layers(self) -> int {
        self.layers as int
    }

    /// The cells of the first `n` tokens in every layer.
    pub open spec fn cells_of(self, n: int) -> spec_fn(int, int) -> bool {
        |l: int, p: int| 0 <= l < self.n_layers() && self.start <= p < self.start + n
    }

    /// The cells of the first `n` tokens in every layer, and of token `n` in the layers
    /// below `li`.
    pub open spec fn cells_of_token(self, n: int, li: int) -> spec_fn(int, int) -> bool {
        |l: int, p: int|
            0 <= l < self.n_layers() && (self.start <= p < self.start + n || (p == self.start + n
                && l < li))
    }

    /// The cells of the first `n` tokens in the layers below `li`.
    pub open spec fn cells_below(self, n: int, li: int) -> spec_fn(int, int) -> bool {
        |l: int, p: int| 0 <= l < li && self.start <= p < self.start + n
    }
}

/// The row 0 of a buffer.
spec fn at<V>(m: Machine<V>, b: Buffer) -> V {
    m.rows[plan::row(b, 0)]
}

proof fn lemma_record<V>(m: Machine<V>, k: Kernels<V>, trace: bool, name: plan::TraceName, b: Buffer)
    ensures
        m.run(k, plan::record(trace, name, b)) == m,
{
    reveal_with_fuel(Machine::after_first, 2);
}

/// What the attention block of one token does.
#[verifier::spinoff_prover]
proof fn lemma_token_attention<V>(m: Machine<V>, k: Kernels<V>, c: ModelConfig, l: int, pos: int)
    requires
        0 <= l <= usize::MAX,
        0 <= pos <= usize::MAX,
    ensures
        ({
            let r = m.run(k, plan::token_attention(c, l, pos));
            let x = at(m, Buffer::Xb);
            let q = (k.rotate)(
                (k.bias)(BiasId::Q(l as usize), k.through(MatrixId::AttnQ(l as usize), x)),
                c.head_count,
                pos as usize,
            );
            let kk = (k.rotate)(
                (k.bias)(BiasId::K(l as usize), k.through(MatrixId::AttnK(l as usize), x)),
                c.head_count_kv,
                pos as usize,
            );
            let vv = (k.bias)(
                BiasId::V(l as usize),
                k.through(MatrixId::AttnV(l as usize), x),
            );
            &&& r.keys == m.keys.insert((l, pos), kk)
            &&& r.values == m.values.insert((l, pos), vv)
            &&& r.len == m.len
            &&& at(r, Buffer::X) == attended(
                k,
                l,
                at(m, Buffer::X),
                q,
                history(r.keys, l, pos),
                history(r.values, l, pos),
            )
        }),
{
    let s = plan::token_attention(c, l, pos);
    reveal_with_fuel(Machine::after_first, 20);
    assert(s.len() == 19);
}

/// What the feed-forward block of one token does.
#[verifier::spinoff_prover]
proof fn lemma_token_ffn<V>(m: Machine<V>, k: Kernels<V>, l: int)
    ensures
        ({
            let r = m.run(k, plan::token_ffn(l));
            let x = at(m, Buffer::Xb);
            &&& r.keys == m.keys
            &&& r.values == m.values
            &&& r.len == m.len
            &&& at(r, Buffer::X) == (k.add)(
                at(m, Buffer::X),
                k.through(
                    MatrixId::FfnDown(l as usize),
                    (k.swiglu)(
                        k.through(MatrixId::FfnGate(l as usize), x),
                        k.through(MatrixId::FfnUp(l as usize), x),
                    ),
                ),
            )
        }),
{
    let s = plan::token_ffn(l);
    reveal_with_fuel(Machine::after_first, 12);
    assert(s.len() == 11);
}

proof fn lemma_one<V>(m: Machine<V>, k: Kernels<V>, s: Step)
    ensures
        m.run(k, seq![s]) == m.after(k, s),
{
    reveal_with_fuel(Machine::after_first, 2);
    assert(seq![s][0] == s);
}

/// What is seen at a layer is what the cache holds there.
proof fn lemma_seen<V>(
    x: Passage<V>,
    m: Machine<V>,
    done: spec_fn(int, int) -> bool,
    l: nat,
    i: int,
)
    requires
        x.cached(m, done),
        0 <= x.start,
        0 <= i,
        forall|p: int| 0 <= p < x.start ==> !(#[trigger] done(l as int, p)),
        forall|p: int| x.start <= p <= x.start + i ==> #[trigger] done(l as int, p),
    ensures
        history(m.keys, l as int, x.start + i) == x.keys_seen(l, i),
        history(m.values, l as int, x.start + i) == x.values_seen(l, i),
{
    let hk = history(m.keys, l as int, x.start + i);
    let hv = history(m.values, l as int, x.start + i);
    assert(hk.len() == x.keys_seen(l, i).len());
    assert forall|p: int| 0 <= p < hk.len() implies hk[p] == x.keys_seen(l, i)[p] && hv[p]
        == x.values_seen(l, i)[p] by {
        assert(m.keys[(l as int, p)] == hk[p]);
        assert(m.values[(l as int, p)] == hv[p]);
    }
    assert(hk =~= x.keys_seen(l, i));
    assert(hv =~= x.values_seen(l, i));
}

impl<V> Passage<V> {
    /// The passage can be counted.
    pub open spec fn valid(self) -> bool {
        &&& 0 <= self.start
        &&& self.start + self.tokens.len() <= usize::MAX
        &&& self.layers <= usize::MAX
    }
}

/// What a layer does for one token.
proof fn lemma_token_layer<V>(x: Passage<V>, m: Machine<V>, i: int, li: int, trace: bool)
    requires
        x.valid(),
        0 <= i < x.tokens.len(),
        0 <= li < x.n_layers(),
        at(m, Buffer::X) == x.hidden(li as nat, i),
        x.cached(m, x.cells_of_token(i, li)),
    ensures
        ({
            let r = m.run(x.k, plan::token_layer(x.c, li, x.start + i, trace));
            &&& at(r, Buffer::X) == x.hidden((li + 1) as nat, i)
            &&& x.cached(r, x.cells_of_token(i, li + 1))
            &&& r.len == m.len
        }),
{
    let k = x.k;
    let l = li as usize;
    let pos = x.start + i;
    let xr = plan::row(Buffer::X, 0);
    let xb = plan::row(Buffer::Xb, 0);
    let s1 = seq![Step::Norm { norm: NormId::Attn(l), from: xr, to: xb }];
    let s2 = plan::record(trace, plan::TraceName::AttnNorm(l), Buffer::Xb);
    let s3 = plan::token_attention(x.c, li, pos);
    let s4 = seq![Step::Norm { norm: NormId::Ffn(l), from: xr, to: xb }];
    let s5 = plan::record(trace, plan::TraceName::FfnNorm(l), Buffer::Xb);
    let s6 = plan::token_ffn(li);
    let s7 = plan::record(trace, plan::TraceName::Hidden((l + 1) as usize), Buffer::X);
    law_plans_compose(m, k, s1 + s2 + s3 + s4 + s5 + s6, s7);
    law_plans_compose(m, k, s1 + s2 + s3 + s4 + s5, s6);
    law_plans_compose(m, k, s1 + s2 + s3 + s4, s5);
    law_plans_compose(m, k, s1 + s2 + s3, s4);
    law_plans_compose(m, k, s1 + s2, s3);
    law_plans_compose(m, k, s1, s2);
    let m1 = m.run(k, s1);
    lemma_one(m, k, s1[0]);
    lemma_record(m1, k, trace, plan::TraceName::AttnNorm(l), Buffer::Xb);
    lemma_token_attention(m1, k, x.c, li, pos);
    let m3 = m1.run(k, s3);
    let h = x.hidden(li as nat, i);
    assert(at(m1, Buffer::Xb) == (k.norm)(NormId::Attn(l), h));
    assert(at(m1, Buffer::X) == h);
    let done = x.cells_of_token(i, li + 1);
    assert(m3.keys == m.keys.insert((li, pos), key_of(k, x.c, li, h, pos)));
    assert(m3.values == m.values.insert((li, pos), value_of(k, li, h)));
    lemma_cell_added(x, m, m3, x.cells_of_token(i, li), done, li, i);
    lemma_seen(x, m3, done, li as nat, i);
    lemma_one(m3, k, s4[0]);
    let m4 = m3.run(k, s4);
    lemma_record(m4, k, trace, plan::TraceName::FfnNorm(l), Buffer::Xb);
    lemma_token_ffn(m4, k, li);
    let m6 = m4.run(k, s6);
    lemma_record(m6, k, trace, plan::TraceName::Hidden((l + 1) as usize), Buffer::X);
    assert(at(m4, Buffer::X) == at(m3, Buffer::X));
    assert(at(m4, Buffer::Xb) == (k.norm)(NormId::Ffn(l), at(m3, Buffer::X)));
    assert(m6 == m.run(k, plan::token_layer(x.c, li, pos, trace)));
}

/// A cell of the passage put into the cache.
proof fn lemma_cell_added<V>(
    x: Passage<V>,
    m: Machine<V>,
    r: Machine<V>,
    before: spec_fn(int, int) -> bool,
    after: spec_fn(int, int) -> bool,
    li: int,
    i: int,
)
    requires
        0 <= li,
        x.cached(m, before),
        r.keys == m.keys.insert(
            (li, x.start + i),
            key_of(x.k, x.c, li, x.hidden(li as nat, i), x.start + i),
        ),
        r.values == m.values.insert(
            (li, x.start + i),
            value_of(x.k, li, x.hidden(li as nat, i)),
        ),
        forall|l: int, p: int| #[trigger]
            after(l, p) == (before(l, p) || (l == li && p == x.start + i)),
    ensures
        x.cached(r, after),
{
    assert forall|l: int, p: int|
        #![trigger r.keys[(l, p)]]
        r.keys[(l, p)] == if after(l, p) {
            key_of(x.k, x.c, l, x.hidden(l as nat, p - x.start), p)
        } else {
            x.keys[(l, p)]
        } by {
        assert(m.keys[(l, p)] == m.keys[(l, p)]);
    }
    assert forall|l: int, p: int|
        #![trigger r.values[(l, p)]]
        r.values[(l, p)] == if after(l, p) {
            value_of(x.k, l, x.hidden(l as nat, p - x.start))
        } else {
            x.values[(l, p)]
        } by {
        assert(m.values[(l, p)] == m.values[(l, p)]);
    }
}

/// What the first `n` layers do for one token.
proof fn lemma_token_layers<V>(x: Passage<V>, m: Machine<V>, i: int, n: nat, trace: bool)
    requires
        x.valid(),
        0 <= i < x.tokens.len(),
        n <= x.n_layers(),
        at(m, Buffer::X) == x.hidden(0, i),
        x.cached(m, x.cells_of_token(i, 0)),
    ensures
        ({
            let r = m.run(
                x.k,
                plan::each(n, plan::token_layers(x.c, x.start + i, trace)),
            );
            &&& at(r, Buffer::X) == x.hidden(n, i)
            &&& x.cached(r, x.cells_of_token(i, n as int))
            &&& r.len == m.len
        }),
    decreases n,
{
    let f = plan::token_layers(x.c, x.start + i, trace);
    if n > 0 {
        let below = (n - 1) as nat;
        lemma_token_layers(x, m, i, below, trace);
        law_plans_compose(m, x.k, plan::each(below, f), f(n - 1));
        lemma_token_layer(x, m.run(x.k, plan::each(below, f)), i, n - 1, trace);
    }
}

/// What the plan of one token does: its keys and values come into the cache of every
/// layer, and the logits are those of its hidden state.
proof fn lemma_token<V>(x: Passage<V>, m: Machine<V>, i: int, trace: bool)
    requires
        x.valid(),
        0 <= i < x.tokens.len(),
        x.cached(m, x.cells_of(i)),
    ensures
        ({
            let r = m.run(x.k, plan::token_steps(x.c, x.layers, x.tokens[i], x.start + i, trace));
            &&& x.cached(r, x.cells_of(i + 1))
            &&& r.len == larger(m.len, x.start + i + 1)
            &&& at(r, Buffer::Logits) == logits_of(x.k, x.hidden(x.n_layers() as nat, i))
        }),
{
    let k = x.k;
    let n = x.layers;
    let pos = x.start + i;
    let token = x.tokens[i];
    let f = plan::token_layers(x.c, pos, trace);
    let a = plan::token_start(token, trace);
    let b = plan::each(n, f);
    let e = plan::token_end(pos, trace);
    law_plans_compose(m, k, a + b, e);
    law_plans_compose(m, k, a, b);
    let m1 = m.run(k, a);
    lemma_token_start(m, k, token, trace);
    lemma_same_cells(x, m, m1, x.cells_of(i), x.cells_of_token(i, 0));
    lemma_token_layers(x, m1, i, n, trace);
    let m2 = m1.run(k, b);
    lemma_token_end(m2, k, pos, trace);
    let r = m2.run(k, e);
    lemma_same_cells(x, m2, r, x.cells_of_token(i, n as int), x.cells_of(i + 1));
}

/// The same cells under another description.
proof fn lemma_same_cells<V>(
    x: Passage<V>,
    m: Machine<V>,
    r: Machine<V>,
    before: spec_fn(int, int) -> bool,
    after: spec_fn(int, int) -> bool,
)
    requires
        x.cached(m, before),
        r.keys == m.keys,
        r.values == m.values,
        forall|l: int, p: int| #[trigger] before(l, p) == after(l, p),
    ensures
        x.cached(r, after),
{
    assert forall|l: int, p: int|
        #![trigger r.keys[(l, p)]]
        r.keys[(l, p)] == if after(l, p) {
            key_of(x.k, x.c, l, x.hidden(l as nat, p - x.start), p)
        } else {
            x.keys[(l, p)]
        } by {
        assert(before(l, p) == after(l, p));
        assert(m.keys[(l, p)] == m.keys[(l, p)]);
    }
    assert forall|l: int, p: int|
        #![trigger r.values[(l, p)]]
        r.values[(l, p)] == if after(l, p) {
            value_of(x.k, l, x.hidden(l as nat, p - x.start))
        } else {
            x.values[(l, p)]
        } by {
        assert(before(l, p) == after(l, p));
        assert(m.values[(l, p)] == m.values[(l, p)]);
    }
}

proof fn lemma_token_start<V>(m: Machine<V>, k: Kernels<V>, token: u32, trace: bool)
    ensures
        ({
            let r = m.run(k, plan::token_start(token, trace));
            &&& r.keys == m.keys
            &&& r.values == m.values
            &&& r.len == m.len
            &&& at(r, Buffer::X) == (k.embed)(token)
        }),
{
    let a = seq![Step::StartTimer, Step::Embed { token, to: plan::row(Buffer::X, 0) }];
    let b = plan::record(trace, plan::TraceName::Hidden(0), Buffer::X);
    let e = seq![Step::Mark(Bucket::Matmul)];
    law_plans_compose(m, k, a + b, e);
    law_plans_compose(m, k, a, b);
    lemma_record(m.run(k, a), k, trace, plan::TraceName::Hidden(0), Buffer::X);
    lemma_one(m.run(k, a), k, e[0]);
    reveal_with_fuel(Machine::after_first, 3);
}

proof fn lemma_token_end<V>(m: Machine<V>, k: Kernels<V>, pos: int, trace: bool)
    requires
        0 <= pos < usize::MAX,
    ensures
        ({
            let r = m.run(k, plan::token_end(pos, trace));
            &&& r.keys == m.keys
            &&& r.values == m.values
            &&& r.len == larger(m.len, pos + 1)
            &&& at(r, Buffer::Logits) == logits_of(k, at(m, Buffer::X))
        }),
{
    let a = seq![
        Step::Advance { len: (pos + 1) as usize },
        Step::Norm {
            norm: NormId::Output,
            from: plan::row(Buffer::X, 0),
            to: plan::row(Buffer::Xb, 0),
        },
    ];
    let b = plan::record(trace, plan::TraceName::FinalNorm, Buffer::Xb);
    let d = seq![
        Step::Mark(Bucket::Other),
        Step::Quantize { from: plan::row(Buffer::Xb, 0), act: Act::Token },
        plan::project(MatrixId::Unembedding, Buffer::Xb, Buffer::Logits),
        Step::Mark(Bucket::Matmul),
    ];
    let e = plan::record(trace, plan::TraceName::Logits, Buffer::Logits);
    law_plans_compose(m, k, a + b + d, e);
    law_plans_compose(m, k, a + b, d);
    law_plans_compose(m, k, a, b);
    lemma_record(m.run(k, a), k, trace, plan::TraceName::FinalNorm, Buffer::Xb);
    lemma_record(m.run(k, a).run(k, d), k, trace, plan::TraceName::Logits, Buffer::Logits);
    reveal_with_fuel(Machine::after_first, 5);
}

/// Normalising and quantising a chunk.
proof fn lemma_norms<V>(m: Machine<V>, k: Kernels<V>, t: nat, norm: NormId)
    requires
        t <= PREFILL_CHUNK,
    ensures
        ({
            let r = m.run(k, plan::each(t, plan::chunk_norms(norm)));
            &&& r.len == m.len
            &&& forall|w: Row| #[trigger] r.rows[w] == if w.buffer == Buffer::BatchXb && w.index < t {
                (k.norm)(norm, m.rows[Row { buffer: Buffer::BatchX, index: w.index }])
            } else {
                m.rows[w]
            }
            &&& forall|j: usize| #[trigger] r.acts[Act::Batch(j)] == if j < t {
                (k.quantize)((k.norm)(norm, m.rows[Row { buffer: Buffer::BatchX, index: j }]))
            } else {
                m.acts[Act::Batch(j)]
            }
            &&& r.keys == m.keys
            &&& r.values == m.values
        }),
    decreases t,
{
    if t > 0 {
        let f = plan::chunk_norms(norm);
        let n = (t - 1) as nat;
        lemma_norms(m, k, n, norm);
        let before = m.run(k, plan::each(n, f));
        law_plans_compose(m, k, plan::each(n, f), f(n as int));
        reveal_with_fuel(Machine::after_first, 3);
        assert(f(n as int).len() == 2);
    }
}

/// Adding biases to a chunk and rotating it.
proof fn lemma_rotates<V>(m: Machine<V>, k: Kernels<V>, t: nat, c: ModelConfig, li: int, start: int)
    requires
        t <= PREFILL_CHUNK,
    ensures
        ({
            let r = m.run(k, plan::each(t, plan::chunk_rotates(c, li, start)));
            &&& r.len == m.len
            &&& forall|w: Row| #[trigger] r.rows[w] == if w.index >= t {
                m.rows[w]
            } else if w.buffer == Buffer::BatchQ {
                (k.rotate)(
                    (k.bias)(BiasId::Q(li as usize), m.rows[w]),
                    c.head_count,
                    (start + w.index) as usize,
                )
            } else if w.buffer == Buffer::BatchK {
                (k.rotate)(
                    (k.bias)(BiasId::K(li as usize), m.rows[w]),
                    c.head_count_kv,
                    (start + w.index) as usize,
                )
            } else if w.buffer == Buffer::BatchV {
                (k.bias)(BiasId::V(li as usize), m.rows[w])
            } else {
                m.rows[w]
            }
            &&& r.acts == m.acts
            &&& r.keys == m.keys
            &&& r.values == m.values
        }),
    decreases t,
{
    if t > 0 {
        let f = plan::chunk_rotates(c, li, start);
        let n = (t - 1) as nat;
        lemma_rotates(m, k, n, c, li, start);
        let before = m.run(k, plan::each(n, f));
        law_plans_compose(m, k, plan::each(n, f), f(n as int));
        reveal_with_fuel(Machine::after_first, 6);
        assert(f(n as int).len() == 5);
    }
}

/// Putting a chunk into the cache.
proof fn lemma_stores<V>(m: Machine<V>, k: Kernels<V>, t: nat, li: int, start: int)
    requires
        t <= PREFILL_CHUNK,
        0 <= li <= usize::MAX,
        0 <= start,
        start + t <= usize::MAX,
    ensures
        ({
            let r = m.run(k, plan::each(t, plan::chunk_stores(li, start)));
            &&& r.len == m.len
            &&& forall|w: Row| #[trigger] r.rows[w] == m.rows[w]
            &&& r.acts == m.acts
            &&& forall|l: int, p: int|
                #![trigger r.keys[(l, p)]]
                r.keys[(l, p)] == if l == li && start <= p < start + t {
                    m.rows[Row { buffer: Buffer::BatchK, index: (p - start) as usize }]
                } else {
                    m.keys[(l, p)]
                }
            &&& forall|l: int, p: int|
                #![trigger r.values[(l, p)]]
                r.values[(l, p)] == if l == li && start <= p < start + t {
                    m.rows[Row { buffer: Buffer::BatchV, index: (p - start) as usize }]
                } else {
                    m.values[(l, p)]
                }
        }),
    decreases t,
{
    if t > 0 {
        let f = plan::chunk_stores(li, start);
        let n = (t - 1) as nat;
        lemma_stores(m, k, n, li, start);
        let before = m.run(k, plan::each(n, f));
        law_plans_compose(m, k, plan::each(n, f), f(n as int));
        reveal_with_fuel(Machine::after_first, 2);
        assert(f(n as int).len() == 1);
    }
}

/// Attending with a chunk.
proof fn lemma_attends<V>(m: Machine<V>, k: Kernels<V>, t: nat, li: int, start: int)
    requires
        t <= PREFILL_CHUNK,
        0 <= li <= usize::MAX,
        0 <= start,
        start + t <= usize::MAX,
    ensures
        ({
            let r = m.run(k, plan::each(t, plan::chunk_attends(li, start)));
            &&& r.len == m.len
            &&& forall|w: Row| #[trigger] r.rows[w] == if w.buffer == Buffer::BatchAttnOut && w.index < t {
                (k.attend)(
                    m.rows[Row { buffer: Buffer::BatchQ, index: w.index }],
                    history(m.keys, li, start + w.index),
                    history(m.values, li, start + w.index),
                )
            } else {
                m.rows[w]
            }
            &&& r.acts == m.acts
            &&& r.keys == m.keys
            &&& r.values == m.values
        }),
    decreases t,
{
    if t > 0 {
        let f = plan::chunk_attends(li, start);
        let n = (t - 1) as nat;
        lemma_attends(m, k, n, li, start);
        let before = m.run(k, plan::each(n, f));
        law_plans_compose(m, k, plan::each(n, f), f(n as int));
        reveal_with_fuel(Machine::after_first, 2);
        assert(f(n as int).len() == 1);
    }
}

/// Quantising what attention gave for a chunk.
proof fn lemma_quantizes<V>(m: Machine<V>, k: Kernels<V>, t: nat)
    requires
        t <= PREFILL_CHUNK,
    ensures
        ({
            let r = m.run(k, plan::each(t, plan::chunk_quantizes()));
            &&& r.len == m.len
            &&& forall|w: Row| #[trigger] r.rows[w] == m.rows[w]
            &&& forall|j: usize| #[trigger] r.acts[Act::Batch(j)] == if j < t {
                (k.quantize)(m.rows[Row { buffer: Buffer::BatchAttnOut, index: j }])
            } else {
                m.acts[Act::Batch(j)]
            }
            &&& r.keys == m.keys
            &&& r.values == m.values
        }),
    decreases t,
{
    if t > 0 {
        let f = plan::chunk_quantizes();
        let n = (t - 1) as nat;
        lemma_quantizes(m, k, n);
        let before = m.run(k, plan::each(n, f));
        law_plans_compose(m, k, plan::each(n, f), f(n as int));
        reveal_with_fuel(Machine::after_first, 2);
        assert(f(n as int).len() == 1);
    }
}

/// Adding what a block gave to the hidden states of a chunk.
proof fn lemma_adds<V>(m: Machine<V>, k: Kernels<V>, t: nat)
    requires
        t <= PREFILL_CHUNK,
    ensures
        ({
            let r = m.run(k, plan::each(t, plan::chunk_adds()));
            &&& r.len == m.len
            &&& forall|w: Row| #[trigger] r.rows[w] == if w.buffer == Buffer::BatchX && w.index < t {
                (k.add)(m.rows[w], m.rows[Row { buffer: Buffer::BatchDown, index: w.index }])
            } else {
                m.rows[w]
            }
            &&& r.acts == m.acts
            &&& r.keys == m.keys
            &&& r.values == m.values
        }),
    decreases t,
{
    if t > 0 {
        let f = plan::chunk_adds();
        let n = (t - 1) as nat;
        lemma_adds(m, k, n);
        let before = m.run(k, plan::each(n, f));
        law_plans_compose(m, k, plan::each(n, f), f(n as int));
        reveal_with_fuel(Machine::after_first, 2);
        assert(f(n as int).len() == 1);
    }
}

/// Gating and quantising a chunk.
proof fn lemma_swiglus<V>(m: Machine<V>, k: Kernels<V>, t: nat)
    requires
        t <= PREFILL_CHUNK,
    ensures
        ({
            let r = m.run(k, plan::each(t, plan::chunk_swiglus()));
            &&& r.len == m.len
            &&& forall|w: Row| #[trigger] r.rows[w] == if w.buffer == Buffer::BatchGate && w.index < t {
                (k.swiglu)(m.rows[w], m.rows[Row { buffer: Buffer::BatchUp, index: w.index }])
            } else {
                m.rows[w]
            }
            &&& forall|j: usize| #[trigger] r.acts[Act::Batch(j)] == if j < t {
                (k.quantize)((k.swiglu)(m.rows[Row { buffer: Buffer::BatchGate, index: j }], m.rows[Row { buffer: Buffer::BatchUp, index: j }]))
            } else {
                m.acts[Act::Batch(j)]
            }
            &&& r.keys == m.keys
            &&& r.values == m.values
        }),
    decreases t,
{
    if t > 0 {
        let f = plan::chunk_swiglus();
        let n = (t - 1) as nat;
        lemma_swiglus(m, k, n);
        let before = m.run(k, plan::each(n, f));
        law_plans_compose(m, k, plan::each(n, f), f(n as int));
        reveal_with_fuel(Machine::after_first, 3);
        assert(f(n as int).len() == 2);
    }
}

/// Embedding a chunk.
proof fn lemma_embeds<V>(m: Machine<V>, k: Kernels<V>, t: nat, tokens: Seq<u32>)
    requires
        t <= PREFILL_CHUNK,
    ensures
        ({
            let r = m.run(k, plan::each(t, plan::chunk_embeds(tokens)));
            &&& r.len == m.len
            &&& forall|w: Row| #[trigger] r.rows[w] == if w.buffer == Buffer::BatchX && w.index < t {
                (k.embed)(tokens[w.index as int])
            } else {
                m.rows[w]
            }
            &&& r.acts == m.acts
            &&& r.keys == m.keys
            &&& r.values == m.values
        }),
    decreases t,
{
    if t > 0 {
        let f = plan::chunk_embeds(tokens);
        let n = (t - 1) as nat;
        lemma_embeds(m, k, n, tokens);
        let before = m.run(k, plan::each(n, f));
        law_plans_compose(m, k, plan::each(n, f), f(n as int));
        reveal_with_fuel(Machine::after_first, 2);
        assert(f(n as int).len() == 1);
    }
}

/// The row of a position of a chunk.
spec fn batch<V>(m: Machine<V>, b: Buffer, j: usize) -> V {
    m.rows[Row { buffer: b, index: j }]
}

/// The first part of the attention block: queries, keys and values.
proof fn lemma_chunk_projections<V>(
    m: Machine<V>,
    k: Kernels<V>,
    c: ModelConfig,
    layers: nat,
    li: int,
    start: int,
    t: nat,
)
    requires
        k.layers_fused(layers),
        layers <= usize::MAX,
        t <= PREFILL_CHUNK,
        0 <= li < layers,
        0 <= start,
        start + t <= usize::MAX,
    ensures
        ({
            let l = li as usize;
            let r = m.run(
                k,
                plan::each(t, plan::chunk_norms(NormId::Attn(l))) + seq![
                    plan::project_batch(MatrixId::AttnQ(l), t, Buffer::BatchQ),
                    plan::project_batch(MatrixId::AttnK(l), t, Buffer::BatchK),
                    plan::project_batch(MatrixId::AttnV(l), t, Buffer::BatchV),
                ] + plan::each(t, plan::chunk_rotates(c, li, start)),
            );
            &&& r.keys == m.keys
            &&& r.values == m.values
            &&& r.len == m.len
            &&& forall|j: usize|
                #![trigger batch(r, Buffer::BatchX, j)]
                j < t ==> batch(r, Buffer::BatchX, j) == batch(m, Buffer::BatchX, j)
            &&& forall|j: usize|
                #![trigger batch(r, Buffer::BatchQ, j)]
                j < t ==> batch(r, Buffer::BatchQ, j) == query_of(
                    k,
                    c,
                    li,
                    batch(m, Buffer::BatchX, j),
                    start + j,
                )
            &&& forall|j: usize|
                #![trigger batch(r, Buffer::BatchK, j)]
                j < t ==> batch(r, Buffer::BatchK, j) == key_of(
                    k,
                    c,
                    li,
                    batch(m, Buffer::BatchX, j),
                    start + j,
                )
            &&& forall|j: usize|
                #![trigger batch(r, Buffer::BatchV, j)]
                j < t ==> batch(r, Buffer::BatchV, j) == value_of(
                    k,
                    li,
                    batch(m, Buffer::BatchX, j),
                )
        }),
{
    let l = li as usize;
    let a = plan::each(t, plan::chunk_norms(NormId::Attn(l)));
    let b = seq![
        plan::project_batch(MatrixId::AttnQ(l), t, Buffer::BatchQ),
        plan::project_batch(MatrixId::AttnK(l), t, Buffer::BatchK),
        plan::project_batch(MatrixId::AttnV(l), t, Buffer::BatchV),
    ];
    let d = plan::each(t, plan::chunk_rotates(c, li, start));
    law_plans_compose(m, k, a + b, d);
    law_plans_compose(m, k, a, b);
    lemma_norms(m, k, t, NormId::Attn(l));
    let m1 = m.run(k, a);
    let m2 = m1.run(k, b);
    assert(b.len() == 3);
    assert(m2 == m1.after(k, b[0]).after(k, b[1]).after(k, b[2])) by {
        reveal_with_fuel(Machine::after_first, 4);
    }
    lemma_rotates(m2, k, t, c, li, start);
}

/// What the attention block does for a chunk.
proof fn lemma_chunk_attention<V>(x: Passage<V>, m: Machine<V>, li: int)
    requires
        x.valid(),
        x.k.layers_fused(x.layers),
        x.tokens.len() <= PREFILL_CHUNK,
        0 <= li < x.n_layers(),
        forall|j: usize|
            j < x.tokens.len() ==> #[trigger] batch(m, Buffer::BatchX, j) == x.hidden(
                li as nat,
                j as int,
            ),
        x.cached(m, x.cells_below(x.tokens.len() as int, li)),
    ensures
        ({
            let r = m.run(x.k, plan::chunk_attention(x.c, li, x.start, x.tokens.len()));
            &&& forall|j: usize|
                #![trigger batch(r, Buffer::BatchX, j)]
                j < x.tokens.len() ==> batch(r, Buffer::BatchX, j) == attended(
                    x.k,
                    li,
                    x.hidden(li as nat, j as int),
                    query_of(x.k, x.c, li, x.hidden(li as nat, j as int), x.start + j),
                    x.keys_seen(li as nat, j as int),
                    x.values_seen(li as nat, j as int),
                )
            &&& x.cached(r, x.cells_below(x.tokens.len() as int, li + 1))
            &&& r.len == larger(m.len, x.start + x.tokens.len())
        }),
{
    let k = x.k;
    let c = x.c;
    let l = li as usize;
    let t = x.tokens.len();
    let start = x.start;
    let s1 = plan::each(t, plan::chunk_norms(NormId::Attn(l))) + seq![
        plan::project_batch(MatrixId::AttnQ(l), t, Buffer::BatchQ),
        plan::project_batch(MatrixId::AttnK(l), t, Buffer::BatchK),
        plan::project_batch(MatrixId::AttnV(l), t, Buffer::BatchV),
    ] + plan::each(t, plan::chunk_rotates(c, li, start));
    let s2 = plan::each(t, plan::chunk_stores(li, start));
    let s3 = seq![Step::Advance { len: (start + t) as usize }];
    let s4 = plan::each(t, plan::chunk_attends(li, start));
    let s5 = plan::each(t, plan::chunk_quantizes());
    let s6 = seq![plan::project_batch(MatrixId::AttnOutput(l), t, Buffer::BatchDown)];
    let s7 = plan::each(t, plan::chunk_adds());
    law_plans_compose(m, k, s1 + s2 + s3 + s4 + s5 + s6, s7);
    law_plans_compose(m, k, s1 + s2 + s3 + s4 + s5, s6);
    law_plans_compose(m, k, s1 + s2 + s3 + s4, s5);
    law_plans_compose(m, k, s1 + s2 + s3, s4);
    law_plans_compose(m, k, s1 + s2, s3);
    law_plans_compose(m, k, s1, s2);
    lemma_chunk_projections(m, k, c, x.layers, li, start, t);
    let m1 = m.run(k, s1);
    lemma_stores(m1, k, t, li, start);
    let m2 = m1.run(k, s2);
    lemma_one(m2, k, s3[0]);
    let m3 = m2.run(k, s3);
    let done = x.cells_below(t as int, li + 1);
    assert(x.cached(m3, done)) by {
        lemma_chunk_cached(x, m, m1, m3, li);
    }
    lemma_attends(m3, k, t, li, start);
    let m4 = m3.run(k, s4);
    lemma_quantizes(m4, k, t);
    let m5 = m4.run(k, s5);
    lemma_one(m5, k, s6[0]);
    let m6 = m5.run(k, s6);
    lemma_adds(m6, k, t);
    let m7 = m6.run(k, s7);
    assert forall|j: usize|
        #![trigger batch(m7, Buffer::BatchX, j)]
        j < t implies batch(m7, Buffer::BatchX, j) == attended(
        k,
        li,
        x.hidden(li as nat, j as int),
        query_of(k, c, li, x.hidden(li as nat, j as int), start + j),
        x.keys_seen(li as nat, j as int),
        x.values_seen(li as nat, j as int),
    ) by {
        let h = x.hidden(li as nat, j as int);
        assert(batch(m, Buffer::BatchX, j) == h);
        assert(batch(m1, Buffer::BatchX, j) == h);
        assert(batch(m1, Buffer::BatchQ, j) == query_of(k, c, li, h, start + j));
        lemma_seen(x, m3, done, li as nat, j as int);
        assert(batch(m4, Buffer::BatchAttnOut, j) == (k.attend)(
            query_of(k, c, li, h, start + j),
            x.keys_seen(li as nat, j as int),
            x.values_seen(li as nat, j as int),
        ));
        assert(m5.acts[Act::Batch(j)] == (k.quantize)(batch(m4, Buffer::BatchAttnOut, j)));
        assert(batch(m6, Buffer::BatchDown, j) == (k.project)(
            MatrixId::AttnOutput(l),
            m5.acts[Act::Batch(j)],
        ));
        assert(batch(m6, Buffer::BatchX, j) == h);
    }
    lemma_same_cells(x, m3, m7, done, done);
}

/// The cells of a chunk in one layer put into the cache.
proof fn lemma_chunk_cached<V>(x: Passage<V>, m: Machine<V>, m1: Machine<V>, r: Machine<V>, li: int)
    requires
        x.valid(),
        x.tokens.len() <= PREFILL_CHUNK,
        0 <= li < x.n_layers(),
        x.cached(m, x.cells_below(x.tokens.len() as int, li)),
        m1.keys == m.keys,
        m1.values == m.values,
        forall|j: usize|
            #![trigger batch(m1, Buffer::BatchK, j)]
            j < x.tokens.len() ==> batch(m1, Buffer::BatchK, j) == key_of(
                x.k,
                x.c,
                li,
                x.hidden(li as nat, j as int),
                x.start + j,
            ),
        forall|j: usize|
            #![trigger batch(m1, Buffer::BatchV, j)]
            j < x.tokens.len() ==> batch(m1, Buffer::BatchV, j) == value_of(
                x.k,
                li,
                x.hidden(li as nat, j as int),
            ),
        forall|l: int, p: int|
            #![trigger r.keys[(l, p)]]
            r.keys[(l, p)] == if l == li && x.start <= p < x.start + x.tokens.len() {
                batch(m1, Buffer::BatchK, (p - x.start) as usize)
            } else {
                m1.keys[(l, p)]
            },
        forall|l: int, p: int|
            #![trigger r.values[(l, p)]]
            r.values[(l, p)] == if l == li && x.start <= p < x.start + x.tokens.len() {
                batch(m1, Buffer::BatchV, (p - x.start) as usize)
            } else {
                m1.values[(l, p)]
            },
    ensures
        x.cached(r, x.cells_below(x.tokens.len() as int, li + 1)),
{
    let done = x.cells_below(x.tokens.len() as int, li + 1);
    assert forall|l: int, p: int|
        #![trigger r.keys[(l, p)]]
        r.keys[(l, p)] == if done(l, p) {
            key_of(x.k, x.c, l, x.hidden(l as nat, p - x.start), p)
        } else {
            x.keys[(l, p)]
        } by {
        assert(m.keys[(l, p)] == m1.keys[(l, p)]);
    }
    assert forall|l: int, p: int|
        #![trigger r.values[(l, p)]]
        r.values[(l, p)] == if done(l, p) {
            value_of(x.k, l, x.hidden(l as nat, p - x.start))
        } else {
            x.values[(l, p)]
        } by {
        assert(m.values[(l, p)] == m1.values[(l, p)]);
    }
}

/// What the feed-forward block does for a chunk.
proof fn lemma_chunk_ffn<V>(m: Machine<V>, k: Kernels<V>, layers: nat, li: int, t: nat)
    requires
        k.layers_fused(layers),
        layers <= usize::MAX,
        0 <= li < layers,
        t <= PREFILL_CHUNK,
    ensures
        ({
            let l = li as usize;
            let r = m.run(
                k,
                plan::each(t, plan::chunk_norms(NormId::Ffn(l))),
            ).run(
                k,
                seq![
                    plan::project_batch(MatrixId::FfnGate(l), t, Buffer::BatchGate),
                    plan::project_batch(MatrixId::FfnUp(l), t, Buffer::BatchUp),
                ],
            ).run(k, plan::each(t, plan::chunk_swiglus())).run(
                k,
                seq![plan::project_batch(MatrixId::FfnDown(l), t, Buffer::BatchDown)],
            ).run(k, plan::each(t, plan::chunk_adds()));
            &&& r.keys == m.keys
            &&& r.values == m.values
            &&& r.len == m.len
            &&& forall|j: usize|
                #![trigger batch(r, Buffer::BatchX, j)]
                j < t ==> batch(r, Buffer::BatchX, j) == fed(k, li, batch(m, Buffer::BatchX, j))
        }),
{
    let l = li as usize;
    lemma_norms(m, k, t, NormId::Ffn(l));
    let m1 = m.run(k, plan::each(t, plan::chunk_norms(NormId::Ffn(l))));
    let b = seq![
        plan::project_batch(MatrixId::FfnGate(l), t, Buffer::BatchGate),
        plan::project_batch(MatrixId::FfnUp(l), t, Buffer::BatchUp),
    ];
    let m2 = m1.run(k, b);
    assert(b.len() == 2);
    assert(m2 == m1.after(k, b[0]).after(k, b[1])) by {
        reveal_with_fuel(Machine::after_first, 3);
    }
    lemma_swiglus(m2, k, t);
    let m3 = m2.run(k, plan::each(t, plan::chunk_swiglus()));
    let d = seq![plan::project_batch(MatrixId::FfnDown(l), t, Buffer::BatchDown)];
    lemma_one(m3, k, d[0]);
    let m4 = m3.run(k, d);
    lemma_adds(m4, k, t);
    let m5 = m4.run(k, plan::each(t, plan::chunk_adds()));
    assert forall|j: usize|
        #![trigger batch(m5, Buffer::BatchX, j)]
        j < t implies batch(m5, Buffer::BatchX, j) == fed(k, li, batch(m, Buffer::BatchX, j)) by {
        let h = batch(m, Buffer::BatchX, j);
        let a = (k.quantize)((k.norm)(NormId::Ffn(l), h));
        assert(m1.acts[Act::Batch(j)] == a);
        assert(batch(m2, Buffer::BatchGate, j) == (k.project)(MatrixId::FfnGate(l), a));
        assert(batch(m2, Buffer::BatchUp, j) == (k.project)(MatrixId::FfnUp(l), a));
        assert(m3.acts[Act::Batch(j)] == (k.quantize)(
            (k.swiglu)(batch(m2, Buffer::BatchGate, j), batch(m2, Buffer::BatchUp, j)),
        ));
        assert(batch(m4, Buffer::BatchDown, j) == (k.project)(
            MatrixId::FfnDown(l),
            m3.acts[Act::Batch(j)],
        ));
        assert(batch(m4, Buffer::BatchX, j) == h);
    }
}

/// What a layer does for a chunk.
proof fn lemma_chunk_layer<V>(x: Passage<V>, m: Machine<V>, li: int)
    requires
        x.valid(),
        x.k.layers_fused(x.layers),
        x.tokens.len() <= PREFILL_CHUNK,
        0 <= li < x.n_layers(),
        forall|j: usize|
            j < x.tokens.len() ==> #[trigger] batch(m, Buffer::BatchX, j) == x.hidden(
                li as nat,
                j as int,
            ),
        x.cached(m, x.cells_below(x.tokens.len() as int, li)),
    ensures
        ({
            let r = m.run(x.k, plan::chunk_layer(x.c, li, x.start, x.tokens.len()));
            &&& forall|j: usize|
                j < x.tokens.len() ==> #[trigger] batch(r, Buffer::BatchX, j) == x.hidden(
                    (li + 1) as nat,
                    j as int,
                )
            &&& x.cached(r, x.cells_below(x.tokens.len() as int, li + 1))
            &&& r.len == larger(m.len, x.start + x.tokens.len())
        }),
{
    let k = x.k;
    let l = li as usize;
    let t = x.tokens.len();
    let a = plan::chunk_attention(x.c, li, x.start, t);
    let b = plan::each(t, plan::chunk_norms(NormId::Ffn(l)));
    let d = seq![
        plan::project_batch(MatrixId::FfnGate(l), t, Buffer::BatchGate),
        plan::project_batch(MatrixId::FfnUp(l), t, Buffer::BatchUp),
    ];
    let e = plan::each(t, plan::chunk_swiglus());
    let f = seq![plan::project_batch(MatrixId::FfnDown(l), t, Buffer::BatchDown)];
    let g = plan::each(t, plan::chunk_adds());
    assert(plan::chunk_layer(x.c, li, x.start, t) == a + b + d + e + f + g);
    law_plans_compose(m, k, a + b + d + e + f, g);
    law_plans_compose(m, k, a + b + d + e, f);
    law_plans_compose(m, k, a + b + d, e);
    law_plans_compose(m, k, a + b, d);
    law_plans_compose(m, k, a, b);
    lemma_chunk_attention(x, m, li);
    let m1 = m.run(k, a);
    lemma_chunk_ffn(m1, k, x.layers, li, t);
    let r = m.run(k, plan::chunk_layer(x.c, li, x.start, t));
    assert forall|j: usize| j < t implies #[trigger] batch(r, Buffer::BatchX, j) == x.hidden(
        (li + 1) as nat,
        j as int,
    ) by {
        assert(batch(r, Buffer::BatchX, j) == fed(k, li, batch(m1, Buffer::BatchX, j)));
    }
    let done = x.cells_below(t as int, li + 1);
    lemma_same_cells(x, m1, r, done, done);
}

/// What the first `n` layers do for a chunk.
proof fn lemma_chunk_layers<V>(x: Passage<V>, m: Machine<V>, n: nat)
    requires
        x.valid(),
        x.k.layers_fused(x.layers),
        x.tokens.len() <= PREFILL_CHUNK,
        n <= x.n_layers(),
        forall|j: usize|
            j < x.tokens.len() ==> #[trigger] batch(m, Buffer::BatchX, j) == x.hidden(0, j as int),
        x.cached(m, x.cells_below(x.tokens.len() as int, 0)),
    ensures
        ({
            let r = m.run(x.k, plan::each(n, plan::chunk_layers(x.c, x.start, x.tokens.len())));
            &&& forall|j: usize|
                j < x.tokens.len() ==> #[trigger] batch(r, Buffer::BatchX, j) == x.hidden(
                    n,
                    j as int,
                )
            &&& x.cached(r, x.cells_below(x.tokens.len() as int, n as int))
            &&& n > 0 ==> r.len == larger(m.len, x.start + x.tokens.len())
        }),
    decreases n,
{
    let f = plan::chunk_layers(x.c, x.start, x.tokens.len());
    if n > 0 {
        let below = (n - 1) as nat;
        lemma_chunk_layers(x, m, below);
        law_plans_compose(m, x.k, plan::each(below, f), f(n - 1));
        lemma_chunk_layer(x, m.run(x.k, plan::each(below, f)), n - 1);
    }
}

/// What the plan of a chunk does: the keys and values of its tokens come into the cache
/// of every layer, and the logits, where wanted, are those of its last token.
proof fn lemma_chunk<V>(x: Passage<V>, m: Machine<V>, want_logits: bool)
    requires
        x.valid(),
        x.k.layers_fused(x.layers),
        0 < x.tokens.len() <= PREFILL_CHUNK,
        x.n_layers() > 0,
        m.keys == x.keys,
        m.values == x.values,
    ensures
        ({
            let r = m.run(x.k, plan::chunk_steps(x.c, x.layers, x.tokens, x.start, want_logits));
            let t = x.tokens.len() as int;
            &&& x.cached(r, x.cells_of(t))
            &&& r.len == larger(m.len, x.start + t)
            &&& want_logits ==> at(r, Buffer::Logits) == logits_of(
                x.k,
                x.hidden(x.n_layers() as nat, t - 1),
            )
        }),
{
    let k = x.k;
    let t = x.tokens.len();
    let n = x.layers;
    let a = plan::each(t, plan::chunk_embeds(x.tokens));
    let b = plan::each(n, plan::chunk_layers(x.c, x.start, t));
    let e = plan::chunk_end(t, want_logits);
    law_plans_compose(m, k, a + b, e);
    law_plans_compose(m, k, a, b);
    lemma_embeds(m, k, t, x.tokens);
    let m1 = m.run(k, a);
    assert forall|j: usize| j < t implies #[trigger] batch(m1, Buffer::BatchX, j) == x.hidden(
        0,
        j as int,
    ) by {}
    assert(x.cached(m1, x.cells_below(t as int, 0)));
    lemma_chunk_layers(x, m1, n);
    let m2 = m1.run(k, b);
    let r = m2.run(k, e);
    let last = (t - 1) as usize;
    assert(batch(m2, Buffer::BatchX, last) == x.hidden(n, t - 1));
    assert(r.keys == m2.keys && r.values == m2.values && r.len == m2.len && (want_logits ==> at(
        r,
        Buffer::Logits,
    ) == logits_of(k, batch(m2, Buffer::BatchX, last)))) by {
        reveal_with_fuel(Machine::after_first, 5);
    }
    lemma_same_cells(x, m2, r, x.cells_below(t as int, n as int), x.cells_of(t as int));
}

/// The plan of a piece of a prompt.
pub open spec fn steps_of(c: ModelConfig, layers: nat, tokens: Seq<u32>, w: Work) -> Seq<Step> {
    match w {
        Work::Token { index, pos, trace } => plan::token_steps(
            c,
            layers,
            tokens[index as int],
            pos as int,
            trace,
        ),
        Work::Chunk { from, to, pos, want_logits } => plan::chunk_steps(
            c,
            layers,
            tokens.subrange(from as int, to as int),
            pos as int,
            want_logits,
        ),
    }
}

impl<V> Machine<V> {
    /// The machine after the first `n` pieces of a prompt.
    pub open spec fn after_pieces(
        self,
        k: Kernels<V>,
        c: ModelConfig,
        layers: nat,
        tokens: Seq<u32>,
        pieces: Seq<Work>,
        n: nat,
    ) -> Self
        decreases n,
    {
        if n == 0 {
            self
        } else {
            self.after_pieces(k, c, layers, tokens, pieces, (n - 1) as nat).run(
                k,
                steps_of(c, layers, tokens, pieces[n - 1]),
            )
        }
    }

    /// The machine after a prompt.
    pub open spec fn after_prompt(
        self,
        k: Kernels<V>,
        c: ModelConfig,
        layers: nat,
        tokens: Seq<u32>,
        pieces: Seq<Work>,
    ) -> Self {
        self.after_pieces(k, c, layers, tokens, pieces, pieces.len())
    }

    /// Two machines hold the same keys and values, and as many positions of them.
    pub open spec fn same_cache(self, other: Self) -> bool {
        &&& forall|l: int, p: int| #[trigger] self.keys[(l, p)] == other.keys[(l, p)]
        &&& forall|l: int, p: int| #[trigger] self.values[(l, p)] == other.values[(l, p)]
        &&& self.len == other.len
    }

    /// The logits.
    pub open spec fn logits(self) -> V {
        self.rows[plan::row(Buffer::Logits, 0)]
    }
}

/// What running `n` tokens of a passage one by one does.
proof fn lemma_tokens<V>(
    x: Passage<V>,
    m: Machine<V>,
    all: Seq<u32>,
    from: nat,
    first: int,
    n: nat,
)
    requires
        x.valid(),
        0 <= first,
        first + all.len() <= usize::MAX,
        from + x.tokens.len() <= all.len(),
        x.tokens == all.subrange(from as int, (from + x.tokens.len()) as int),
        x.start == first + from,
        n <= x.tokens.len(),
        x.cached(
            m.after_pieces(
                x.k,
                x.c,
                x.layers,
                all,
                runner::token_by_token(all.len(), first, false),
                from,
            ),
            x.cells_of(0),
        ),
    ensures
        ({
            let pieces = runner::token_by_token(all.len(), first, false);
            let b = m.after_pieces(x.k, x.c, x.layers, all, pieces, from);
            let r = m.after_pieces(x.k, x.c, x.layers, all, pieces, from + n);
            &&& x.cached(r, x.cells_of(n as int))
            &&& n > 0 ==> r.len == larger(b.len, x.start + n)
            &&& n > 0 ==> r.logits() == logits_of(x.k, x.hidden(x.n_layers() as nat, n - 1))
        }),
    decreases n,
{
    if n > 0 {
        let pieces = runner::token_by_token(all.len(), first, false);
        let i = (n - 1) as nat;
        lemma_tokens(x, m, all, from, first, i);
        let before = m.after_pieces(x.k, x.c, x.layers, all, pieces, from + i);
        assert(pieces[(from + i) as int] == Work::Token {
            index: (from + i) as usize,
            pos: (first + from + i) as usize,
            trace: false,
        });
        assert(x.tokens[i as int] == all[(from + i) as int]);
        lemma_token(x, before, i as int, false);
    }
}

/// After as many chunks as make `n` tokens, the cache is what it is after `n` tokens
/// one by one.
proof fn lemma_chunks<V>(
    m: Machine<V>,
    k: Kernels<V>,
    c: ModelConfig,
    layers: nat,
    tokens: Seq<u32>,
    start: int,
    ci: nat,
)
    requires
        0 <= start,
        start + tokens.len() <= usize::MAX,
        0 < layers <= usize::MAX,
        k.layers_fused(layers),
        ci <= runner::n_chunks(tokens.len()),
    ensures
        ({
            let n = tokens.len();
            let done = if ci * PREFILL_CHUNK <= n {
                ci * PREFILL_CHUNK
            } else {
                n as int
            };
            let a = m.after_pieces(k, c, layers, tokens, runner::chunk_by_chunk(n, start), ci);
            let b = m.after_pieces(
                k,
                c,
                layers,
                tokens,
                runner::token_by_token(n, start, false),
                done as nat,
            );
            &&& a.same_cache(b)
            &&& ci > 0 && ci == runner::n_chunks(n) ==> a.logits() == b.logits()
        }),
    decreases ci,
{
    if ci > 0 {
        let n = tokens.len();
        let below = (ci - 1) as nat;
        lemma_chunks(m, k, c, layers, tokens, start, below);
        runner::law_chunks_cover_the_prompt(n, start, ci - 1);
        let from = (below * PREFILL_CHUNK) as nat;
        let to = if ci < runner::n_chunks(n) {
            (ci * PREFILL_CHUNK) as nat
        } else {
            n
        };
        let chunks = runner::chunk_by_chunk(n, start);
        let single = runner::token_by_token(n, start, false);
        let a = m.after_pieces(k, c, layers, tokens, chunks, below);
        let b = m.after_pieces(k, c, layers, tokens, single, from);
        let x = Passage {
            k,
            c,
            layers,
            keys: a.keys,
            values: a.values,
            tokens: tokens.subrange(from as int, to as int),
            start: start + from,
        };
        let t = (to - from) as nat;
        let want = ci == runner::n_chunks(n);
        assert(chunks[below as int] == Work::Chunk {
            from: from as usize,
            to: to as usize,
            pos: (start + from) as usize,
            want_logits: want,
        });
        lemma_chunk(x, a, want);
        assert(x.cached(b, x.cells_of(0)));
        lemma_tokens(x, m, tokens, from, start, t);
        let a2 = m.after_pieces(k, c, layers, tokens, chunks, ci);
        let b2 = m.after_pieces(k, c, layers, tokens, single, to);
        assert(from + t == to);
        assert(a2 == a.run(k, plan::chunk_steps(c, layers, x.tokens, x.start, want)));
        assert forall|l: int, p: int| #[trigger] a2.keys[(l, p)] == b2.keys[(l, p)] by {
            assert(b2.keys[(l, p)] == b2.keys[(l, p)]);
        }
        assert forall|l: int, p: int| #[trigger] a2.values[(l, p)] == b2.values[(l, p)] by {
            assert(b2.values[(l, p)] == b2.values[(l, p)]);
        }
    }
}

impl<V> Kernels<V> {
    /// The projections run as a model has it.
    pub open spec fn suit<T: Copy>(self, model: Model<'_, T>) -> bool {
        forall|id: MatrixId| #[trigger]
            (self.fused)(id) == runner::fused_for(model.fused, model.format(id))
    }
}

/// Where a model can batch its projections, all of them run on quantised vectors.
proof fn lemma_batchable<T: Copy, V>(model: Model<'_, T>, k: Kernels<V>)
    requires
        k.suit(model),
        model.batchable(),
    ensures
        k.layers_fused(model.weights.layers@.len()),
{
    let n = model.weights.layers@.len();
    assert forall|id: MatrixId| of_layers(id, n) implies #[trigger] (k.fused)(id) by {
        let (l, j) = match id {
            MatrixId::AttnQ(l) => (l, 0int),
            MatrixId::AttnK(l) => (l, 1int),
            MatrixId::AttnV(l) => (l, 2int),
            MatrixId::AttnOutput(l) => (l, 3int),
            MatrixId::FfnGate(l) => (l, 4int),
            MatrixId::FfnUp(l) => (l, 5int),
            MatrixId::FfnDown(l) => (l, 6int),
            MatrixId::Unembedding => (0usize, 0int),
        };
        let layer = model.weights.layers@[l as int];
        assert(runner::layer_fused(model.fused, layer));
        assert(runner::fused_for(model.fused, layer.types()[j]));
    }
}

/// Prefill gives what running the tokens one by one gives, bit for bit, whatever the
/// settings are and whatever the kernels do: the same keys and values in the same cells,
/// as many positions, and the same logits.
pub proof fn law_prefill_is_bit_identical<T: Copy, V>(
    model: Model<'_, T>,
    m: Machine<V>,
    k: Kernels<V>,
    tokens: Seq<u32>,
    start: int,
)
    requires
        k.suit(model),
        model.weights.layers@.len() > 0,
        tokens.len() > 0,
        0 <= start,
        start + tokens.len() <= usize::MAX,
    ensures
        ({
            let c = model.weights.config;
            let layers = model.weights.layers@.len();
            let n = tokens.len();
            let prefilled = m.after_prompt(k, c, layers, tokens, model.prefill_work(n, start));
            let single = m.after_prompt(k, c, layers, tokens, runner::token_by_token(n, start, false));
            prefilled.same_cache(single) && prefilled.logits() == single.logits()
        }),
{
    if model.batched_prefill && model.batchable() {
        lemma_batchable(model, k);
        assert(model.weights.layers.len() == model.weights.layers@.len());
        lemma_chunks(
            m,
            k,
            model.weights.config,
            model.weights.layers@.len(),
            tokens,
            start,
            runner::n_chunks(tokens.len()),
        );
    }
}

/// What a token's logits and cache cells are depends on the cache before it alone, not on
/// what the buffers held.
pub proof fn law_buffers_do_not_matter<V>(
    a: Machine<V>,
    b: Machine<V>,
    k: Kernels<V>,
    c: ModelConfig,
    layers: nat,
    token: u32,
    pos: int,
)
    requires
        a.same_cache(b),
        0 <= pos < usize::MAX,
        layers <= usize::MAX,
    ensures
        ({
            let steps = plan::token_steps(c, layers, token, pos, false);
            a.run(k, steps).same_cache(b.run(k, steps)) && a.run(k, steps).logits() == b.run(
                k,
                steps,
            ).logits()
        }),
{
    let x = Passage { k, c, layers, keys: a.keys, values: a.values, tokens: seq![token], start: pos };
    assert(x.cached(a, x.cells_of(0)));
    assert(x.cached(b, x.cells_of(0)));
    lemma_token(x, a, 0, false);
    lemma_token(x, b, 0, false);
    let steps = plan::token_steps(c, layers, token, pos, false);
    let r = a.run(k, steps);
    let s = b.run(k, steps);
    assert forall|l: int, p: int| #[trigger] r.keys[(l, p)] == s.keys[(l, p)] by {
        assert(s.keys[(l, p)] == s.keys[(l, p)]);
    }
    assert forall|l: int, p: int| #[trigger] r.values[(l, p)] == s.values[(l, p)] by {
        assert(s.values[(l, p)] == s.values[(l, p)]);
    }
}

/// A trace changes nothing but what is recorded.
pub proof fn law_tracing_changes_nothing<V>(
    m: Machine<V>,
    k: Kernels<V>,
    c: ModelConfig,
    layers: nat,
    token: u32,
    pos: int,
)
    requires
        0 <= pos < usize::MAX,
        layers <= usize::MAX,
    ensures
        ({
            let traced = m.run(k, plan::token_steps(c, layers, token, pos, true));
            let plain = m.run(k, plan::token_steps(c, layers, token, pos, false));
            traced.same_cache(plain) && traced.logits() == plain.logits()
        }),
{
    let x = Passage { k, c, layers, keys: m.keys, values: m.values, tokens: seq![token], start: pos };
    assert(x.cached(m, x.cells_of(0)));
    lemma_token(x, m, 0, true);
    lemma_token(x, m, 0, false);
    let r = m.run(k, plan::token_steps(c, layers, token, pos, true));
    let s = m.run(k, plan::token_steps(c, layers, token, pos, false));
    assert forall|l: int, p: int| #[trigger] r.keys[(l, p)] == s.keys[(l, p)] by {
        assert(s.keys[(l, p)] == s.keys[(l, p)]);
    }
    assert forall|l: int, p: int| #[trigger] r.values[(l, p)] == s.values[(l, p)] by {
        assert(s.values[(l, p)] == s.values[(l, p)]);
    }
}

/// What the hidden states of a passage are.  A token starts as its embedding.  Each layer
/// adds to it what attention makes of its normed state, with the queries rotated for its
/// position, and the keys and values of the positions up to its own; and then what the gated
/// feed-forward block makes of the normed sum.  Keys are rotated for their positions, values
/// never are, and each projection runs on the quantised vector exactly where it is fused.
pub proof fn law_layers_compute_the_transformer<V>(x: Passage<V>, l: nat, i: int, p: int)
    requires
        0 <= x.start,
        0 <= i,
        0 <= p <= x.start + i,
    ensures
        x.hidden(0, i) == (x.k.embed)(x.tokens[i]),
        x.hidden(l + 1, i) == ({
            let k = x.k;
            let u = l as usize;
            let h = x.hidden(l, i);
            let a = (k.norm)(NormId::Attn(u), h);
            let q = (k.rotate)(
                (k.bias)(BiasId::Q(u), k.through(MatrixId::AttnQ(u), a)),
                x.c.head_count,
                (x.start + i) as usize,
            );
            let seen = (k.attend)(q, x.keys_seen(l, i), x.values_seen(l, i));
            let s = (k.add)(h, k.through(MatrixId::AttnOutput(u), seen));
            let f = (k.norm)(NormId::Ffn(u), s);
            let gated = (k.swiglu)(
                k.through(MatrixId::FfnGate(u), f),
                k.through(MatrixId::FfnUp(u), f),
            );
            (k.add)(s, k.through(MatrixId::FfnDown(u), gated))
        }),
        x.keys_seen(l, i).len() == x.start + i + 1,
        x.keys_seen(l, i)[p] == (if p < x.start {
            x.keys[(l as int, p)]
        } else {
            (x.k.rotate)(
                (x.k.bias)(
                    BiasId::K(l as usize),
                    x.k.through(
                        MatrixId::AttnK(l as usize),
                        (x.k.norm)(NormId::Attn(l as usize), x.hidden(l, p - x.start)),
                    ),
                ),
                x.c.head_count_kv,
                p as usize,
            )
        }),
        x.values_seen(l, i).len() == x.start + i + 1,
        x.values_seen(l, i)[p] == (if p < x.start {
            x.values[(l as int, p)]
        } else {
            (x.k.bias)(
                BiasId::V(l as usize),
                x.k.through(
                    MatrixId::AttnV(l as usize),
                    (x.k.norm)(NormId::Attn(l as usize), x.hidden(l, p - x.start)),
                ),
            )
        }),
        forall|id: MatrixId, y: V| #[trigger]
            x.k.through(id, y) == (if (x.k.fused)(id) {
                (x.k.project)(id, (x.k.quantize)(y))
            } else {
                (x.k.exact)(id, y)
            }),
{
}

/// What running one token at a position does, whether it is traced or not: its logits are
/// the unembedding of its normed hidden state behind the last layer, its keys and values come
/// into the cache of every layer, and nothing else of the cache changes.
pub proof fn law_a_token_goes_through_the_transformer<V>(
    x: Passage<V>,
    m: Machine<V>,
    trace: bool,
    l: int,
    p: int,
)
    requires
        0 <= x.start < usize::MAX,
        x.layers <= usize::MAX,
        x.tokens.len() == 1,
        m.keys == x.keys,
        m.values == x.values,
    ensures
        ({
            let r = m.run(x.k, plan::token_steps(x.c, x.layers, x.tokens[0], x.start, trace));
            let own = 0 <= l < x.layers && p == x.start;
            &&& r.logits() == x.k.through(
                MatrixId::Unembedding,
                (x.k.norm)(NormId::Output, x.hidden(x.layers, 0)),
            )
            &&& r.keys[(l, p)] == (if own {
                x.keys_seen(l as nat, 0)[p]
            } else {
                m.keys[(l, p)]
            })
            &&& r.values[(l, p)] == (if own {
                x.values_seen(l as nat, 0)[p]
            } else {
                m.values[(l, p)]
            })
            &&& r.len == (if m.len >= x.start + 1 {
                m.len
            } else {
                x.start + 1
            })
        }),
{
    assert(x.cached(m, x.cells_of(0)));
    lemma_token(x, m, 0, trace);
}

/// What running a prompt behind what the cache holds does, in chunks or token by token: the
/// logits are the unembedding of the last token's normed hidden state behind the last layer,
/// the keys and values of every token come into the cache of every layer, and nothing else
/// of the cache changes.
pub proof fn law_a_prompt_goes_through_the_transformer<T: Copy, V>(
    model: Model<'_, T>,
    x: Passage<V>,
    m: Machine<V>,
    l: int,
    p: int,
)
    requires
        x.k.suit(model),
        x.c == model.weights.config,
        x.layers == model.weights.layers@.len(),
        x.layers > 0,
        x.tokens.len() > 0,
        0 <= x.start,
        x.start + x.tokens.len() <= usize::MAX,
        m.keys == x.keys,
        m.values == x.values,
    ensures
        ({
            let n = x.tokens.len();
            let chunked = m.after_prompt(
                x.k,
                x.c,
                x.layers,
                x.tokens,
                model.prefill_work(n, x.start),
            );
            let single = m.after_prompt(
                x.k,
                x.c,
                x.layers,
                x.tokens,
                runner::token_by_token(n, x.start, false),
            );
            let own = 0 <= l < x.layers && x.start <= p < x.start + n;
            let logits = x.k.through(
                MatrixId::Unembedding,
                (x.k.norm)(NormId::Output, x.hidden(x.layers, n - 1)),
            );
            let key = if own {
                x.keys_seen(l as nat, n - 1)[p]
            } else {
                m.keys[(l, p)]
            };
            let value = if own {
                x.values_seen(l as nat, n - 1)[p]
            } else {
                m.values[(l, p)]
            };
            let len = if m.len >= x.start + n {
                m.len
            } else {
                x.start + n
            };
            &&& single.logits() == logits && chunked.logits() == logits
            &&& single.keys[(l, p)] == key && chunked.keys[(l, p)] == key
            &&& single.values[(l, p)] == value && chunked.values[(l, p)] == value
            &&& single.len == len && chunked.len == len
        }),
{
    let n = x.tokens.len();
    assert(model.weights.layers.len() == model.weights.layers@.len());
    assert(x.tokens =~= x.tokens.subrange(0, n as int));
    assert(x.cached(m, x.cells_of(0)));
    lemma_tokens(x, m, x.tokens, 0, x.start, n);
    law_prefill_is_bit_identical(model, m, x.k, x.tokens, x.start);
    let pieces = runner::token_by_token(n, x.start, false);
    assert(pieces.len() == n);
    let single = m.after_prompt(x.k, x.c, x.layers, x.tokens, pieces);
    let chunked = m.after_prompt(x.k, x.c, x.layers, x.tokens, model.prefill_work(n, x.start));
    assert(single.keys[(l, p)] == single.keys[(l, p)]);
    assert(chunked.keys[(l, p)] == single.keys[(l, p)]);
    assert(chunked.values[(l, p)] == single.values[(l, p)]);
}

} // verus!
