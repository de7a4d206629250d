//! What a traced run keeps, and where a model's numbers stand.
use super::plan;
use super::plan::{Bucket, Buffer, MatrixId, NormId, Row, Step, TraceName, Widths, PREFILL_CHUNK};
use super::runner;
use super::weights;
use super::weights::{LayerWeights, ModelWeights};
use super::workspace;
use super::workspace::Workspace;
use crate::gguf::{GgmlType, ModelConfig};
use crate::text;
use vstd::prelude::*;

verus! {

/// The row of a buffer that a single token uses.
pub open spec fn only_row(buffer: Buffer) -> Row {
    Row { buffer, index: 0 }
}

/// A layer's records stand right behind what they are named after: the two norms behind their
/// results, and the hidden state at the very end, behind the last sum.
pub proof fn law_layers_record_what_they_compute(c: ModelConfig, layer: usize, pos: int)
    requires
        layer < usize::MAX,
    ensures
        ({
            let s = plan::token_layer(c, layer as int, pos, true);
            let x = only_row(Buffer::X);
            let xb = only_row(Buffer::Xb);
            &&& s.len() == 35
            &&& s[0] == (Step::Norm { norm: NormId::Attn(layer), from: x, to: xb })
            &&& s[1] == (Step::Record { name: TraceName::AttnNorm(layer), from: xb })
            &&& s[21] == (Step::Norm { norm: NormId::Ffn(layer), from: x, to: xb })
            &&& s[22] == (Step::Record { name: TraceName::FfnNorm(layer), from: xb })
            &&& s[32] == (Step::Add { to: x, from: only_row(Buffer::Xb2) })
            &&& s[34] == (Step::Record { name: TraceName::Hidden((layer + 1) as usize), from: x })
        }),
{
    let s = plan::token_layer(c, layer as int, pos, true);
    assert(plan::token_attention(c, layer as int, pos).len() == 19);
    assert(plan::token_ffn(layer as int).len() == 11);
    assert(plan::token_ffn(layer as int)[9] == (Step::Add {
        to: only_row(Buffer::X),
        from: only_row(Buffer::Xb2),
    }));
}

/// The hidden state before the first layer is recorded behind the embedding, the last norm
/// behind its result, and the logits at the very end, behind the unembedding.
pub proof fn law_the_ends_record_what_they_compute(token: u32, pos: int)
    ensures
        ({
            let s = plan::token_start(token, true);
            let x = only_row(Buffer::X);
            &&& s[1] == (Step::Embed { token, to: x })
            &&& s[2] == (Step::Record { name: TraceName::Hidden(0), from: x })
        }),
        ({
            let s = plan::token_end(pos, true);
            let x = only_row(Buffer::X);
            let xb = only_row(Buffer::Xb);
            let logits = only_row(Buffer::Logits);
            &&& s.len() == 8
            &&& s[1] == (Step::Norm { norm: NormId::Output, from: x, to: xb })
            &&& s[2] == (Step::Record { name: TraceName::FinalNorm, from: xb })
            &&& s[5] matches Step::Project { matrix: MatrixId::Unembedding, to, .. } && to == logits
            &&& s[7] == (Step::Record { name: TraceName::Logits, from: logits })
        }),
{
}

/// The steps between two marks of the time all go into one bucket.
pub open spec fn counts_towards(s: Seq<Step>, from: int, to: int, bucket: Bucket) -> bool {
    &&& 0 <= from <= to < s.len()
    &&& s[to] == Step::Mark(bucket)
    &&& forall|i: int| from <= i < to ==> !(#[trigger] s[i] is Mark)
}

/// The time of the projections, with the sums behind them, counts as matrix products; that of
/// attention, from the cache to its result, as attention; everything else as other work.
pub proof fn law_time_goes_where_it_was_spent(c: ModelConfig, layer: int, pos: int)
    ensures
        ({
            let s = plan::token_attention(c, layer, pos);
            &&& s.len() == 19
            &&& counts_towards(s, 0, 1, Bucket::Other)
            &&& counts_towards(s, 2, 5, Bucket::Matmul)
            &&& s[2] is Project && s[3] is Project && s[4] is Project
            &&& counts_towards(s, 6, 12, Bucket::Other)
            &&& counts_towards(s, 13, 14, Bucket::Attention)
            &&& s[13] is Attend
            &&& counts_towards(s, 15, 18, Bucket::Matmul)
            &&& s[16] is Project && s[17] is Add
        }),
        ({
            let s = plan::token_ffn(layer);
            &&& s.len() == 11
            &&& counts_towards(s, 0, 1, Bucket::Other)
            &&& counts_towards(s, 2, 4, Bucket::Matmul)
            &&& s[2] is Project && s[3] is Project
            &&& counts_towards(s, 5, 7, Bucket::Other)
            &&& s[5] is Swiglu && s[6] is Quantize
            &&& counts_towards(s, 8, 10, Bucket::Matmul)
            &&& s[8] is Project && s[9] is Add
        }),
{
}

/// A token's time starts with its embedding, which counts as a matrix product, and ends with
/// the unembedding, which does too.
pub proof fn law_time_starts_with_the_embedding(token: u32, pos: int, trace: bool)
    ensures
        ({
            let s = plan::token_start(token, trace);
            &&& s[0] is StartTimer
            &&& s[1] is Embed
            &&& s.last() == Step::Mark(Bucket::Matmul)
        }),
        ({
            let s = plan::token_end(pos, false);
            &&& s.len() == 6
            &&& counts_towards(s, 0, 2, Bucket::Other)
            &&& s[1] is Norm
            &&& counts_towards(s, 3, 5, Bucket::Matmul)
            &&& s[4] is Project
        }),
{
}

proof fn lemma_decimals_differ(a: nat, b: nat)
    requires
        text::decimal(a) == text::decimal(b),
    ensures
        a == b,
{
    text::law_decimals_read_back(a);
    text::law_decimals_read_back(b);
}

/// What a name starts with: a number behind a word, or a word alone.
proof fn lemma_name_front(n: TraceName)
    ensures
        n.spec_text().len() >= 2,
        n is Hidden ==> n.spec_text()[0] == 'h',
        n is AttnNorm || n is FfnNorm ==> n.spec_text()[0] == 'l' && n.spec_text()[1] <= '9',
        n is Logits ==> n.spec_text()[0] == 'l' && n.spec_text()[1] == 'o',
        n is FinalNorm ==> n.spec_text()[0] == 'f',
        n is AttnNorm ==> n.spec_text().len() >= 9 && n.spec_text()[n.spec_text().len() - 9] == 'a',
        n is FfnNorm ==> n.spec_text().len() >= 9 && n.spec_text()[n.spec_text().len() - 9] == '.',
{
    reveal_strlit("hidden.");
    reveal_strlit("l");
    reveal_strlit(".attn_norm");
    reveal_strlit(".ffn_norm");
    reveal_strlit("final_norm");
    reveal_strlit("logits");
    match n {
        TraceName::AttnNorm(i) => {
            let d = text::decimal(i as nat);
            text::law_decimals_read_back(i as nat);
            assert(n.spec_text()[1] == d[0]);
        },
        TraceName::FfnNorm(i) => {
            let d = text::decimal(i as nat);
            text::law_decimals_read_back(i as nat);
            assert(n.spec_text()[1] == d[0]);
        },
        _ => {},
    }
}

/// No two records share a name.
pub proof fn law_record_names_differ(a: TraceName, b: TraceName)
    requires
        a.spec_text() == b.spec_text(),
    ensures
        a == b,
{
    lemma_name_front(a);
    lemma_name_front(b);
    reveal_strlit("hidden.");
    reveal_strlit("l");
    reveal_strlit(".attn_norm");
    reveal_strlit(".ffn_norm");
    let t = a.spec_text();
    match (a, b) {
        (TraceName::Hidden(i), TraceName::Hidden(j)) => {
            assert(text::decimal(i as nat) =~= t.skip(7));
            assert(text::decimal(j as nat) =~= t.skip(7));
            lemma_decimals_differ(i as nat, j as nat);
        },
        (TraceName::AttnNorm(i), TraceName::AttnNorm(j)) => {
            assert(text::decimal(i as nat) =~= t.subrange(1, t.len() - 10));
            assert(text::decimal(j as nat) =~= t.subrange(1, t.len() - 10));
            lemma_decimals_differ(i as nat, j as nat);
        },
        (TraceName::FfnNorm(i), TraceName::FfnNorm(j)) => {
            assert(text::decimal(i as nat) =~= t.subrange(1, t.len() - 9));
            assert(text::decimal(j as nat) =~= t.subrange(1, t.len() - 9));
            lemma_decimals_differ(i as nat, j as nat);
        },
        _ => {},
    }
}

/// Captured attention is laid out by layer, then by head, then by position, without gaps.
pub proof fn law_attention_is_laid_out_by_layer_and_head<T: Copy>(
    ws: Workspace<T>,
    layer: int,
    head: int,
)
    ensures
        ws.attention_start(0, 0) == 0,
        ws.attention_start(layer, head + 1) == ws.attention_start(layer, head)
            + ws.spec_max_seq(),
        ws.attention_start(layer + 1, 0) == ws.attention_start(layer, ws.spec_n_heads() - 1)
            + ws.spec_max_seq(),
{
    let h = ws.spec_n_heads();
    let s = ws.spec_max_seq();
    assert(0 * h == 0);
    assert((0 * h + 0) * s == 0) by (nonlinear_arith);
    let a = layer * h;
    assert((a + head + 1) * s == (a + head) * s + s) by (nonlinear_arith);
    assert((layer + 1) * h == a + h) by (nonlinear_arith)
        requires
            a == layer * h,
    ;
    assert((a + h) * s == (a + (h - 1)) * s + s) by (nonlinear_arith);
}

/// The numbers of a buffer.
pub open spec fn held(b: Buffer, w: Widths) -> int {
    b.rows() * b.width(w)
}

/// The bytes of a workspace are those of its buffers, scores, row of weights and captured
/// attention, at four to a number, of its quantised vectors, one for a token and one for each
/// position of a chunk, and of its unpacked row.
pub proof fn law_workspaces_count_all_buffers(
    w: Widths,
    n_layers: int,
    n_heads: int,
    max_seq: int,
)
    ensures
        ({
            let widest = workspace::widest(w);
            let single = held(Buffer::X, w) + held(Buffer::Xb, w) + held(Buffer::Xb2, w) + held(
                Buffer::Q,
                w,
            ) + held(Buffer::K, w) + held(Buffer::V, w) + held(Buffer::AttnOut, w) + held(
                Buffer::Gate,
                w,
            ) + held(Buffer::Up, w) + held(Buffer::Logits, w);
            let batch = held(Buffer::BatchX, w) + held(Buffer::BatchXb, w) + held(Buffer::BatchQ, w)
                + held(Buffer::BatchK, w) + held(Buffer::BatchV, w) + held(Buffer::BatchAttnOut, w)
                + held(Buffer::BatchGate, w) + held(Buffer::BatchUp, w) + held(Buffer::BatchDown, w);
            let row = if w.d >= w.ff {
                w.d
            } else {
                w.ff
            };
            &&& widest >= w.d && widest >= w.ff && widest >= w.q_dim
            &&& widest == w.d || widest == w.ff || widest == w.q_dim
            &&& workspace::workspace_bytes(w, n_layers, n_heads, max_seq) == 4 * (single + batch
                + max_seq + row + n_layers * n_heads * max_seq) + 33 * (widest + 8 * (widest / 32))
                + (widest + 8 * (widest / 16 + 1))
        }),
{
    let n = workspace::widest(w);
    assert(workspace::act_bytes(n) == n + 8 * (n / 32));
    lemma_held(Buffer::X, w);
    lemma_held(Buffer::Xb, w);
    lemma_held(Buffer::Xb2, w);
    lemma_held(Buffer::Q, w);
    lemma_held(Buffer::K, w);
    lemma_held(Buffer::V, w);
    lemma_held(Buffer::AttnOut, w);
    lemma_held(Buffer::Gate, w);
    lemma_held(Buffer::Up, w);
    lemma_held(Buffer::Logits, w);
    lemma_held(Buffer::BatchX, w);
    lemma_held(Buffer::BatchXb, w);
    lemma_held(Buffer::BatchQ, w);
    lemma_held(Buffer::BatchK, w);
    lemma_held(Buffer::BatchV, w);
    lemma_held(Buffer::BatchAttnOut, w);
    lemma_held(Buffer::BatchGate, w);
    lemma_held(Buffer::BatchUp, w);
    lemma_held(Buffer::BatchDown, w);
    let chunk = PREFILL_CHUNK as int;
    let each = 3 * w.d + 2 * w.q_dim + 2 * w.kv_dim + 2 * w.ff;
    let act = workspace::act_bytes(n);
    assert(chunk * each == 32 * each && (1 + chunk) * act == 33 * act) by (nonlinear_arith)
        requires
            chunk == 32,
    ;
}

proof fn lemma_held(b: Buffer, w: Widths)
    ensures
        held(b, w) == if b.rows() == 1 {
            b.width(w)
        } else {
            32 * b.width(w)
        },
{
    let r = b.rows();
    let x = b.width(w);
    assert(r == 1 || r == 32);
    assert(r * x == if r == 1 {
        x
    } else {
        32 * x
    }) by (nonlinear_arith)
        requires
            r == 1 || r == 32,
    ;
}

/// The bytes of some matrices.
pub open spec fn data_len(ms: Seq<Seq<u8>>) -> nat
    decreases ms.len(),
{
    if ms.len() == 0 {
        0
    } else {
        ms[0].len() + data_len(ms.drop_first())
    }
}

/// The matrices of a layer.
pub open spec fn matrices(l: LayerWeights<'_>) -> Seq<Seq<u8>> {
    seq![
        l.attn_q@.data,
        l.attn_k@.data,
        l.attn_v@.data,
        l.attn_output@.data,
        l.ffn_gate@.data,
        l.ffn_up@.data,
        l.ffn_down@.data,
    ]
}

proof fn lemma_seven(ms: Seq<Seq<u8>>)
    requires
        ms.len() == 7,
    ensures
        data_len(ms) == ms[0].len() + ms[1].len() + ms[2].len() + ms[3].len() + ms[4].len()
            + ms[5].len() + ms[6].len(),
{
    reveal_with_fuel(data_len, 8);
    let a = ms.drop_first();
    let b = a.drop_first();
    let c = b.drop_first();
    let d = c.drop_first();
    let e = d.drop_first();
    let f = e.drop_first();
    assert(a[0] == ms[1] && b[0] == ms[2] && c[0] == ms[3]);
    assert(d[0] == ms[4] && e[0] == ms[5] && f[0] == ms[6]);
}

/// A layer's bytes are those of its seven matrices, and four for each number of its two norms
/// and of the biases that it has.
pub proof fn law_layers_count_all_weights(l: LayerWeights<'_>)
    ensures
        ({
            let norms = l.attn_norm@.len() + l.ffn_norm@.len();
            let q = if l.attn_q_bias is Some {
                l.attn_q_bias->0@.len()
            } else {
                0
            };
            let k = if l.attn_k_bias is Some {
                l.attn_k_bias->0@.len()
            } else {
                0
            };
            let v = if l.attn_v_bias is Some {
                l.attn_v_bias->0@.len()
            } else {
                0
            };
            l.bytes() == data_len(matrices(l)) + 4 * (norms + q + k + v)
        }),
{
    lemma_seven(matrices(l));
}

/// A model's bytes are those of its embedding, its unembedding and its layers, and four for
/// each number of the last norm.
pub proof fn law_models_count_all_layers(m: ModelWeights<'_>, n: nat)
    requires
        n < m.layers@.len(),
    ensures
        m.bytes() == m.token_embd@.data.len() + m.output@.data.len() + 4 * m.output_norm@.len()
            + weights::layers_bytes(m.layers@, m.layers@.len()),
        weights::layers_bytes(m.layers@, n + 1) == weights::layers_bytes(m.layers@, n)
            + m.layers@[n as int].bytes(),
        weights::layers_bytes(m.layers@, 0) == 0,
{
}

/// A type occurs as often as it stands in a list.
pub proof fn law_types_are_counted(a: Seq<GgmlType>, b: Seq<GgmlType>, t: GgmlType, u: GgmlType)
    ensures
        weights::occurrences(a + b, t) == weights::occurrences(a, t) + weights::occurrences(b, t),
        weights::occurrences(seq![u], t) == if u == t {
            1nat
        } else {
            0
        },
    decreases b.len(),
{
    reveal_with_fuel(weights::occurrences, 2);
    assert(seq![u].drop_last() =~= Seq::empty());
    if b.len() == 0 {
        assert(a + b =~= a);
    } else {
        law_types_are_counted(a, b.drop_last(), t, u);
        assert((a + b).drop_last() =~= a + b.drop_last());
    }
}

/// The formats of a layer are those of its seven matrices.
pub proof fn law_layers_list_their_formats(l: LayerWeights<'_>)
    ensures
        ({
            let t = l.types();
            &&& t.len() == 7
            &&& t[0] == l.attn_q@.ty
            &&& t[1] == l.attn_k@.ty
            &&& t[2] == l.attn_v@.ty
            &&& t[3] == l.attn_output@.ty
            &&& t[4] == l.ffn_gate@.ty
            &&& t[5] == l.ffn_up@.ty
            &&& t[6] == l.ffn_down@.ty
        }),
{
}

proof fn lemma_behind_two(a: GgmlType, b: GgmlType, rest: Seq<GgmlType>, k: int)
    requires
        0 <= k < rest.len(),
    ensures
        (seq![a, b] + rest).len() == 2 + rest.len(),
        (seq![a, b] + rest)[0] == a,
        (seq![a, b] + rest)[1] == b,
        (seq![a, b] + rest)[2 + k] == rest[k],
{
}

/// The formats of a model are counted over the embedding, the unembedding and the matrices of
/// each layer.
pub proof fn law_formats_cover_all_matrices(m: ModelWeights<'_>, l: int, j: int)
    requires
        0 <= l < m.layers@.len(),
        0 <= j < 7,
    ensures
        ({
            let t = m.matrix_types();
            &&& t.len() == 2 + 7 * m.layers@.len()
            &&& t[0] == m.token_embd@.ty
            &&& t[1] == m.output@.ty
            &&& t[2 + (7 * l + j)] == m.layers@[l].types()[j]
        }),
{
    let rest = weights::layers_types(m.layers@, m.layers@.len());
    lemma_types_at(m.layers@, m.layers@.len(), l);
    lemma_behind_two(m.token_embd@.ty, m.output@.ty, rest, 7 * l + j);
    assert(m.layers@[l].types()[j] == rest[7 * l + j]);
}

proof fn lemma_types_at(layers: Seq<LayerWeights<'_>>, n: nat, l: int)
    requires
        n <= layers.len(),
        0 <= l < n,
    ensures
        weights::layers_types(layers, n).len() == 7 * n,
        forall|j: int|
            0 <= j < 7 ==> #[trigger] layers[l].types()[j] == weights::layers_types(layers, n)[7 * l
                + j],
    decreases n,
{
    let p = (n - 1) as nat;
    let before = weights::layers_types(layers, p);
    assert(layers[p as int].types().len() == 7);
    if p == 0 {
        assert(before.len() == 0);
    } else {
        lemma_types_at(layers, p, if l < p {
            l
        } else {
            0
        });
    }
    let now = weights::layers_types(layers, n);
    assert(now == before + layers[p as int].types());
    assert forall|j: int| 0 <= j < 7 implies #[trigger] layers[l].types()[j] == now[7 * l + j] by {
        if l < p {
            assert(now[7 * l + j] == before[7 * l + j]);
        } else {
            assert(now[7 * l + j] == layers[p as int].types()[7 * l + j - before.len()]);
        }
    }
}

/// Quantised kernels run on everything but exact weights, and on nothing where they are off.
pub proof fn law_exact_weights_are_multiplied_exactly(ty: GgmlType)
    ensures
        !runner::fused_for(true, GgmlType::F32),
        !(ty is F32) ==> runner::fused_for(true, ty),
        !runner::fused_for(false, ty),
{
}

/// As many components of a head are rotated as the configuration says, and all of them where
/// it says nothing.
pub proof fn law_rotation_covers_what_is_stated(c: ModelConfig)
    ensures
        c.rope_dimension_count is None ==> runner::rotated(c) == c.head_dim,
        c.rope_dimension_count matches Some(n) ==> runner::rotated(c) == n,
{
}

/// The table of formats has a row for each that occurs, with how often, in the order of their
/// tags.
pub proof fn law_formats_are_tallied(
    types: Seq<GgmlType>,
    out: Seq<(GgmlType, usize)>,
    t: GgmlType,
    i: int,
    j: int,
) -> (k: int)
    requires
        weights::tallies(types, out),
        types.contains(t),
        0 <= i < j < out.len(),
    ensures
        0 <= k < out.len(),
        out[k].0 == t,
        out[k].1 == weights::occurrences(types, t),
        out[i].0.tag() < out[j].0.tag(),
        out[i].1 > 0,
{
    let at = choose|at: int| 0 <= at < types.len() && types[at] == t;
    assert(types =~= types.take(at) + seq![t] + types.skip(at + 1));
    law_types_are_counted(types.take(at), seq![t], t, t);
    law_types_are_counted(types.take(at) + seq![t], types.skip(at + 1), t, t);
    assert(weights::occurrences(types, t) > 0);
    choose|k: int| 0 <= k < out.len() && (#[trigger] out[k]).0 == t
}

/// The rows of a buffer stand one behind the other.
pub proof fn law_rows_stand_in_a_row<T: Copy>(ws: Workspace<T>, r: Row, k: int)
    requires
        ws.wf(),
        r.index < r.buffer.rows(),
        0 <= k < r.buffer.width(ws.widths()),
        ws.data(r.buffer).len() == held(r.buffer, ws.widths()),
    ensures
        ws.row_data(r).len() == r.buffer.width(ws.widths()),
        ws.row_data(r)[k] == ws.data(r.buffer)[r.index * r.buffer.width(ws.widths()) + k],
{
    let w = r.buffer.width(ws.widths());
    let n = r.buffer.rows();
    let i = r.index as int;
    assert(0 <= i * w && (i + 1) * w == i * w + w && (i + 1) * w <= n * w) by (nonlinear_arith)
        requires
            0 <= i < n,
            0 <= w,
    ;
}

} // verus!
