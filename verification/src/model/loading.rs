//! What of a container becomes the configuration and the weights of a model.
use super::weights;
use super::weights::{LayerWeights, ModelWeights, Part, WeightErrorView};
use crate::bits::F32Bits;
use crate::gguf::file;
use crate::gguf::file::{GgufView, TensorInfoView};
use crate::gguf::value::ValueView;
use crate::gguf::writing;
use crate::gguf::writing::Contents;
use crate::gguf::ModelConfig;
use crate::quant::dequant;
use crate::quant::dequant::Weight;
use crate::tensor::quant_matrix;
use crate::tensor::quant_matrix::MatrixView;
use crate::text;
use vstd::prelude::*;

verus! {

/// A key of the architecture holds the number `n`.
pub open spec fn states(g: GgufView, arch: Seq<char>, suffix: Seq<char>, n: usize) -> bool {
    file::lookup(g.metadata, arch + "."@ + suffix) == Some(ValueView::U64(n as u64))
}

/// A key of the architecture is not there.
pub open spec fn omits(g: GgufView, arch: Seq<char>, suffix: Seq<char>) -> bool {
    file::lookup(g.metadata, arch + "."@ + suffix) is None
}

/// Each size of a configuration is the number under its own key of the architecture, and the
/// vocabulary is as large as the list of tokens.
pub proof fn law_sizes_stand_under_their_keys(
    g: GgufView,
    c: ModelConfig,
    arch: Seq<char>,
    n: usize,
)
    requires
        g.config_is(c),
        file::lookup(g.metadata, "general.architecture"@) == Some(ValueView::Str(arch)),
    ensures
        c.architecture@ == arch,
        states(g, arch, "block_count"@, n) ==> c.block_count == n,
        states(g, arch, "embedding_length"@, n) ==> c.embedding_length == n,
        states(g, arch, "feed_forward_length"@, n) ==> c.feed_forward_length == n,
        states(g, arch, "context_length"@, n) ==> c.context_length == n,
        states(g, arch, "attention.head_count"@, n) ==> c.head_count == n,
        states(g, arch, "attention.head_count_kv"@, n) ==> c.head_count_kv == n,
        states(g, arch, "attention.key_length"@, n) ==> c.head_dim == n,
        states(g, arch, "rope.dimension_count"@, n) ==> c.rope_dimension_count == Some(n),
        omits(g, arch, "attention.head_count_kv"@) ==> c.head_count_kv == c.head_count,
        omits(g, arch, "attention.key_length"@) ==> c.head_dim == c.embedding_length
            / c.head_count,
        omits(g, arch, "rope.dimension_count"@) ==> c.rope_dimension_count is None,
        file::lookup(g.metadata, "tokenizer.ggml.tokens"@) matches Some(ValueView::Array(a))
            ==> c.vocab_size == a.items.len() as usize,
        file::lookup(g.metadata, "tokenizer.ggml.tokens"@) is None && states(
            g,
            arch,
            "vocab_size"@,
            n,
        ) ==> c.vocab_size == n,
{
}

/// The numbers of a configuration that are no sizes, and their defaults: 1e-5 and 10000.
pub proof fn law_other_settings_stand_under_their_keys(
    g: GgufView,
    c: ModelConfig,
    arch: Seq<char>,
    x: u32,
)
    requires
        g.config_is(c),
        file::lookup(g.metadata, "general.architecture"@) == Some(ValueView::Str(arch)),
    ensures
        file::lookup(g.metadata, arch + "."@ + "attention.layer_norm_rms_epsilon"@) == Some(
            ValueView::F32(x),
        ) ==> c.rms_norm_eps == F32Bits(x),
        file::lookup(g.metadata, arch + "."@ + "rope.freq_base"@) == Some(ValueView::F32(x))
            ==> c.rope_freq_base == F32Bits(x),
        omits(g, arch, "attention.layer_norm_rms_epsilon"@) ==> c.rms_norm_eps == F32Bits(
            0x3727_c5ac,
        ),
        omits(g, arch, "rope.freq_base"@) ==> c.rope_freq_base == F32Bits(0x461c_4000),
        file::lookup(g.metadata, "tokenizer.ggml.bos_token_id"@) == Some(ValueView::U32(x))
            ==> c.bos_token_id == Some(x),
        file::lookup(g.metadata, "tokenizer.ggml.eos_token_id"@) == Some(ValueView::U32(x))
            ==> c.eos_token_id == Some(x),
        file::lookup(g.metadata, "tokenizer.ggml.padding_token_id"@) == Some(ValueView::U32(x))
            ==> c.pad_token_id == Some(x),
        file::lookup(g.metadata, "tokenizer.ggml.unknown_token_id"@) == Some(ValueView::U32(x))
            ==> c.unk_token_id == Some(x),
        file::lookup(g.metadata, "tokenizer.ggml.bos_token_id"@) is None ==> c.bos_token_id is None,
        file::lookup(g.metadata, "tokenizer.ggml.eos_token_id"@) is None ==> c.eos_token_id is None,
        file::lookup(g.metadata, "tokenizer.ggml.add_bos_token"@) matches Some(ValueView::Bool(b))
            ==> c.add_bos_token == Some(b),
        file::lookup(g.metadata, "tokenizer.ggml.add_bos_token"@) is None ==> c.add_bos_token
            is None,
{
}

/// The name of a model and the kind of its tokenizer stand under their keys.
pub proof fn law_names_stand_under_their_keys(g: GgufView, c: ModelConfig, s: Seq<char>)
    requires
        g.config_is(c),
    ensures
        file::lookup(g.metadata, "general.name"@) == Some(ValueView::Str(s)) ==> text::option_view(
            c.name,
        ) == Some(s),
        file::lookup(g.metadata, "tokenizer.ggml.model"@) == Some(ValueView::Str(s))
            ==> text::option_view(c.tokenizer_model) == Some(s),
        file::lookup(g.metadata, "general.name"@) is None ==> c.name is None,
        file::lookup(g.metadata, "tokenizer.ggml.model"@) is None ==> c.tokenizer_model is None,
        file::lookup(g.metadata, "tokenizer.ggml.padding_token_id"@) is None ==> c.pad_token_id
            is None,
        file::lookup(g.metadata, "tokenizer.ggml.unknown_token_id"@) is None ==> c.unk_token_id
            is None,
{
}

/// A configuration makes sense: the key/value heads share out the query heads evenly, heads
/// can be rotated in pairs, and nothing that counts is zero.
pub proof fn law_configurations_make_sense(g: GgufView, c: ModelConfig)
    requires
        g.config_is(c),
    ensures
        c.head_count_kv > 0,
        c.head_count > 0,
        c.head_count as int % c.head_count_kv as int == 0,
        c.head_dim > 0,
        c.head_dim % 2 == 0,
        c.rope_dimension_count matches Some(r) ==> r <= c.head_dim && r % 2 == 0,
        c.block_count > 0,
        c.embedding_length > 0,
        c.vocab_size > 0,
{
}

/// The first tensor of a name in a container, as it was written.
pub open spec fn first_of_name(c: Contents, name: Seq<char>, k: int) -> bool {
    &&& 0 <= k < c.tensors.len()
    &&& c.tensors[k].name == name
    &&& forall|i: int| 0 <= i < k ==> (#[trigger] c.tensors[i]).name != name
}

/// The bytes of a tensor, as they were written.
pub open spec fn bytes_of(c: Contents, t: TensorInfoView) -> Seq<u8> {
    c.data.subrange(t.offset as int, (t.offset + t.byte_size) as int)
}

/// `m` is the tensor as a matrix: the first axis is a row, the others count rows.
pub open spec fn is_matrix(c: Contents, t: TensorInfoView, m: MatrixView) -> bool {
    &&& m.ty == t.ggml_type
    &&& m.data == bytes_of(c, t)
    &&& m.cols == t.dims[0]
    &&& m.rows == file::product(t.dims, 1, (t.n_dims - 1) as nat)
}

/// `v` holds all numbers of the tensor.
pub open spec fn is_vector(c: Contents, t: TensorInfoView, v: Seq<Weight>) -> bool {
    v == dequant::row_weights(
        t.ggml_type,
        bytes_of(c, t),
        file::product(t.dims, 0, t.n_dims) / (t.ggml_type.block_elems() as nat),
    )
}

proof fn lemma_named(c: Contents, name: Seq<char>, k: int)
    requires
        c.wf(),
        first_of_name(c, name, k),
    ensures
        ({
            let g = file::spec_parse(c.written())->Ok_0;
            &&& g.find_tensor(name) == Some(c.tensors[k])
            &&& is_matrix(c, c.tensors[k], weights::matrix_of(c.written(), g, name))
            &&& is_vector(c, c.tensors[k], weights::vector_of(c.written(), g, name))
        }),
{
    writing::law_parsing_undoes_writing(c, c.tensors[k]);
    writing::law_the_first_tensor_counts(c.tensors, name, k);
}

/// The name of a tensor of layer `l`.
pub open spec fn in_layer(l: int, suffix: Seq<char>) -> Seq<char> {
    "blk."@ + text::decimal(l as nat) + "."@ + suffix
}

/// Every matrix of a layer is the tensor of its own name, as it was written into the
/// container.
pub proof fn law_matrices_are_the_tensors_of_their_names(
    w: ModelWeights<'_>,
    c: Contents,
    l: int,
    k: int,
)
    requires
        c.wf(),
        w.holds(c.written(), file::spec_parse(c.written())->Ok_0),
        0 <= l < w.layers@.len(),
    ensures
        first_of_name(c, in_layer(l, "attn_q.weight"@), k) ==> is_matrix(
            c,
            c.tensors[k],
            w.layers@[l].attn_q@,
        ),
        first_of_name(c, in_layer(l, "attn_k.weight"@), k) ==> is_matrix(
            c,
            c.tensors[k],
            w.layers@[l].attn_k@,
        ),
        first_of_name(c, in_layer(l, "attn_v.weight"@), k) ==> is_matrix(
            c,
            c.tensors[k],
            w.layers@[l].attn_v@,
        ),
        first_of_name(c, in_layer(l, "attn_output.weight"@), k) ==> is_matrix(
            c,
            c.tensors[k],
            w.layers@[l].attn_output@,
        ),
        first_of_name(c, in_layer(l, "ffn_gate.weight"@), k) ==> is_matrix(
            c,
            c.tensors[k],
            w.layers@[l].ffn_gate@,
        ),
        first_of_name(c, in_layer(l, "ffn_up.weight"@), k) ==> is_matrix(
            c,
            c.tensors[k],
            w.layers@[l].ffn_up@,
        ),
        first_of_name(c, in_layer(l, "ffn_down.weight"@), k) ==> is_matrix(
            c,
            c.tensors[k],
            w.layers@[l].ffn_down@,
        ),
        first_of_name(c, "token_embd.weight"@, k) ==> is_matrix(
            c,
            c.tensors[k],
            w.token_embd@,
        ),
        first_of_name(c, "output.weight"@, k) ==> is_matrix(c, c.tensors[k], w.output@),
{
    let g = file::spec_parse(c.written())->Ok_0;
    let name = c.tensors[k].name;
    assert(w.layers@[l].holds(c.written(), g, l));
    if first_of_name(c, name, k) {
        lemma_named(c, name, k);
    }
}

/// Every norm and bias of a layer is the tensor of its own name, as it was written into the
/// container; a bias that no tensor names is not there.
pub proof fn law_vectors_are_the_tensors_of_their_names(
    w: ModelWeights<'_>,
    c: Contents,
    l: int,
    k: int,
)
    requires
        c.wf(),
        w.holds(c.written(), file::spec_parse(c.written())->Ok_0),
        0 <= l < w.layers@.len(),
    ensures
        first_of_name(c, in_layer(l, "attn_norm.weight"@), k) ==> is_vector(
            c,
            c.tensors[k],
            w.layers@[l].attn_norm@,
        ),
        first_of_name(c, in_layer(l, "ffn_norm.weight"@), k) ==> is_vector(
            c,
            c.tensors[k],
            w.layers@[l].ffn_norm@,
        ),
        first_of_name(c, "output_norm.weight"@, k) ==> is_vector(
            c,
            c.tensors[k],
            w.output_norm@,
        ),
        first_of_name(c, in_layer(l, "attn_q.bias"@), k) ==> (w.layers@[l].attn_q_bias matches Some(
            b,
        ) && is_vector(c, c.tensors[k], b@)),
        first_of_name(c, in_layer(l, "attn_k.bias"@), k) ==> (w.layers@[l].attn_k_bias matches Some(
            b,
        ) && is_vector(c, c.tensors[k], b@)),
        first_of_name(c, in_layer(l, "attn_v.bias"@), k) ==> (w.layers@[l].attn_v_bias matches Some(
            b,
        ) && is_vector(c, c.tensors[k], b@)),
{
    let g = file::spec_parse(c.written())->Ok_0;
    let name = c.tensors[k].name;
    assert(w.layers@[l].holds(c.written(), g, l));
    if first_of_name(c, name, k) {
        lemma_named(c, name, k);
    }
}

/// No tensor has a name.
pub open spec fn unnamed(c: Contents, name: Seq<char>) -> bool {
    forall|i: int| 0 <= i < c.tensors.len() ==> (#[trigger] c.tensors[i]).name != name
}

/// A bias that no tensor of the container names is not there.
pub proof fn law_biases_are_optional(layer: LayerWeights<'_>, c: Contents, l: int)
    requires
        c.wf(),
        layer.holds(c.written(), file::spec_parse(c.written())->Ok_0, l),
    ensures
        unnamed(c, in_layer(l, "attn_q.bias"@)) ==> layer.attn_q_bias is None,
        unnamed(c, in_layer(l, "attn_k.bias"@)) ==> layer.attn_k_bias is None,
        unnamed(c, in_layer(l, "attn_v.bias"@)) ==> layer.attn_v_bias is None,
{
    writing::law_containers_are_read_back(c);
    let n = c.tensors.len() as int;
    if unnamed(c, in_layer(l, "attn_q.bias"@)) {
        writing::law_the_first_tensor_counts(c.tensors, in_layer(l, "attn_q.bias"@), n);
    }
    if unnamed(c, in_layer(l, "attn_k.bias"@)) {
        writing::law_the_first_tensor_counts(c.tensors, in_layer(l, "attn_k.bias"@), n);
    }
    if unnamed(c, in_layer(l, "attn_v.bias"@)) {
        writing::law_the_first_tensor_counts(c.tensors, in_layer(l, "attn_v.bias"@), n);
    }
}

/// The first part that cannot be had is the one that is reported.
pub proof fn law_the_first_fault_is_reported(g: GgufView, parts: Seq<Part>, k: int)
    requires
        0 <= k < parts.len(),
        forall|i: int| 0 <= i < k ==> weights::part_error(g, #[trigger] parts[i]) is None,
    ensures
        weights::part_error(g, parts[k]) is Some ==> weights::first_error(g, parts)
            == weights::part_error(g, parts[k]),
        weights::first_error(g, parts) is None ==> weights::part_error(g, parts[k]) is None,
    decreases k,
{
    if k > 0 {
        let rest = parts.drop_first();
        assert(weights::part_error(g, parts[0]) is None);
        assert forall|i: int| 0 <= i < k - 1 implies weights::part_error(
            g,
            #[trigger] rest[i],
        ) is None by {
            assert(rest[i] == parts[i + 1]);
        }
        law_the_first_fault_is_reported(g, rest, k - 1);
    }
}

proof fn lemma_all_parts_had(g: GgufView, parts: Seq<Part>, k: int)
    requires
        weights::first_error(g, parts) is None,
        0 <= k < parts.len(),
    ensures
        weights::part_error(g, parts[k]) is None,
    decreases parts.len(),
{
    if k > 0 {
        lemma_all_parts_had(g, parts.drop_first(), k - 1);
        assert(parts.drop_first()[k - 1] == parts[k]);
    }
}

proof fn lemma_layer_part(c: ModelConfig, n: nat, l: int, j: int)
    requires
        0 <= l < n,
        0 <= j < 12,
    ensures
        weights::layers_parts(c, n).len() == 12 * n,
        weights::layers_parts(c, n)[12 * l + j] == weights::layer_parts(c, l)[j],
    decreases n,
{
    let p = (n - 1) as nat;
    let before = weights::layers_parts(c, p);
    assert(weights::layer_parts(c, p as int).len() == 12);
    if p == 0 {
        assert(before.len() == 0);
    } else {
        lemma_layer_part(c, p, if l < p {
            l
        } else {
            0
        }, j);
    }
}

/// A tensor is there, with so many rows of so many columns.
pub open spec fn has_shape(g: GgufView, name: Seq<char>, rows: int, cols: int) -> bool {
    &&& g.find_tensor(name) is Some
    &&& file::product(
        (g.find_tensor(name)->0).dims,
        1,
        ((g.find_tensor(name)->0).n_dims - 1) as nat,
    ) == rows
    &&& (g.find_tensor(name)->0).dims[0] == cols
}

/// Where weights load, every matrix has the shape that the configuration asks for: a row for
/// each number that it gives, a column for each number that it takes.
pub proof fn law_loaded_matrices_have_their_shapes(g: GgufView, c: ModelConfig, l: int)
    requires
        weights::first_error(g, weights::all_parts(c)) is None,
        0 <= l < c.block_count,
    ensures
        ({
            let d = c.embedding_length as int;
            let ff = c.feed_forward_length as int;
            let q = c.head_count * c.head_dim;
            let kv = c.head_count_kv * c.head_dim;
            &&& has_shape(g, in_layer(l, "attn_q.weight"@), q, d)
            &&& has_shape(g, in_layer(l, "attn_k.weight"@), kv, d)
            &&& has_shape(g, in_layer(l, "attn_v.weight"@), kv, d)
            &&& has_shape(g, in_layer(l, "attn_output.weight"@), d, q)
            &&& has_shape(g, in_layer(l, "ffn_gate.weight"@), ff, d)
            &&& has_shape(g, in_layer(l, "ffn_up.weight"@), ff, d)
            &&& has_shape(g, in_layer(l, "ffn_down.weight"@), d, ff)
            &&& has_shape(g, "token_embd.weight"@, c.vocab_size as int, d)
            &&& has_shape(g, "output.weight"@, c.vocab_size as int, d)
            &&& g.find_tensor(in_layer(l, "attn_norm.weight"@)) is Some
            &&& g.find_tensor(in_layer(l, "ffn_norm.weight"@)) is Some
            &&& g.find_tensor("output_norm.weight"@) is Some
        }),
{
    let all = weights::all_parts(c);
    let n = c.block_count as nat;
    let lp = weights::layer_parts(c, l);
    assert forall|j: int| 0 <= j < 12 implies weights::part_error(g, #[trigger] lp[j]) is None by {
        lemma_layer_part(c, n, l, j);
        assert(all[12 * l + j] == lp[j]);
        lemma_all_parts_had(g, all, 12 * l + j);
    }
    lemma_layer_part(c, n, l, 0);
    let outer = weights::outer_parts(c);
    assert forall|j: int| 0 <= j < 3 implies weights::part_error(
        g,
        #[trigger] outer[j],
    ) is None by {
        assert(all[12 * n + j] == outer[j]);
        lemma_all_parts_had(g, all, 12 * n + j);
    }
    assert(weights::part_error(g, lp[0]) is None && weights::part_error(g, lp[1]) is None);
    assert(weights::part_error(g, lp[2]) is None && weights::part_error(g, lp[3]) is None);
    assert(weights::part_error(g, lp[4]) is None && weights::part_error(g, lp[8]) is None);
    assert(weights::part_error(g, lp[9]) is None && weights::part_error(g, lp[10]) is None);
    assert(weights::part_error(g, lp[11]) is None && weights::part_error(g, outer[0]) is None);
    assert(weights::part_error(g, outer[1]) is None && weights::part_error(g, outer[2]) is None);
}

/// A tensor that is missing, of another shape, or cannot be read is named, with its shape and
/// the one that was asked for.
pub proof fn law_faults_name_the_tensor(g: GgufView, name: Seq<char>, rows: int, cols: int)
    ensures
        g.find_tensor(name) is None ==> {
            &&& weights::part_error(g, Part::Vector(name)) == Some(WeightErrorView::Missing(name))
            &&& weights::part_error(g, Part::Matrix(name, rows, cols)) == Some(
                WeightErrorView::Missing(name),
            )
            &&& weights::part_error(g, Part::OptionalVector(name)) is None
        },
        g.find_tensor(name) matches Some(t) ==> {
            let have = file::product(t.dims, 1, (t.n_dims - 1) as nat) as int;
            let bad = quant_matrix::matrix_error(
                t.ggml_type,
                t.byte_size as int,
                have,
                t.dims[0] as int,
            );
            let e = weights::part_error(g, Part::Matrix(name, rows, cols));
            &&& bad matches Some(err) ==> e == Some(WeightErrorView::Quant { name, err })
            &&& bad is None && (have != rows || t.dims[0] != cols) ==> e == Some(
                WeightErrorView::BadShape {
                    name,
                    got: (have, t.dims[0] as int),
                    want: (rows, cols),
                },
            )
            &&& bad is None && have == rows && t.dims[0] == cols ==> e is None
        },
{
}

/// A fault is told with the tensor's name, and a wrong shape with both shapes, rows first.
pub proof fn law_faults_are_told(
    name: Seq<char>,
    err: dequant::QuantError,
    rows: nat,
    cols: nat,
    want_rows: nat,
    want_cols: nat,
)
    ensures
        WeightErrorView::Missing(name).message() == "model is missing tensor "@ + text::quoted(name),
        (WeightErrorView::Quant { name, err }).message() == "tensor "@ + text::quoted(name) + ": "@
            + err.spec_message(),
        (WeightErrorView::BadShape {
            name,
            got: (rows as int, cols as int),
            want: (want_rows as int, want_cols as int),
        }).message() == "tensor "@ + text::quoted(name) + " is "@ + text::decimal(rows) + "x"@
            + text::decimal(cols) + " (rows x cols), expected "@ + text::decimal(want_rows) + "x"@
            + text::decimal(want_cols),
{
}

} // verus!
