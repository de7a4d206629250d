//! Locating and validating every tensor the forward pass needs.
use crate::gguf::error::GgufErrorView;
use crate::gguf::file;
use crate::gguf::file::{GgufView, TensorInfoView};
use crate::gguf::parse;
use crate::gguf::{GgmlType, Gguf, ModelConfig};
use crate::quant::dequant;
use crate::quant::dequant::{dequantize_row, QuantError, Weight};
use crate::tensor::quant_matrix;
use crate::tensor::quant_matrix::{MatrixView, QuantMatrix};
use crate::text;
use vstd::prelude::*;

verus! {

#[derive(Debug, PartialEq)]
pub enum WeightError {
    Missing(String),
    Quant { name: String, err: QuantError },
    /// A tensor is the wrong shape for the configuration, which almost always means
    /// that the axis order was misread somewhere.
    BadShape { name: String, got: (usize, usize), want: (usize, usize) },
}

/// What a [`WeightError`] says.
pub enum WeightErrorView {
    Missing(Seq<char>),
    Quant { name: Seq<char>, err: QuantError },
    BadShape { name: Seq<char>, got: (int, int), want: (int, int) },
}

impl View for WeightError {
    type V = WeightErrorView;

    open spec fn view(&self) -> WeightErrorView {
        match *self {
            WeightError::Missing(n) => WeightErrorView::Missing(n@),
            WeightError::Quant { name, err } => WeightErrorView::Quant { name: name@, err },
            WeightError::BadShape { name, got, want } => WeightErrorView::BadShape {
                name: name@,
                got: (got.0 as int, got.1 as int),
                want: (want.0 as int, want.1 as int),
            },
        }
    }
}

impl Clone for WeightError {
    fn clone(&self) -> (r: Self)
        ensures
            r@ == self@,
    {
        match self {
            WeightError::Missing(n) => WeightError::Missing(n.clone()),
            WeightError::Quant { name, err } => WeightError::Quant {
                name: name.clone(),
                err: *err,
            },
            WeightError::BadShape { name, got, want } => WeightError::BadShape {
                name: name.clone(),
                got: (got.0, got.1),
                want: (want.0, want.1),
            },
        }
    }
}

impl WeightErrorView {
    /// The message for people.
    pub open spec fn message(self) -> Seq<char> {
        match self {
            WeightErrorView::Missing(n) => "model is missing tensor "@ + text::quoted(n),
            WeightErrorView::Quant { name, err } => {
                "tensor "@ + text::quoted(name) + ": "@ + err.spec_message()
            },
            WeightErrorView::BadShape { name, got, want } => {
                "tensor "@ + text::quoted(name) + " is "@ + text::decimal(got.0 as nat) + "x"@
                    + text::decimal(got.1 as nat) + " (rows x cols), expected "@ + text::decimal(
                    want.0 as nat,
                ) + "x"@ + text::decimal(want.1 as nat)
            },
        }
    }
}

impl WeightError {
    /// The message for people.
    pub fn message(&self) -> (r: String)
        ensures
            r@ == self@.message(),
    {
        match self {
            WeightError::Missing(n) => {
                let mut s = "model is missing tensor ".to_owned();
                s.push_str(&text::quote(n));
                s
            },
            WeightError::Quant { name, err } => {
                let mut s = "tensor ".to_owned();
                s.push_str(&text::quote(name));
                s.push_str(": ");
                s.push_str(&err.message());
                s
            },
            WeightError::BadShape { name, got, want } => {
                let mut s = "tensor ".to_owned();
                s.push_str(&text::quote(name));
                s.push_str(" is ");
                text::push_decimal(&mut s, got.0 as u128);
                s.push_str("x");
                text::push_decimal(&mut s, got.1 as u128);
                s.push_str(" (rows x cols), expected ");
                text::push_decimal(&mut s, want.0 as u128);
                s.push_str("x");
                text::push_decimal(&mut s, want.1 as u128);
                s
            },
        }
    }
}

/// One transformer block's parameters.
#[derive(Debug)]
pub struct LayerWeights<'a> {
    pub attn_norm: Vec<Weight>,
    pub attn_q: QuantMatrix<'a>,
    pub attn_k: QuantMatrix<'a>,
    pub attn_v: QuantMatrix<'a>,
    pub attn_output: QuantMatrix<'a>,
    /// Some families have biases on the query, key and value projections; others
    /// have none.
    pub attn_q_bias: Option<Vec<Weight>>,
    pub attn_k_bias: Option<Vec<Weight>>,
    pub attn_v_bias: Option<Vec<Weight>>,
    pub ffn_norm: Vec<Weight>,
    pub ffn_gate: QuantMatrix<'a>,
    pub ffn_up: QuantMatrix<'a>,
    pub ffn_down: QuantMatrix<'a>,
}

/// Every parameter, the matrices borrowed from the model's buffer.
#[derive(Debug)]
pub struct ModelWeights<'a> {
    pub config: ModelConfig,
    pub token_embd: QuantMatrix<'a>,
    pub layers: Vec<LayerWeights<'a>>,
    pub output_norm: Vec<Weight>,
    /// The unembedding.  Files write it as its own tensor, quantised differently
    /// from the embedding even where the two are tied.
    pub output: QuantMatrix<'a>,
}

/// Something that the forward pass needs from a file.
pub enum Part {
    Vector(Seq<char>),
    OptionalVector(Seq<char>),
    /// A matrix with its rows and columns.
    Matrix(Seq<char>, int, int),
}

/// The name of a tensor of a layer.
pub open spec fn layer_name(i: int, suffix: Seq<char>) -> Seq<char> {
    "blk."@ + text::decimal(i as nat) + "."@ + suffix
}

fn name_in_layer(i: usize, suffix: &str) -> (r: String)
    ensures
        r@ == layer_name(i as int, suffix@),
{
    let mut s = "blk.".to_owned();
    text::push_decimal(&mut s, i as u128);
    s.push_str(".");
    s.push_str(suffix);
    s
}

/// The numbers of a tensor.
pub open spec fn vector_of(file: Seq<u8>, g: GgufView, name: Seq<char>) -> Seq<Weight> {
    let t = g.find_tensor(name)->0;
    dequant::row_weights(
        t.ggml_type,
        g.tensor_data(file, t),
        t.elements() / (t.ggml_type.block_elems() as nat),
    )
}

/// The matrix of a tensor: `dims[0]` columns, and everything above it as rows.
pub open spec fn matrix_of(file: Seq<u8>, g: GgufView, name: Seq<char>) -> MatrixView {
    let t = g.find_tensor(name)->0;
    MatrixView {
        ty: t.ggml_type,
        data: g.tensor_data(file, t),
        rows: rows_of(t),
        cols: t.dims[0] as int,
    }
}

pub open spec fn rows_of(t: TensorInfoView) -> int {
    file::product(t.dims, 1, (t.n_dims - 1) as nat) as int
}

/// Why a vector cannot be had.
pub open spec fn vector_error(g: GgufView, name: Seq<char>) -> Option<WeightErrorView> {
    match g.find_tensor(name) {
        None => Some(WeightErrorView::Missing(name)),
        Some(t) => match dequant::row_error(
            t.ggml_type,
            t.byte_size as int,
            t.elements() as int,
        ) {
            Some(err) => Some(WeightErrorView::Quant { name, err }),
            None => None,
        },
    }
}

/// Why a matrix cannot be had.
pub open spec fn matrix_error(g: GgufView, name: Seq<char>, rows: int, cols: int) -> Option<
    WeightErrorView,
> {
    match g.find_tensor(name) {
        None => Some(WeightErrorView::Missing(name)),
        Some(t) => match quant_matrix::matrix_error(
            t.ggml_type,
            t.byte_size as int,
            rows_of(t),
            t.dims[0] as int,
        ) {
            Some(err) => Some(WeightErrorView::Quant { name, err }),
            None => if rows_of(t) != rows || t.dims[0] != cols {
                Some(
                    WeightErrorView::BadShape {
                        name,
                        got: (rows_of(t), t.dims[0] as int),
                        want: (rows, cols),
                    },
                )
            } else {
                None
            },
        },
    }
}

/// Why a part cannot be had.
pub open spec fn part_error(g: GgufView, part: Part) -> Option<WeightErrorView> {
    match part {
        Part::Vector(name) => vector_error(g, name),
        Part::OptionalVector(name) => if g.find_tensor(name) is None {
            None
        } else {
            vector_error(g, name)
        },
        Part::Matrix(name, rows, cols) => matrix_error(g, name, rows, cols),
    }
}

/// Why the first part that cannot be had cannot be had.
pub open spec fn first_error(g: GgufView, parts: Seq<Part>) -> Option<WeightErrorView>
    decreases parts.len(),
{
    if parts.len() == 0 {
        None
    } else {
        match part_error(g, parts[0]) {
            Some(e) => Some(e),
            None => first_error(g, parts.drop_first()),
        }
    }
}

/// The parts of a layer, in the order in which they are asked for.  Projections have
/// an output neuron to a row.
pub open spec fn layer_parts(c: ModelConfig, i: int) -> Seq<Part> {
    let d = c.embedding_length as int;
    let ff = c.feed_forward_length as int;
    let q_dim = c.head_count * c.head_dim;
    let kv_dim = c.head_count_kv * c.head_dim;
    seq![
        Part::Vector(layer_name(i, "attn_norm.weight"@)),
        Part::Matrix(layer_name(i, "attn_q.weight"@), q_dim, d),
        Part::Matrix(layer_name(i, "attn_k.weight"@), kv_dim, d),
        Part::Matrix(layer_name(i, "attn_v.weight"@), kv_dim, d),
        Part::Matrix(layer_name(i, "attn_output.weight"@), d, q_dim),
        Part::OptionalVector(layer_name(i, "attn_q.bias"@)),
        Part::OptionalVector(layer_name(i, "attn_k.bias"@)),
        Part::OptionalVector(layer_name(i, "attn_v.bias"@)),
        Part::Vector(layer_name(i, "ffn_norm.weight"@)),
        Part::Matrix(layer_name(i, "ffn_gate.weight"@), ff, d),
        Part::Matrix(layer_name(i, "ffn_up.weight"@), ff, d),
        Part::Matrix(layer_name(i, "ffn_down.weight"@), d, ff),
    ]
}

/// The parts of the first `n` layers.
pub open spec fn layers_parts(c: ModelConfig, n: nat) -> Seq<Part>
    decreases n,
{
    if n == 0 {
        Seq::empty()
    } else {
        layers_parts(c, (n - 1) as nat) + layer_parts(c, n - 1)
    }
}

/// The parts that belong to no layer.
pub open spec fn outer_parts(c: ModelConfig) -> Seq<Part> {
    let d = c.embedding_length as int;
    let vocab = c.vocab_size as int;
    seq![
        Part::Matrix("token_embd.weight"@, vocab, d),
        Part::Vector("output_norm.weight"@),
        Part::Matrix("output.weight"@, vocab, d),
    ]
}

/// All that the forward pass needs.
pub open spec fn all_parts(c: ModelConfig) -> Seq<Part> {
    layers_parts(c, c.block_count as nat) + outer_parts(c)
}

proof fn lemma_first_error_splits(g: GgufView, a: Seq<Part>, b: Seq<Part>)
    ensures
        first_error(g, a + b) == match first_error(g, a) {
            Some(e) => Some(e),
            None => first_error(g, b),
        },
    decreases a.len(),
{
    if a.len() == 0 {
        assert(a + b =~= b);
    } else {
        assert((a + b).drop_first() =~= a.drop_first() + b);
        lemma_first_error_splits(g, a.drop_first(), b);
    }
}

/// The sizes of a tensor that is read as a matrix can be counted.
pub open spec fn matrix_limits(t: TensorInfoView) -> bool {
    dequant::supported(t.ggml_type) ==> {
        &&& 1 <= t.n_dims
        &&& file::products_fit(t.dims, 1, (t.n_dims - 1) as nat)
        &&& t.dims[0] <= usize::MAX
        &&& rows_of(t) <= usize::MAX
        &&& quant_matrix::matrix_fits(t.ggml_type, rows_of(t), t.dims[0] as int)
    }
}

/// The names under which matrices are looked for.
pub open spec fn names_a_matrix(name: Seq<char>) -> bool {
    ||| name == "token_embd.weight"@
    ||| name == "output.weight"@
    ||| exists|i: int| #[trigger] layer_name(i, "attn_q.weight"@) == name
    ||| exists|i: int| #[trigger] layer_name(i, "attn_k.weight"@) == name
    ||| exists|i: int| #[trigger] layer_name(i, "attn_v.weight"@) == name
    ||| exists|i: int| #[trigger] layer_name(i, "attn_output.weight"@) == name
    ||| exists|i: int| #[trigger] layer_name(i, "ffn_gate.weight"@) == name
    ||| exists|i: int| #[trigger] layer_name(i, "ffn_up.weight"@) == name
    ||| exists|i: int| #[trigger] layer_name(i, "ffn_down.weight"@) == name
}

/// What a machine can count of a file: the elements of every tensor, and the rows of
/// what is read as a matrix.
pub open spec fn within_limits(g: GgufView) -> bool {
    &&& forall|i: int|
        0 <= i < g.tensors.len() ==> (#[trigger] g.tensors[i]).elements() <= usize::MAX
    &&& forall|name: Seq<char>|
        #![trigger g.find_tensor(name)]
        names_a_matrix(name) && g.find_tensor(name) is Some ==> matrix_limits(
            g.find_tensor(name)->0,
        )
}

/// What a vector holds, where there is one.
pub open spec fn optional_view(v: Option<Vec<Weight>>) -> Option<Seq<Weight>> {
    match v {
        Some(x) => Some(x@),
        None => None,
    }
}

/// The numbers of a tensor, where there is one.
pub open spec fn optional_vector_of(file: Seq<u8>, g: GgufView, name: Seq<char>) -> Option<
    Seq<Weight>,
> {
    if g.find_tensor(name) is None {
        None
    } else {
        Some(vector_of(file, g, name))
    }
}

impl<'a> LayerWeights<'a> {
    /// The layer holds what the file has for it.
    pub open spec fn holds(&self, file: Seq<u8>, g: GgufView, i: int) -> bool {
        &&& self.attn_norm@ == vector_of(file, g, layer_name(i, "attn_norm.weight"@))
        &&& self.attn_q@ == matrix_of(file, g, layer_name(i, "attn_q.weight"@))
        &&& self.attn_k@ == matrix_of(file, g, layer_name(i, "attn_k.weight"@))
        &&& self.attn_v@ == matrix_of(file, g, layer_name(i, "attn_v.weight"@))
        &&& self.attn_output@ == matrix_of(file, g, layer_name(i, "attn_output.weight"@))
        &&& optional_view(self.attn_q_bias) == optional_vector_of(
            file,
            g,
            layer_name(i, "attn_q.bias"@),
        )
        &&& optional_view(self.attn_k_bias) == optional_vector_of(
            file,
            g,
            layer_name(i, "attn_k.bias"@),
        )
        &&& optional_view(self.attn_v_bias) == optional_vector_of(
            file,
            g,
            layer_name(i, "attn_v.bias"@),
        )
        &&& self.ffn_norm@ == vector_of(file, g, layer_name(i, "ffn_norm.weight"@))
        &&& self.ffn_gate@ == matrix_of(file, g, layer_name(i, "ffn_gate.weight"@))
        &&& self.ffn_up@ == matrix_of(file, g, layer_name(i, "ffn_up.weight"@))
        &&& self.ffn_down@ == matrix_of(file, g, layer_name(i, "ffn_down.weight"@))
    }

    /// The matrices have the shapes that the configuration asks for.
    pub open spec fn fits(&self, c: ModelConfig) -> bool {
        let d = c.embedding_length as int;
        let ff = c.feed_forward_length as int;
        let q_dim = c.head_count * c.head_dim;
        let kv_dim = c.head_count_kv * c.head_dim;
        &&& self.attn_q@.rows == q_dim && self.attn_q@.cols == d
        &&& self.attn_k@.rows == kv_dim && self.attn_k@.cols == d
        &&& self.attn_v@.rows == kv_dim && self.attn_v@.cols == d
        &&& self.attn_output@.rows == d && self.attn_output@.cols == q_dim
        &&& self.ffn_gate@.rows == ff && self.ffn_gate@.cols == d
        &&& self.ffn_up@.rows == ff && self.ffn_up@.cols == d
        &&& self.ffn_down@.rows == d && self.ffn_down@.cols == ff
    }
}

/// A tensor that is found is one of the table's.
proof fn lemma_found(tensors: Seq<TensorInfoView>, name: Seq<char>)
    requires
        file::first_named(tensors, name) is Some,
    ensures
        exists|i: int|
            0 <= i < tensors.len() && #[trigger] tensors[i] == file::first_named(tensors, name)->0,
    decreases tensors.len(),
{
    if tensors[0].name != name {
        lemma_found(tensors.drop_first(), name);
        let i = choose|i: int|
            0 <= i < tensors.drop_first().len() && #[trigger] tensors.drop_first()[i]
                == file::first_named(tensors.drop_first(), name)->0;
        assert(tensors[i + 1] == tensors.drop_first()[i]);
    }
}

/// The numbers of a tensor.
fn load_f32(g: &Gguf, name: &str) -> (r: Result<Vec<Weight>, WeightError>)
    requires
        g.sound(),
        within_limits(g@),
    ensures
        match r {
            Ok(v) => vector_error(g@, name@) is None && v@ == vector_of(g.file@, g@, name@),
            Err(e) => vector_error(g@, name@) == Some(e@),
        },
{
    match g.find_tensor(name) {
        None => Err(WeightError::Missing(name.to_owned())),
        Some(info) => {
            let size: usize = g.file.len();
            proof {
                lemma_found(g@.tensors, name@);
                assert(g@.tensors.contains(info@));
            }
            let n: usize = info.n_elements() as usize;
            match dequantize_row(info.ggml_type, g.tensor_data(info), n) {
                Ok(v) => Ok(v),
                Err(err) => Err(WeightError::Quant { name: name.to_owned(), err }),
            }
        },
    }
}

/// The numbers of a tensor, where there is one.
fn load_f32_opt(g: &Gguf, name: &str) -> (r: Result<Option<Vec<Weight>>, WeightError>)
    requires
        g.sound(),
        within_limits(g@),
    ensures
        match r {
            Ok(v) => part_error(g@, Part::OptionalVector(name@)) is None && optional_view(v)
                == optional_vector_of(g.file@, g@, name@),
            Err(e) => part_error(g@, Part::OptionalVector(name@)) == Some(e@),
        },
{
    match g.find_tensor(name) {
        None => Ok(None),
        Some(_) => match load_f32(g, name) {
            Ok(v) => Ok(Some(v)),
            Err(e) => Err(e),
        },
    }
}

/// A matrix of the given shape.
///
/// The axis order of files is easily reversed, and a transposed weight gives plausible
/// garbage rather than an error, so the shape is held against what is wanted.
fn load_matrix<'a>(g: &Gguf<'a>, name: &str, rows: usize, cols: usize) -> (r: Result<
    QuantMatrix<'a>,
    WeightError,
>)
    requires
        g.sound(),
        within_limits(g@),
        names_a_matrix(name@),
    ensures
        match r {
            Ok(m) => matrix_error(g@, name@, rows as int, cols as int) is None && m@ == matrix_of(
                g.file@,
                g@,
                name@,
            ) && m@.rows == rows && m@.cols == cols,
            Err(e) => matrix_error(g@, name@, rows as int, cols as int) == Some(e@),
        },
{
    match g.find_tensor(name) {
        None => Err(WeightError::Missing(name.to_owned())),
        Some(info) => {
            proof {
                lemma_found(g@.tensors, name@);
                assert(g@.tensors.contains(info@));
                assert(matrix_limits(info@));
            }
            match QuantMatrix::from_tensor(info, g.tensor_data(info)) {
                Err(err) => Err(WeightError::Quant { name: name.to_owned(), err }),
                Ok(m) => {
                    if m.rows() != rows || m.cols() != cols {
                        Err(
                            WeightError::BadShape {
                                name: name.to_owned(),
                                got: (m.rows(), m.cols()),
                                want: (rows, cols),
                            },
                        )
                    } else {
                        Ok(m)
                    }
                },
            }
        },
    }
}

/// The parameters of one layer.
fn load_layer<'a>(g: &Gguf<'a>, c: &ModelConfig, i: usize) -> (r: Result<
    LayerWeights<'a>,
    WeightError,
>)
    requires
        g.sound(),
        within_limits(g@),
        c.head_count * c.head_dim <= usize::MAX,
        c.head_count_kv * c.head_dim <= usize::MAX,
    ensures
        match r {
            Ok(l) => first_error(g@, layer_parts(*c, i as int)) is None && l.holds(
                g.file@,
                g@,
                i as int,
            ) && l.fits(*c),
            Err(e) => first_error(g@, layer_parts(*c, i as int)) == Some(e@),
        },
{
    let d: usize = c.embedding_length;
    let ff: usize = c.feed_forward_length;
    let q_dim: usize = c.q_dim();
    let kv_dim: usize = c.kv_dim();
    let ghost parts = layer_parts(*c, i as int);
    assert(clear(g@, parts, 0));
    let attn_norm = match load_f32(g, &name_in_layer(i, "attn_norm.weight")) {
        Ok(x) => x,
        Err(e) => {
            proof {
                lemma_fails_at(g@, parts, 0);
            }
            return Err(e);
        },
    };
    assert(clear(g@, parts, 1));
    let attn_q = match load_matrix(g, &name_in_layer(i, "attn_q.weight"), q_dim, d) {
        Ok(x) => x,
        Err(e) => {
            proof {
                lemma_fails_at(g@, parts, 1);
            }
            return Err(e);
        },
    };
    assert(clear(g@, parts, 2));
    let attn_k = match load_matrix(g, &name_in_layer(i, "attn_k.weight"), kv_dim, d) {
        Ok(x) => x,
        Err(e) => {
            proof {
                lemma_fails_at(g@, parts, 2);
            }
            return Err(e);
        },
    };
    assert(clear(g@, parts, 3));
    let attn_v = match load_matrix(g, &name_in_layer(i, "attn_v.weight"), kv_dim, d) {
        Ok(x) => x,
        Err(e) => {
            proof {
                lemma_fails_at(g@, parts, 3);
            }
            return Err(e);
        },
    };
    assert(clear(g@, parts, 4));
    let attn_output = match load_matrix(g, &name_in_layer(i, "attn_output.weight"), d, q_dim) {
        Ok(x) => x,
        Err(e) => {
            proof {
                lemma_fails_at(g@, parts, 4);
            }
            return Err(e);
        },
    };
    assert(clear(g@, parts, 5));
    let attn_q_bias = match load_f32_opt(g, &name_in_layer(i, "attn_q.bias")) {
        Ok(x) => x,
        Err(e) => {
            proof {
                lemma_fails_at(g@, parts, 5);
            }
            return Err(e);
        },
    };
    assert(clear(g@, parts, 6));
    let attn_k_bias = match load_f32_opt(g, &name_in_layer(i, "attn_k.bias")) {
        Ok(x) => x,
        Err(e) => {
            proof {
                lemma_fails_at(g@, parts, 6);
            }
            return Err(e);
        },
    };
    assert(clear(g@, parts, 7));
    let attn_v_bias = match load_f32_opt(g, &name_in_layer(i, "attn_v.bias")) {
        Ok(x) => x,
        Err(e) => {
            proof {
                lemma_fails_at(g@, parts, 7);
            }
            return Err(e);
        },
    };
    assert(clear(g@, parts, 8));
    let ffn_norm = match load_f32(g, &name_in_layer(i, "ffn_norm.weight")) {
        Ok(x) => x,
        Err(e) => {
            proof {
                lemma_fails_at(g@, parts, 8);
            }
            return Err(e);
        },
    };
    assert(clear(g@, parts, 9));
    let ffn_gate = match load_matrix(g, &name_in_layer(i, "ffn_gate.weight"), ff, d) {
        Ok(x) => x,
        Err(e) => {
            proof {
                lemma_fails_at(g@, parts, 9);
            }
            return Err(e);
        },
    };
    assert(clear(g@, parts, 10));
    let ffn_up = match load_matrix(g, &name_in_layer(i, "ffn_up.weight"), ff, d) {
        Ok(x) => x,
        Err(e) => {
            proof {
                lemma_fails_at(g@, parts, 10);
            }
            return Err(e);
        },
    };
    assert(clear(g@, parts, 11));
    let ffn_down = match load_matrix(g, &name_in_layer(i, "ffn_down.weight"), d, ff) {
        Ok(x) => x,
        Err(e) => {
            proof {
                lemma_fails_at(g@, parts, 11);
            }
            return Err(e);
        },
    };
    assert(clear(g@, parts, 12));
    proof {
        lemma_all_clear(g@, parts);
    }
    Ok(
        LayerWeights {
            attn_norm,
            attn_q,
            attn_k,
            attn_v,
            attn_output,
            attn_q_bias,
            attn_k_bias,
            attn_v_bias,
            ffn_norm,
            ffn_gate,
            ffn_up,
            ffn_down,
        },
    )
}

/// None of the first `n` parts has an error.
spec fn clear(g: GgufView, parts: Seq<Part>, n: nat) -> bool
    decreases n,
{
    n == 0 || (clear(g, parts, (n - 1) as nat) && part_error(g, parts[n - 1]) is None)
}

proof fn lemma_clear_rest(g: GgufView, parts: Seq<Part>, n: nat)
    requires
        clear(g, parts, n),
        0 < n <= parts.len(),
    ensures
        part_error(g, parts[0]) is None,
        clear(g, parts.drop_first(), (n - 1) as nat),
    decreases n,
{
    if n > 1 {
        lemma_clear_rest(g, parts, (n - 1) as nat);
        assert(parts.drop_first()[n - 2] == parts[n - 1]);
    }
}

/// The first error is that of the part before which there is none.
proof fn lemma_fails_at(g: GgufView, parts: Seq<Part>, n: nat)
    requires
        n < parts.len(),
        clear(g, parts, n),
        part_error(g, parts[n as int]) is Some,
    ensures
        first_error(g, parts) == part_error(g, parts[n as int]),
    decreases n,
{
    if n > 0 {
        lemma_clear_rest(g, parts, n);
        assert(parts.drop_first()[n - 1] == parts[n as int]);
        lemma_fails_at(g, parts.drop_first(), (n - 1) as nat);
    }
}

proof fn lemma_all_clear(g: GgufView, parts: Seq<Part>)
    requires
        clear(g, parts, parts.len()),
    ensures
        first_error(g, parts) is None,
    decreases parts.len(),
{
    if parts.len() > 0 {
        lemma_clear_rest(g, parts, parts.len());
        lemma_all_clear(g, parts.drop_first());
    }
}

impl<'a> ModelWeights<'a> {
    /// The model holds what the file has for every layer and beside them, in the
    /// shapes that the configuration asks for.
    pub open spec fn holds(&self, file: Seq<u8>, g: GgufView) -> bool {
        &&& self.layers@.len() == self.config.block_count
        &&& forall|i: int|
            0 <= i < self.layers@.len() ==> (#[trigger] self.layers@[i]).holds(file, g, i)
        &&& self.token_embd@ == matrix_of(file, g, "token_embd.weight"@)
        &&& self.output_norm@ == vector_of(file, g, "output_norm.weight"@)
        &&& self.output@ == matrix_of(file, g, "output.weight"@)
        &&& self.fits()
    }

    /// The matrices have the shapes that the configuration asks for.
    pub open spec fn fits(&self) -> bool {
        let c = self.config;
        &&& forall|i: int| 0 <= i < self.layers@.len() ==> (#[trigger] self.layers@[i]).fits(c)
        &&& self.token_embd@.rows == c.vocab_size && self.token_embd@.cols == c.embedding_length
        &&& self.output@.rows == c.vocab_size && self.output@.cols == c.embedding_length
    }

    /// Find every parameter that the configuration asks for.
    pub fn from_gguf(g: &Gguf<'a>) -> (r: Result<Self, WeightError>)
        requires
            g.sound(),
            within_limits(g@),
            forall|c: ModelConfig| #[trigger]
                g@.config_is(c) ==> c.head_count * c.head_dim <= usize::MAX && c.head_count_kv
                    * c.head_dim <= usize::MAX,
        ensures
            match r {
                Ok(w) => g@.config_is(w.config) && first_error(g@, all_parts(w.config)) is None
                    && w.holds(g.file@, g@),
                Err(e) => {
                    ||| exists|x: GgufErrorView| #[trigger]
                        g@.config_fails(x) && e@ == WeightErrorView::Missing(x.message())
                    ||| exists|c: ModelConfig| #[trigger]
                        g@.config_is(c) && first_error(g@, all_parts(c)) == Some(e@)
                },
            },
    {
        let config = match g.config() {
            Ok(c) => c,
            Err(e) => {
                assert(g@.config_fails(e@));
                return Err(WeightError::Missing(e.message()));
            },
        };
        let ghost n_layers = config.block_count as nat;
        let mut layers: Vec<LayerWeights<'a>> = Vec::new();
        let mut i: usize = 0;
        while i < config.block_count
            invariant
                i <= config.block_count,
                n_layers == config.block_count,
                g.sound(),
                within_limits(g@),
                g@.config_is(config),
                config.head_count * config.head_dim <= usize::MAX,
                config.head_count_kv * config.head_dim <= usize::MAX,
                layers@.len() == i,
                forall|j: int|
                    0 <= j < i ==> (#[trigger] layers@[j]).holds(g.file@, g@, j) && layers@[j].fits(
                        config,
                    ),
                first_error(g@, layers_parts(config, i as nat)) is None,
            decreases config.block_count - i,
        {
            proof {
                lemma_first_error_splits(
                    g@,
                    layers_parts(config, i as nat),
                    layer_parts(config, i as int),
                );
            }
            match load_layer(g, &config, i) {
                Ok(l) => layers.push(l),
                Err(e) => {
                    proof {
                        lemma_layers_come_first(g@, config, (i + 1) as nat, n_layers);
                        lemma_first_error_splits(
                            g@,
                            layers_parts(config, n_layers),
                            outer_parts(config),
                        );
                    }
                    return Err(e);
                },
            }
            i += 1;
        }
        proof {
            lemma_first_error_splits(g@, layers_parts(config, n_layers), outer_parts(config));
        }
        let ghost parts = outer_parts(config);
        assert(clear(g@, parts, 0));
        let token_embd = match load_matrix(
            g,
            "token_embd.weight",
            config.vocab_size,
            config.embedding_length,
        ) {
            Ok(m) => m,
            Err(e) => {
                proof {
                    lemma_fails_at(g@, parts, 0);
                }
                return Err(e);
            },
        };
        assert(clear(g@, parts, 1));
        let output_norm = match load_f32(g, "output_norm.weight") {
            Ok(v) => v,
            Err(e) => {
                proof {
                    lemma_fails_at(g@, parts, 1);
                }
                return Err(e);
            },
        };
        assert(clear(g@, parts, 2));
        let output = match load_matrix(
            g,
            "output.weight",
            config.vocab_size,
            config.embedding_length,
        ) {
            Ok(m) => m,
            Err(e) => {
                proof {
                    lemma_fails_at(g@, parts, 2);
                }
                return Err(e);
            },
        };
        assert(clear(g@, parts, 3));
        proof {
            lemma_all_clear(g@, parts);
        }
        Ok(ModelWeights { config, token_embd, layers, output_norm, output })
    }

    /// Whether the model carries attention biases.
    pub fn has_attn_bias(&self) -> (r: bool)
        ensures
            r == (self.layers@.len() > 0 && self.layers@[0].attn_q_bias is Some),
    {
        self.layers.len() > 0 && self.layers[0].attn_q_bias.is_some()
    }

    /// Bytes of the owned vectors, at four to a number, and of the matrices.
    pub open spec fn bytes(&self) -> nat {
        layers_bytes(self.layers@, self.layers@.len()) + self.output_norm@.len() * 4
            + self.token_embd@.data.len() + self.output@.data.len()
    }

    /// Bytes of weight data referenced, plus those of the owned vectors.
    pub fn byte_len(&self) -> (r: usize)
        requires
            self.bytes() <= usize::MAX,
        ensures
            r == self.bytes(),
    {
        let mut sum: usize = 0;
        let mut i: usize = 0;
        while i < self.layers.len()
            invariant
                i <= self.layers@.len(),
                sum == layers_bytes(self.layers@, i as nat),
                self.bytes() <= usize::MAX,
            decreases self.layers.len() - i,
        {
            proof {
                lemma_layers_bytes_grow(self.layers@, (i + 1) as nat, self.layers@.len());
            }
            sum = sum + self.layers[i].byte_len();
            i += 1;
        }
        sum + self.output_norm.len() * 4 + self.token_embd.byte_len() + self.output.byte_len()
    }

    /// The formats of the matrices: embedding, unembedding, then layer by layer.
    pub open spec fn matrix_types(&self) -> Seq<GgmlType> {
        seq![self.token_embd@.ty, self.output@.ty] + layers_types(
            self.layers@,
            self.layers@.len(),
        )
    }

    /// The distinct formats in use, with how many matrices have each, in the order of
    /// their tags.
    pub fn formats(&self) -> (r: Vec<(GgmlType, usize)>)
        requires
            2 + 7 * self.layers@.len() <= usize::MAX,
        ensures
            tallies(self.matrix_types(), r@),
    {
        let mut out: Vec<(GgmlType, usize)> = Vec::new();
        assert(tallies(Seq::empty(), out@));
        bump(&mut out, self.token_embd.ggml_type(), Ghost(Seq::empty()));
        let ghost first = Seq::empty().push(self.token_embd@.ty);
        bump(&mut out, self.output.ggml_type(), Ghost(first));
        let ghost outer = first.push(self.output@.ty);
        assert(outer =~= seq![self.token_embd@.ty, self.output@.ty]);
        let mut i: usize = 0;
        assert(outer + layers_types(self.layers@, 0) =~= outer);
        while i < self.layers.len()
            invariant
                i <= self.layers@.len(),
                tallies(outer + layers_types(self.layers@, i as nat), out@),
                outer.len() == 2,
                2 + 7 * self.layers@.len() <= usize::MAX,
            decreases self.layers.len() - i,
        {
            proof {
                lemma_layers_types_len(self.layers@, i as nat);
            }
            let ghost before = outer + layers_types(self.layers@, i as nat);
            bump_layer(&mut out, &self.layers[i], Ghost(before));
            assert(outer + layers_types(self.layers@, (i + 1) as nat) =~= before
                + self.layers@[i as int].types());
            i += 1;
        }
        out
    }
}

/// Count the formats of a layer.
fn bump_layer(
    out: &mut Vec<(GgmlType, usize)>,
    l: &LayerWeights<'_>,
    Ghost(before): Ghost<Seq<GgmlType>>,
)
    requires
        tallies(before, old(out)@),
        before.len() + 7 <= usize::MAX,
    ensures
        tallies(before + l.types(), final(out)@),
{
    let ghost t = l.types();
    proof {
        assert(before =~= before + t.take(0));
        lemma_one_more(before, t);
    }
    bump(out, l.attn_q.ggml_type(), Ghost(before + t.take(0)));
    bump(out, l.attn_k.ggml_type(), Ghost(before + t.take(1)));
    bump(out, l.attn_v.ggml_type(), Ghost(before + t.take(2)));
    bump(out, l.attn_output.ggml_type(), Ghost(before + t.take(3)));
    bump(out, l.ffn_gate.ggml_type(), Ghost(before + t.take(4)));
    bump(out, l.ffn_up.ggml_type(), Ghost(before + t.take(5)));
    bump(out, l.ffn_down.ggml_type(), Ghost(before + t.take(6)));
    assert(t.take(7) =~= t);
}

proof fn lemma_one_more(before: Seq<GgmlType>, t: Seq<GgmlType>)
    ensures
        forall|k: int|
            0 <= k < t.len() ==> #[trigger] (before + t.take(k)).push(t[k]) == before + t.take(k + 1),
{
    assert forall|k: int| 0 <= k < t.len() implies #[trigger] (before + t.take(k)).push(t[k])
        == before + t.take(k + 1) by {
        assert((before + t.take(k)).push(t[k]) =~= before + t.take(k + 1));
    }
}

impl<'a> LayerWeights<'a> {
    /// Bytes of the layer's vectors, at four to a number, and of its matrices.
    pub open spec fn bytes(&self) -> nat {
        (self.attn_norm@.len() + self.ffn_norm@.len()) * 4 + vector_bytes(self.attn_q_bias)
            + vector_bytes(self.attn_k_bias) + vector_bytes(self.attn_v_bias)
            + self.attn_q@.data.len() + self.attn_k@.data.len() + self.attn_v@.data.len()
            + self.attn_output@.data.len() + self.ffn_gate@.data.len() + self.ffn_up@.data.len()
            + self.ffn_down@.data.len()
    }

    fn byte_len(&self) -> (r: usize)
        requires
            self.bytes() <= usize::MAX,
        ensures
            r == self.bytes(),
    {
        (self.attn_norm.len() + self.ffn_norm.len()) * 4 + optional_bytes(&self.attn_q_bias)
            + optional_bytes(&self.attn_k_bias) + optional_bytes(&self.attn_v_bias)
            + self.attn_q.byte_len() + self.attn_k.byte_len() + self.attn_v.byte_len()
            + self.attn_output.byte_len() + self.ffn_gate.byte_len() + self.ffn_up.byte_len()
            + self.ffn_down.byte_len()
    }

    /// The formats of the layer's matrices.
    pub open spec fn types(&self) -> Seq<GgmlType> {
        seq![
            self.attn_q@.ty,
            self.attn_k@.ty,
            self.attn_v@.ty,
            self.attn_output@.ty,
            self.ffn_gate@.ty,
            self.ffn_up@.ty,
            self.ffn_down@.ty,
        ]
    }
}

/// Bytes of a vector, at four to a number, where there is one.
pub open spec fn vector_bytes(v: Option<Vec<Weight>>) -> nat {
    match v {
        Some(x) => x@.len() * 4,
        None => 0,
    }
}

fn optional_bytes(v: &Option<Vec<Weight>>) -> (r: usize)
    requires
        vector_bytes(*v) <= usize::MAX,
    ensures
        r == vector_bytes(*v),
{
    match v {
        Some(x) => x.len() * 4,
        None => 0,
    }
}

/// Bytes of the first `n` layers.
pub open spec fn layers_bytes(layers: Seq<LayerWeights>, n: nat) -> nat
    decreases n,
{
    if n == 0 {
        0
    } else {
        layers_bytes(layers, (n - 1) as nat) + layers[n - 1].bytes()
    }
}

proof fn lemma_layers_bytes_grow(layers: Seq<LayerWeights>, m: nat, n: nat)
    requires
        m <= n,
    ensures
        layers_bytes(layers, m) <= layers_bytes(layers, n),
    decreases n,
{
    if m < n {
        lemma_layers_bytes_grow(layers, m, (n - 1) as nat);
    }
}

/// The formats of the matrices of the first `n` layers.
pub open spec fn layers_types(layers: Seq<LayerWeights>, n: nat) -> Seq<GgmlType>
    decreases n,
{
    if n == 0 {
        Seq::empty()
    } else {
        layers_types(layers, (n - 1) as nat) + layers[n - 1].types()
    }
}

/// How often `t` occurs.
pub open spec fn occurrences(types: Seq<GgmlType>, t: GgmlType) -> nat
    decreases types.len(),
{
    if types.len() == 0 {
        0
    } else {
        occurrences(types.drop_last(), t) + if types.last() == t {
            1nat
        } else {
            0nat
        }
    }
}

/// `out` has every type that occurs once, with how often it occurs, in the order of
/// the tags.
pub open spec fn tallies(types: Seq<GgmlType>, out: Seq<(GgmlType, usize)>) -> bool {
    &&& forall|i: int, j: int|
        0 <= i < j < out.len() ==> (#[trigger] out[i]).0.tag() < (#[trigger] out[j]).0.tag()
    &&& forall|i: int|
        0 <= i < out.len() ==> (#[trigger] out[i]).1 == occurrences(types, out[i].0) && out[i].1
            > 0
    &&& forall|t: GgmlType|
        #[trigger] occurrences(types, t) > 0 ==> exists|i: int|
            0 <= i < out.len() && (#[trigger] out[i]).0 == t
}


/// Count one type more.
fn bump(out: &mut Vec<(GgmlType, usize)>, t: GgmlType, Ghost(types): Ghost<Seq<GgmlType>>)
    requires
        tallies(types, old(out)@),
        types.len() < usize::MAX,
    ensures
        tallies(types.push(t), final(out)@),
{
    let tag: u32 = t.to_tag();
    let mut i: usize = 0;
    while i < out.len() && out[i].0.to_tag() < tag
        invariant
            i <= out@.len(),
            tag == t.tag(),
            out@ == old(out)@,
            forall|j: int| 0 <= j < i ==> (#[trigger] out@[j]).0.tag() < tag,
        decreases out.len() - i,
    {
        i += 1;
    }
    let ghost before = out@;
    let ghost after = types.push(t);
    proof {
        assert forall|x: GgmlType| #[trigger] occurrences(after, x) == occurrences(types, x) + if x
            == t {
            1nat
        } else {
            0nat
        } by {
            assert(after.drop_last() =~= types);
        }
        lemma_occurrences_bound(types, t);
    }
    if i < out.len() && out[i].0.to_tag() == tag {
        proof {
            parse::lemma_tag_injective(before[i as int].0, t);
        }
        let n: usize = out[i].1;
        out.set(i, (t, n + 1));
        proof {
            assert forall|x: GgmlType| #[trigger] occurrences(after, x) > 0 implies exists|k: int|
                0 <= k < out@.len() && (#[trigger] out@[k]).0 == x by {
                if x == t {
                    assert(out@[i as int].0 == x);
                } else {
                    assert(occurrences(types, x) > 0);
                    let k = choose|k: int| 0 <= k < before.len() && (#[trigger] before[k]).0 == x;
                    assert(out@[k].0 == x);
                }
            }
        }
    } else {
        out.insert(i, (t, 1));
        proof {
            assert(out@ == before.insert(i as int, (t, 1usize)));
            assert forall|j: int| i <= j < before.len() implies (#[trigger] before[j]).0.tag()
                > tag by {
                if j > i {
                    assert(before[i as int].0.tag() < before[j].0.tag());
                }
            }
            if occurrences(types, t) > 0 {
                let k = choose|k: int| 0 <= k < before.len() && (#[trigger] before[k]).0 == t;
                assert(false);
            }
            assert forall|k: int| 0 <= k < out@.len() implies #[trigger] out@[k] == if k < i {
                before[k]
            } else if k == i {
                (t, 1usize)
            } else {
                before[k - 1]
            } by {}
            assert forall|x: GgmlType| #[trigger] occurrences(after, x) > 0 implies exists|k: int|
                0 <= k < out@.len() && (#[trigger] out@[k]).0 == x by {
                if x == t {
                    assert(out@[i as int].0 == x);
                } else {
                    assert(occurrences(types, x) > 0);
                    let k = choose|k: int| 0 <= k < before.len() && (#[trigger] before[k]).0 == x;
                    if k < i {
                        assert(out@[k].0 == x);
                    } else {
                        assert(out@[k + 1].0 == x);
                    }
                }
            }
        }
    }
}

proof fn lemma_occurrences_bound(types: Seq<GgmlType>, t: GgmlType)
    ensures
        occurrences(types, t) <= types.len(),
    decreases types.len(),
{
    if types.len() > 0 {
        lemma_occurrences_bound(types.drop_last(), t);
    }
}

proof fn lemma_layers_types_len(layers: Seq<LayerWeights>, n: nat)
    ensures
        layers_types(layers, n).len() == 7 * n,
    decreases n,
{
    if n > 0 {
        lemma_layers_types_len(layers, (n - 1) as nat);
    }
}

/// An error in the first `n` layers is the first error of them all.
proof fn lemma_layers_come_first(g: GgufView, c: ModelConfig, n: nat, all: nat)
    requires
        n <= all,
        first_error(g, layers_parts(c, n)) is Some,
    ensures
        first_error(g, layers_parts(c, all)) == first_error(g, layers_parts(c, n)),
    decreases all,
{
    if n < all {
        lemma_layers_come_first(g, c, n, (all - 1) as nat);
        lemma_first_error_splits(g, layers_parts(c, (all - 1) as nat), layer_parts(c, all - 1));
    }
}

} // verus!
