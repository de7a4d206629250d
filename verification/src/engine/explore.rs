//! Looking into the tensors of a file.
use crate::gguf::file;
use crate::gguf::file::{TensorInfo, TensorInfoView};
use crate::gguf::sizes;
use crate::gguf::Gguf;
use crate::model::weights;
use crate::quant::dequant;
use crate::quant::dequant::{is_supported, QuantError};
use crate::quant::inspect;
use crate::quant::inspect::{decompose_block, BlockDecomp};
use crate::text;
use vstd::prelude::*;

verus! {

/// One tensor's identity.
#[derive(Debug, Clone, PartialEq, Eq)]
pub struct TensorSummary {
    pub name: String,
    pub format: &'static str,
    pub rows: u32,
    pub cols: u32,
    pub blocks: u32,
    pub bytes: u64,
    /// Elements, at least 1.
    pub elements: u64,
    /// The blocks can be taken apart.
    pub inspectable: bool,
}

/// The rows of a tensor can be counted.
pub open spec fn countable(t: TensorInfoView) -> bool {
    1 <= t.n_dims && file::products_fit(t.dims, 1, (t.n_dims - 1) as nat)
}

/// `s` says what there is to say of a tensor.  `dims[0]` is the contiguous axis, so it is
/// the length of a row.
pub open spec fn summarises(s: TensorSummary, t: TensorInfoView) -> bool {
    let elements = if t.elements() >= 1 {
        t.elements()
    } else {
        1
    };
    &&& s.name@ == t.name
    &&& s.format@ == t.ggml_type.name()@
    &&& s.rows == weights::rows_of(t) as u32
    &&& s.cols == t.dims[0] as u32
    &&& s.blocks == (elements / (t.ggml_type.block_elems() as nat)) as u32
    &&& s.bytes == t.byte_size
    &&& s.elements == elements
    &&& s.inspectable == (dequant::supported(t.ggml_type) && t.ggml_type.block_elems() > 1)
}

fn summary(t: &TensorInfo<'_>) -> (r: TensorSummary)
    requires
        t@.sound(),
        countable(t@),
    ensures
        summarises(r, t@),
{
    let n: u64 = t.n_elements();
    let elements: u64 = if n >= 1 {
        n
    } else {
        1
    };
    let blocks: u64 = elements / t.ggml_type.block_elems() as u64;
    TensorSummary {
        name: t.name.to_owned(),
        format: t.ggml_type.name(),
        rows: #[verifier::truncate] (t.n_rows() as u32),
        cols: #[verifier::truncate] (t.row_len() as u32),
        blocks: #[verifier::truncate] (blocks as u32),
        bytes: t.byte_size,
        elements,
        inspectable: is_supported(t.ggml_type) && t.ggml_type.block_elems() > 1,
    }
}

/// Every tensor of a file, in file order.
pub fn tensor_list(g: &Gguf<'_>) -> (r: Vec<TensorSummary>)
    requires
        g.sound(),
        forall|i: int| 0 <= i < g@.tensors.len() ==> countable(#[trigger] g@.tensors[i]),
    ensures
        r@.len() == g@.tensors.len(),
        forall|i: int| 0 <= i < r@.len() ==> summarises(#[trigger] r@[i], g@.tensors[i]),
{
    let mut out: Vec<TensorSummary> = Vec::new();
    let mut i: usize = 0;
    while i < g.tensors.len()
        invariant
            g.sound(),
            forall|i: int| 0 <= i < g@.tensors.len() ==> countable(#[trigger] g@.tensors[i]),
            i <= g.tensors@.len(),
            g@.tensors.len() == g.tensors@.len(),
            out@.len() == i,
            forall|j: int| 0 <= j < i ==> summarises(#[trigger] out@[j], g@.tensors[j]),
        decreases g.tensors.len() - i,
    {
        assert(g@.tensors[i as int] == g.tensors@[i as int]@);
        out.push(summary(&g.tensors[i]));
        i += 1;
    }
    out
}

/// Why a block cannot be taken apart.
#[derive(Debug, Clone, PartialEq, Eq)]
pub enum InspectError {
    NoTensor(String),
    OutOfRange { block: u32, name: String, n_blocks: usize },
    Quant(QuantError),
}

/// What an [`InspectError`] says.
pub enum InspectErrorView {
    NoTensor(Seq<char>),
    OutOfRange { block: u32, name: Seq<char>, n_blocks: nat },
    Quant(QuantError),
}

impl View for InspectError {
    type V = InspectErrorView;

    open spec fn view(&self) -> InspectErrorView {
        match *self {
            InspectError::NoTensor(n) => InspectErrorView::NoTensor(n@),
            InspectError::OutOfRange { block, name, n_blocks } => InspectErrorView::OutOfRange {
                block,
                name: name@,
                n_blocks: n_blocks as nat,
            },
            InspectError::Quant(e) => InspectErrorView::Quant(e),
        }
    }
}

impl InspectErrorView {
    /// The message for people.
    pub open spec fn message(self) -> Seq<char> {
        match self {
            InspectErrorView::NoTensor(n) => "no tensor named "@ + text::quoted(n),
            InspectErrorView::OutOfRange { block, name, n_blocks } => {
                "block "@ + text::decimal(block as nat) + " out of range; "@ + name + " has "@
                    + text::decimal(n_blocks)
            },
            InspectErrorView::Quant(e) => e.spec_message(),
        }
    }
}

impl InspectError {
    /// The message for people.
    pub fn message(&self) -> (r: String)
        ensures
            r@ == self@.message(),
    {
        match self {
            InspectError::NoTensor(n) => {
                let mut s = "no tensor named ".to_owned();
                s.push_str(&text::quote(n));
                s
            },
            InspectError::OutOfRange { block, name, n_blocks } => {
                let mut s = "block ".to_owned();
                text::push_decimal(&mut s, *block as u128);
                s.push_str(" out of range; ");
                s.push_str(name);
                s.push_str(" has ");
                text::push_decimal(&mut s, *n_blocks as u128);
                s
            },
            InspectError::Quant(e) => e.message(),
        }
    }
}

/// The bytes of a block of a tensor.
pub open spec fn block_of(file: Seq<u8>, g: file::GgufView, t: TensorInfoView, block: int) -> Seq<
    u8,
> {
    let bb = t.ggml_type.block_bytes() as int;
    g.tensor_data(file, t).subrange(block * bb, (block + 1) * bb)
}

/// Take one block of one tensor apart.
pub fn inspect_block(g: &Gguf<'_>, name: &str, block: u32) -> (r: Result<BlockDecomp, InspectError>)
    requires
        g.sound(),
    ensures
        match g@.find_tensor(name@) {
            None => r is Err && r->Err_0@ == InspectErrorView::NoTensor(name@),
            Some(t) => {
                let n_blocks = t.byte_size / (t.ggml_type.block_bytes() as nat);
                if block >= n_blocks {
                    r is Err && r->Err_0@ == (InspectErrorView::OutOfRange {
                        block,
                        name: name@,
                        n_blocks,
                    })
                } else if !crate::quant::blocks::is_block_format(t.ggml_type) {
                    r is Err && r->Err_0@ == InspectErrorView::Quant(
                        QuantError::UnsupportedType(t.ggml_type),
                    )
                } else {
                    r is Ok && inspect::taken_apart(
                        r->Ok_0,
                        t.ggml_type,
                        block_of(g.file@, g@, t, block as int),
                    )
                }
            },
        },
{
    match g.find_tensor(name) {
        None => Err(InspectError::NoTensor(name.to_owned())),
        Some(info) => {
            let size: usize = g.file.len();
            proof {
                let i = choose|i: int| 0 <= i < g.tensors@.len() && g.tensors@[i] == *info;
                assert(g@.tensors[i] == info@);
            }
            let ty = info.ggml_type;
            let bb: usize = ty.block_bytes();
            let data = g.tensor_data(info);
            let n_blocks: usize = data.len() / bb;
            if block as u64 >= n_blocks as u64 {
                return Err(
                    InspectError::OutOfRange { block, name: name.to_owned(), n_blocks },
                );
            }
            proof {
                vstd::arithmetic::div_mod::lemma_fundamental_div_mod(
                    data@.len() as int,
                    bb as int,
                );
                assert(0 <= block * bb && (block + 1) * bb == block * bb + bb && (block + 1) * bb
                    <= data@.len()) by (nonlinear_arith)
                    requires
                        block < n_blocks,
                        data@.len() == bb * n_blocks + data@.len() % (bb as nat),
                        bb > 0,
                ;
            }
            let start: usize = block as usize * bb;
            match decompose_block(ty, vstd::slice::slice_subrange(data, start, start + bb)) {
                Ok(d) => Ok(d),
                Err(e) => Err(InspectError::Quant(e)),
            }
        },
    }
}

/// A summary's numbers belong together: rows times columns are the elements, and the blocks
/// take the bytes.
pub proof fn law_summaries_add_up(s: TensorSummary, t: TensorInfoView)
    requires
        summarises(s, t),
        t.sound(),
        countable(t),
        t.elements() >= 1,
        t.elements() <= u32::MAX,
    ensures
        s.name@ == t.name,
        s.elements == t.elements(),
        s.cols == t.dims[0],
        s.rows * s.cols == s.elements,
        s.blocks * t.ggml_type.block_elems() == s.elements,
        s.blocks * t.ggml_type.block_bytes() == s.bytes,
        s.inspectable <==> (t.ggml_type is Q4_0 || t.ggml_type is Q5_0 || t.ggml_type is Q8_0
            || t.ggml_type is Q4_K || t.ggml_type is Q6_K),
{
    let be = t.ggml_type.block_elems() as int;
    let n = t.elements() as int;
    sizes::law_rows_make_up_a_tensor(t.dims, t.n_dims);
    let rows = weights::rows_of(t);
    let cols = t.dims[0] as int;
    assert(rows * cols == cols * rows) by (nonlinear_arith);
    assert(rows <= n && cols <= n) by (nonlinear_arith)
        requires
            cols * rows == n,
            n >= 1,
            rows >= 0,
            cols >= 0,
    ;
    vstd::arithmetic::div_mod::lemma_fundamental_div_mod(n, be);
    assert(be * (n / be) == n / be * be) by (nonlinear_arith);
    assert(n / be <= n) by (nonlinear_arith)
        requires
            n >= 0,
            be >= 1,
    ;
}

/// Taking a block of a tensor apart gives that block's part of the tensor's weights.
pub proof fn law_blocks_are_parts_of_the_tensor(
    file: Seq<u8>,
    g: file::GgufView,
    t: TensorInfoView,
    d: BlockDecomp,
    nb: nat,
    block: int,
    i: int,
)
    requires
        crate::quant::blocks::is_block_format(t.ggml_type),
        0 <= block < nb,
        0 <= i < t.ggml_type.block_elems(),
        inspect::taken_apart(d, t.ggml_type, block_of(file, g, t, block)),
    ensures
        d.weights().len() == t.ggml_type.block_elems(),
        d.weights()[i] == dequant::row_weights(t.ggml_type, g.tensor_data(file, t), nb)[block
            * t.ggml_type.block_elems() + i],
{
    let data = g.tensor_data(file, t);
    dequant::law_reconstruction_is_dequantisation(
        d,
        t.ggml_type,
        block_of(file, g, t, block),
    );
    crate::quant::exact::lemma_weight_at(t.ggml_type, data, nb, block, i);
}

} // verus!
