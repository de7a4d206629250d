//! A 2-D weight matrix, still in the file's quantisation format.
use crate::gguf::file;
use crate::gguf::file::{TensorInfo, GGML_MAX_DIMS};
use crate::gguf::ggml_type::GgmlType;
use crate::quant::dequant;
use crate::quant::dequant::{dequantize_row, is_supported, QuantError, Weight};
use vstd::prelude::*;

verus! {

/// Bytes of one row of `cols` elements.
pub open spec fn row_size(ty: GgmlType, cols: int) -> int {
    cols / (ty.block_elems() as int) * ty.block_bytes()
}

/// What is wrong with a matrix of the given geometry over `got` bytes.
pub open spec fn matrix_error(ty: GgmlType, got: int, rows: int, cols: int) -> Option<QuantError> {
    let want = rows * (cols / (ty.block_elems() as int)) * ty.block_bytes();
    if !dequant::supported(ty) {
        Some(QuantError::UnsupportedType(ty))
    } else if cols % (ty.block_elems() as int) != 0 {
        Some(
            QuantError::NotBlockAligned { ty, len: cols as usize, block: ty.block_elems() },
        )
    } else if got != want {
        Some(QuantError::BadSourceLength { ty, got: got as usize, want: want as usize })
    } else {
        None
    }
}

/// The size of a matrix can be counted in a `usize`, step by step.
pub open spec fn matrix_fits(ty: GgmlType, rows: int, cols: int) -> bool {
    &&& rows * (cols / (ty.block_elems() as int)) <= usize::MAX
    &&& rows * (cols / (ty.block_elems() as int)) * ty.block_bytes() <= usize::MAX
}

/// `rows` rows of `cols` contiguous weights, in the file's own format.
///
/// One row is one output neuron's full set of input weights.
#[derive(Debug, Clone, Copy)]
pub struct QuantMatrix<'a> {
    ty: GgmlType,
    data: &'a [u8],
    rows: usize,
    cols: usize,
}

/// What a [`QuantMatrix`] holds.
pub struct MatrixView {
    pub ty: GgmlType,
    pub data: Seq<u8>,
    pub rows: int,
    pub cols: int,
}

impl<'a> View for QuantMatrix<'a> {
    type V = MatrixView;

    closed spec fn view(&self) -> MatrixView {
        MatrixView {
            ty: self.ty,
            data: self.data@,
            rows: self.rows as int,
            cols: self.cols as int,
        }
    }
}

impl<'a> QuantMatrix<'a> {
    #[verifier::type_invariant]
    spec fn inv(self) -> bool {
        &&& matrix_error(self.ty, self.data@.len() as int, self.rows as int, self.cols as int)
            is None
        &&& matrix_fits(self.ty, self.rows as int, self.cols as int)
    }

    /// Wrap a tensor of a file.  `data` must be the tensor's bytes.
    pub fn from_tensor(info: &TensorInfo<'_>, data: &'a [u8]) -> (r: Result<Self, QuantError>)
        requires
            dequant::supported(info.ggml_type) ==> {
                &&& 1 <= info.n_dims <= GGML_MAX_DIMS
                &&& file::products_fit(info.dims@, 1, (info.n_dims - 1) as nat)
                &&& info.dims@[0] <= usize::MAX
                &&& file::product(info.dims@, 1, (info.n_dims - 1) as nat) <= usize::MAX
                &&& matrix_fits(
                    info.ggml_type,
                    file::product(info.dims@, 1, (info.n_dims - 1) as nat) as int,
                    info.dims@[0] as int,
                )
            },
        ensures
            ({
                let rows = file::product(info.dims@, 1, (info.n_dims - 1) as nat) as int;
                let cols = info.dims@[0] as int;
                match r {
                    Ok(m) => matrix_error(info.ggml_type, data@.len() as int, rows, cols) is None
                        && m@ == (MatrixView { ty: info.ggml_type, data: data@, rows, cols }),
                    Err(e) => matrix_error(info.ggml_type, data@.len() as int, rows, cols) == Some(
                        e,
                    ),
                }
            }),
    {
        let ty = info.ggml_type;
        if !is_supported(ty) {
            return Err(QuantError::UnsupportedType(ty));
        }
        // `dims[0]` is the contiguous axis, so it is the row length.
        let cols: usize = info.row_len() as usize;
        let rows: usize = info.n_rows() as usize;
        Self::new(ty, data, rows, cols)
    }

    /// Build one directly.
    pub fn new(ty: GgmlType, data: &'a [u8], rows: usize, cols: usize) -> (r: Result<
        Self,
        QuantError,
    >)
        requires
            dequant::supported(ty) ==> matrix_fits(ty, rows as int, cols as int),
        ensures
            match r {
                Ok(m) => matrix_error(ty, data@.len() as int, rows as int, cols as int) is None
                    && m@ == (MatrixView { ty, data: data@, rows: rows as int, cols: cols as int }),
                Err(e) => matrix_error(ty, data@.len() as int, rows as int, cols as int) == Some(e),
            },
    {
        if !is_supported(ty) {
            return Err(QuantError::UnsupportedType(ty));
        }
        let block: usize = ty.block_elems();
        if cols % block != 0 {
            return Err(QuantError::NotBlockAligned { ty, len: cols, block });
        }
        let per_row: usize = cols / block;
        assert(0 <= rows * per_row) by (nonlinear_arith);
        let blocks: usize = rows * per_row;
        let want: usize = blocks * ty.block_bytes();
        if data.len() != want {
            return Err(QuantError::BadSourceLength { ty, got: data.len(), want });
        }
        Ok(QuantMatrix { ty, data, rows, cols })
    }

    pub fn ggml_type(&self) -> (r: GgmlType)
        ensures
            r == self@.ty,
    {
        self.ty
    }

    pub fn rows(&self) -> (r: usize)
        ensures
            r == self@.rows,
    {
        self.rows
    }

    pub fn cols(&self) -> (r: usize)
        ensures
            r == self@.cols,
    {
        self.cols
    }

    pub fn bytes_per_row(&self) -> (r: usize)
        requires
            row_size(self@.ty, self@.cols) <= usize::MAX,
        ensures
            r == row_size(self@.ty, self@.cols),
    {
        self.cols / self.ty.block_elems() * self.ty.block_bytes()
    }

    /// The raw bytes of one row, still quantised.
    pub fn row_bytes(&self, r: usize) -> (bytes: &'a [u8])
        requires
            r < self@.rows,
        ensures
            bytes@ == self@.data.subrange(
                r * row_size(self@.ty, self@.cols),
                (r + 1) * row_size(self@.ty, self@.cols),
            ),
            bytes@.len() == row_size(self@.ty, self@.cols),
    {
        proof {
            use_type_invariant(self);
        }
        let total: usize = self.data.len();
        let ghost n = row_size(self@.ty, self@.cols);
        let ghost per_row = self@.cols / (self@.ty.block_elems() as int);
        let ghost bb = self@.ty.block_bytes() as int;
        assert(0 <= n && 0 <= r * n && (r + 1) * n == r * n + n && (r + 1) * n <= self.rows * n
            && self.rows * n == self.rows * per_row * bb) by (nonlinear_arith)
            requires
                n == per_row * bb,
                0 <= per_row,
                0 < bb,
                r + 1 <= self.rows,
        ;
        assert(n <= total) by (nonlinear_arith)
            requires
                (r + 1) * n == r * n + n,
                0 <= r * n,
                (r + 1) * n <= self.rows * n,
                self.rows * n == total,
        ;
        let n: usize = self.bytes_per_row();
        let start: usize = r * n;
        vstd::slice::slice_subrange(self.data, start, start + n)
    }

    /// The weights of one row, of which `len` are asked for.
    pub fn dequant_row(&self, r: u32, len: usize) -> (res: Result<Vec<Weight>, QuantError>)
        requires
            r < self@.rows,
            len / self@.ty.block_elems() * self@.ty.block_bytes() <= usize::MAX,
        ensures
            ({
                let n = row_size(self@.ty, self@.cols);
                let row = self@.data.subrange(r * n, (r + 1) * n);
                match res {
                    Ok(v) => dequant::row_error(self@.ty, n, len as int) is None && v@
                        == dequant::row_weights(self@.ty, row, (len / self@.ty.block_elems()) as nat)
                        && v@.len() == len,
                    Err(e) => dequant::row_error(self@.ty, n, len as int) == Some(e),
                }
            }),
    {
        dequantize_row(self.ty, self.row_bytes(r as usize), len)
    }

    /// Total bytes held: the rows in order, and nothing else.
    pub fn byte_len(&self) -> (r: usize)
        ensures
            r == self@.data.len(),
            r == self@.rows * row_size(self@.ty, self@.cols),
            self@.cols % (self@.ty.block_elems() as int) == 0,
            dequant::supported(self@.ty),
    {
        proof {
            use_type_invariant(self);
            let per_row = self@.cols / (self@.ty.block_elems() as int);
            let bb = self@.ty.block_bytes() as int;
            assert(self@.rows * per_row * bb == self@.rows * (per_row * bb)) by (nonlinear_arith);
        }
        self.data.len()
    }
}

} // verus!
