//! The container: header, metadata, tensor table.
use super::error::GgufErrorView;
use super::ggml_type::GgmlType;
use super::reader;
use super::value;
use super::value::{MetaType, ValueView};
use vstd::arithmetic::power2::is_pow2;
use vstd::prelude::*;

verus! {

/// Tensors are at most 4-dimensional.
pub const GGML_MAX_DIMS: usize = 4;

/// Default tensor-data alignment when `general.alignment` is absent.
pub const DEFAULT_ALIGNMENT: u64 = 32;

/// Description of one tensor, with its data still in the file.
#[derive(Debug, Clone, PartialEq, Eq)]
pub struct TensorInfo<'a> {
    pub name: &'a str,
    /// Dimensions with the fastest-varying axis first, so `dims[0]` is the row
    /// length.  Axes that are not used are 1.
    pub dims: [u64; 4],
    pub n_dims: u32,
    pub ggml_type: GgmlType,
    /// Byte offset from the start of the tensor-data section (not the file).
    pub offset: u64,
    /// Size on disk, derived from `dims` and `ggml_type`.
    pub byte_size: u64,
}

/// What a [`TensorInfo`] says.
#[verifier::ext_equal]
pub struct TensorInfoView {
    pub name: Seq<char>,
    pub dims: Seq<u64>,
    pub n_dims: nat,
    pub ggml_type: GgmlType,
    pub offset: nat,
    pub byte_size: nat,
}

impl<'a> View for TensorInfo<'a> {
    type V = TensorInfoView;

    open spec fn view(&self) -> TensorInfoView {
        TensorInfoView {
            name: self.name@,
            dims: self.dims@,
            n_dims: self.n_dims as nat,
            ggml_type: self.ggml_type,
            offset: self.offset as nat,
            byte_size: self.byte_size as nat,
        }
    }
}

/// The product of the first `n` numbers from `from` on.
pub open spec fn product(dims: Seq<u64>, from: int, n: nat) -> nat
    decreases n,
{
    if n == 0 {
        1
    } else {
        product(dims, from, (n - 1) as nat) * dims[from + n - 1] as nat
    }
}

/// Multiplied in order, no partial product of the first `n` numbers from `from`
/// on leaves the range of a `u64`.
pub open spec fn products_fit(dims: Seq<u64>, from: int, n: nat) -> bool {
    forall|m: nat| m <= n ==> #[trigger] product(dims, from, m) <= u64::MAX
}

impl<'a> TensorInfo<'a> {
    pub fn n_elements(&self) -> (r: u64)
        requires
            self.n_dims <= GGML_MAX_DIMS,
            products_fit(self.dims@, 0, self.n_dims as nat),
        ensures
            r == product(self.dims@, 0, self.n_dims as nat),
    {
        let mut n: u64 = 1;
        let mut i: usize = 0;
        while i < self.n_dims as usize
            invariant
                i <= self.n_dims <= GGML_MAX_DIMS,
                products_fit(self.dims@, 0, self.n_dims as nat),
                n == product(self.dims@, 0, i as nat),
            decreases self.n_dims - i,
        {
            assert(product(self.dims@, 0, (i + 1) as nat) == n * self.dims@[i as int]);
            n = n * self.dims[i];
            i += 1;
        }
        n
    }

    /// Dimensions reordered outermost-first.  `[896, 4864]` becomes `[4864, 896]`.
    pub fn shape_row_major(&self) -> (r: Vec<u64>)
        requires
            self.n_dims <= GGML_MAX_DIMS,
        ensures
            r@ == self.dims@.take(self.n_dims as int).reverse(),
    {
        let n: usize = self.n_dims as usize;
        let mut v: Vec<u64> = Vec::new();
        let mut i: usize = 0;
        while i < n
            invariant
                i <= n,
                n == self.n_dims <= GGML_MAX_DIMS,
                v@.len() == i,
                forall|j: int| 0 <= j < i ==> v@[j] == self.dims@[n - 1 - j],
            decreases n - i,
        {
            v.push(self.dims[n - 1 - i]);
            i += 1;
        }
        v
    }

    /// Row length in elements, i.e. the contiguous run: `dims[0]`.
    pub fn row_len(&self) -> (r: u64)
        ensures
            r == self.dims@[0],
    {
        self.dims[0]
    }

    /// Number of rows, i.e. everything above the innermost axis.
    pub fn n_rows(&self) -> (r: u64)
        requires
            1 <= self.n_dims <= GGML_MAX_DIMS,
            products_fit(self.dims@, 1, (self.n_dims - 1) as nat),
        ensures
            r == product(self.dims@, 1, (self.n_dims - 1) as nat),
    {
        let mut n: u64 = 1;
        let mut i: usize = 1;
        while i < self.n_dims as usize
            invariant
                1 <= i <= self.n_dims <= GGML_MAX_DIMS,
                products_fit(self.dims@, 1, (self.n_dims - 1) as nat),
                n == product(self.dims@, 1, (i - 1) as nat),
            decreases self.n_dims - i,
        {
            assert(product(self.dims@, 1, i as nat) == n * self.dims@[i as int]);
            n = n * self.dims[i];
            i += 1;
        }
        n
    }
}

/// `n` numbers of eight bytes, and the position behind them.
pub open spec fn spec_u64s(file: Seq<u8>, pos: int, n: nat) -> Result<
    (Seq<u64>, int),
    GgufErrorView,
>
    decreases n,
{
    if n == 0 {
        Ok((Seq::empty(), pos))
    } else {
        match spec_u64s(file, pos, (n - 1) as nat) {
            Err(e) => Err(e),
            Ok((v, p)) => match reader::spec_uint(file, p, 8) {
                Err(e) => Err(e),
                Ok((d, q)) => Ok((v.push(d as u64), q)),
            },
        }
    }
}

/// The axes that a file names, filled up with ones.
pub open spec fn pad_dims(v: Seq<u64>) -> Seq<u64> {
    Seq::new(
        4,
        |i: int|
            if i < v.len() {
                v[i]
            } else {
                1
            },
    )
}

/// The size in bytes of a tensor, or what is wrong with its shape.
pub open spec fn spec_byte_size(name: Seq<char>, ty: GgmlType, dims: Seq<u64>, n: nat) -> Result<
    nat,
    GgufErrorView,
> {
    let elements = product(dims, 0, n);
    if !products_fit(dims, 0, n) {
        Err(GgufErrorView::SizeOverflow { name })
    } else if elements % (ty.block_elems() as nat) != 0 {
        Err(GgufErrorView::NotBlockAligned { name, elements, block: ty.block_elems() as nat })
    } else {
        match ty.spec_bytes_for(elements) {
            Some(size) => Ok(size),
            None => Err(GgufErrorView::SizeOverflow { name }),
        }
    }
}

/// One entry of the tensor table, and the position behind it.
pub open spec fn spec_tensor_info(file: Seq<u8>, pos: int) -> Result<
    (TensorInfoView, int),
    GgufErrorView,
> {
    match reader::spec_str(file, pos) {
        Err(e) => Err(e),
        Ok((name, p1)) => match reader::spec_uint(file, p1, 4) {
            Err(e) => Err(e),
            Ok((n_dims, p2)) => if n_dims > GGML_MAX_DIMS {
                Err(GgufErrorView::TooManyDims { name, n_dims })
            } else {
                match spec_u64s(file, p2, n_dims) {
                    Err(e) => Err(e),
                    Ok((v, p3)) => match reader::spec_uint(file, p3, 4) {
                        Err(e) => Err(e),
                        Ok((tag, p4)) => spec_tensor_tail(file, p4, name, v, tag as u32),
                    },
                }
            },
        },
    }
}

/// The part of a tensor's entry that follows its type tag.
pub open spec fn spec_tensor_tail(
    file: Seq<u8>,
    pos: int,
    name: Seq<char>,
    v: Seq<u64>,
    tag: u32,
) -> Result<(TensorInfoView, int), GgufErrorView> {
    if !GgmlType::known_tag(tag) {
        Err(GgufErrorView::UnknownGgmlType(tag))
    } else {
        let ty = type_of_tag(tag);
        match reader::spec_uint(file, pos, 8) {
            Err(e) => Err(e),
            Ok((offset, p)) => match spec_byte_size(name, ty, pad_dims(v), v.len()) {
                Err(e) => Err(e),
                Ok(byte_size) => Ok(
                    (
                        TensorInfoView {
                            name,
                            dims: pad_dims(v),
                            n_dims: v.len(),
                            ggml_type: ty,
                            offset,
                            byte_size,
                        },
                        p,
                    ),
                ),
            },
        }
    }
}

/// Where a reader stands that could not read an entry of the tensor table: behind the last
/// field that was whole.
pub open spec fn after_bad_tensor_info(file: Seq<u8>, pos: int) -> int {
    match reader::spec_str(file, pos) {
        Err(_) => reader::after_bad_str(file, pos),
        Ok((_, p1)) => match reader::spec_uint(file, p1, 4) {
            Err(_) => p1,
            Ok((n_dims, p2)) => if n_dims > GGML_MAX_DIMS {
                p2
            } else {
                match spec_u64s(file, p2, n_dims) {
                    Err(_) => after_bad_u64s(file, p2),
                    Ok((_, p3)) => match reader::spec_uint(file, p3, 4) {
                        Err(_) => p3,
                        Ok((tag, p4)) => if !GgmlType::known_tag(tag as u32) {
                            p4
                        } else {
                            match reader::spec_uint(file, p4, 8) {
                                Err(_) => p4,
                                Ok((_, p5)) => p5,
                            }
                        },
                    },
                }
            },
        },
    }
}

/// Where a reader stands that ran out of the file in a row of numbers of eight bytes.
pub open spec fn after_bad_u64s(file: Seq<u8>, pos: int) -> int {
    pos + 8 * ((file.len() - pos) / 8)
}

/// The type with a given tag.
pub open spec fn type_of_tag(tag: u32) -> GgmlType {
    choose|t: GgmlType| t.tag() == tag
}

/// `n` entries of the tensor table in a row, and the position behind them.
pub open spec fn spec_tensors(file: Seq<u8>, pos: int, n: nat) -> Result<
    (Seq<TensorInfoView>, int),
    GgufErrorView,
>
    decreases n,
{
    if n == 0 {
        Ok((Seq::empty(), pos))
    } else {
        match spec_tensors(file, pos, (n - 1) as nat) {
            Err(e) => Err(e),
            Ok((v, p)) => match spec_tensor_info(file, p) {
                Err(e) => Err(e),
                Ok((t, q)) => Ok((v.push(t), q)),
            },
        }
    }
}

/// One key with its value, and the position behind them.
pub open spec fn spec_entry(file: Seq<u8>, pos: int) -> Result<
    ((Seq<char>, ValueView), int),
    GgufErrorView,
> {
    match reader::spec_str(file, pos) {
        Err(e) => Err(e),
        Ok((key, p)) => match reader::spec_uint(file, p, 4) {
            Err(e) => Err(e),
            Ok((tag, q)) => match MetaType::spec_from_tag(tag) {
                None => Err(GgufErrorView::UnknownValueType(tag as u32)),
                Some(ty) => match value::spec_value(file, q, ty, 0) {
                    Err(e) => Err(e),
                    Ok((v, s)) => Ok(((key, v), s)),
                },
            },
        },
    }
}

/// `n` keys with their values in a row, and the position behind them.
pub open spec fn spec_metadata(file: Seq<u8>, pos: int, n: nat) -> Result<
    (Seq<(Seq<char>, ValueView)>, int),
    GgufErrorView,
>
    decreases n,
{
    if n == 0 {
        Ok((Seq::empty(), pos))
    } else {
        match spec_metadata(file, pos, (n - 1) as nat) {
            Err(e) => Err(e),
            Ok((v, p)) => match spec_entry(file, p) {
                Err(e) => Err(e),
                Ok((kv, q)) => Ok((v.push(kv), q)),
            },
        }
    }
}

/// The value of the first entry with a given key.
pub open spec fn lookup(metadata: Seq<(Seq<char>, ValueView)>, key: Seq<char>) -> Option<ValueView>
    decreases metadata.len(),
{
    if metadata.len() == 0 {
        None
    } else if metadata[0].0 == key {
        Some(metadata[0].1)
    } else {
        lookup(metadata.drop_first(), key)
    }
}

/// The alignment that the metadata asks for.
pub open spec fn spec_alignment(metadata: Seq<(Seq<char>, ValueView)>) -> Result<
    u64,
    GgufErrorView,
> {
    let stated = match lookup(metadata, "general.alignment"@) {
        None => Ok(DEFAULT_ALIGNMENT),
        Some(v) => match v.as_u64() {
            Some(a) => Ok(a),
            None => Err(
                GgufErrorView::WrongType {
                    key: "general.alignment"@,
                    wanted: "integer"@,
                    found: v.kind_name(),
                },
            ),
        },
    };
    match stated {
        Err(e) => Err(e),
        Ok(a) => if is_pow2(a as int) {
            Ok(a)
        } else {
            Err(GgufErrorView::BadAlignment(a))
        },
    }
}

/// Version, number of tensors, number of metadata entries, and where the entries start.
pub open spec fn spec_header(file: Seq<u8>) -> Result<(u32, nat, nat, int), GgufErrorView> {
    match reader::spec_take(file, 0, 4) {
        Err(e) => Err(e),
        Ok((magic, p1)) => if magic != seq![71u8, 71u8, 85u8, 70u8] {
            Err(GgufErrorView::BadMagic(magic))
        } else {
            match reader::spec_uint(file, p1, 4) {
                Err(e) => Err(e),
                Ok((version, p2)) => if !(2 <= version <= 3) {
                    Err(GgufErrorView::UnsupportedVersion(version as u32))
                } else {
                    match reader::spec_len(file, p2, "tensor"@, 1) {
                        Err(e) => Err(e),
                        Ok((tensors, p3)) => match reader::spec_len(file, p3, "metadata kv"@, 1) {
                            Err(e) => Err(e),
                            Ok((entries, p4)) => Ok((version as u32, tensors, entries, p4)),
                        },
                    }
                },
            }
        },
    }
}

/// The least multiple of `alignment` at or after `pos`.
pub open spec fn next_multiple(pos: int, alignment: int) -> int {
    if pos % alignment == 0 {
        pos
    } else {
        pos - pos % alignment + alignment
    }
}

/// What is wrong with a tensor's place in a data section of `section_len` bytes.
pub open spec fn spec_misplaced(t: TensorInfoView, alignment: u64, section_len: int) -> Option<
    GgufErrorView,
> {
    if t.offset % (alignment as nat) != 0 {
        Some(
            GgufErrorView::MisalignedTensor {
                name: t.name,
                offset: t.offset,
                alignment: alignment as nat,
            },
        )
    } else if t.offset + t.byte_size > u64::MAX {
        Some(GgufErrorView::SizeOverflow { name: t.name })
    } else if t.offset + t.byte_size > section_len {
        Some(
            GgufErrorView::TensorOutOfBounds {
                name: t.name,
                offset: t.offset,
                size: t.byte_size,
                section_len,
            },
        )
    } else {
        None
    }
}

/// What is wrong with the first misplaced tensor, if any is.
pub open spec fn first_misplaced(
    tensors: Seq<TensorInfoView>,
    alignment: u64,
    section_len: int,
) -> Option<GgufErrorView>
    decreases tensors.len(),
{
    if tensors.len() == 0 {
        None
    } else {
        match spec_misplaced(tensors[0], alignment, section_len) {
            Some(e) => Some(e),
            None => first_misplaced(tensors.drop_first(), alignment, section_len),
        }
    }
}

/// What a parsed file says.
#[verifier::ext_equal]
pub struct GgufView {
    pub version: u32,
    pub alignment: u64,
    pub tensor_data_offset: int,
    pub metadata: Seq<(Seq<char>, ValueView)>,
    pub tensors: Seq<TensorInfoView>,
}

impl TensorInfoView {
    /// The shape is one that a file can state, and the size on disk follows from it.
    pub open spec fn sound(self) -> bool {
        &&& self.dims.len() == GGML_MAX_DIMS
        &&& self.n_dims <= GGML_MAX_DIMS
        &&& products_fit(self.dims, 0, self.n_dims)
        &&& self.ggml_type.spec_bytes_for(self.elements()) == Some(self.byte_size)
    }

    pub open spec fn elements(self) -> nat {
        product(self.dims, 0, self.n_dims)
    }
}

impl GgufView {
    /// Every tensor is sound and lies inside a file of `file_len` bytes.
    pub open spec fn sound(self, file_len: int) -> bool {
        &&& 0 <= self.tensor_data_offset
        &&& forall|i: int|
            0 <= i < self.tensors.len() ==> (#[trigger] self.tensors[i]).sound()
                && self.tensor_data_offset + self.tensors[i].offset + self.tensors[i].byte_size
                <= file_len
    }

    /// The bytes of a tensor.
    pub open spec fn tensor_data(self, file: Seq<u8>, t: TensorInfoView) -> Seq<u8> {
        file.subrange(
            self.tensor_data_offset + t.offset,
            self.tensor_data_offset + t.offset + t.byte_size,
        )
    }

    /// The first tensor with a given name.
    pub open spec fn find_tensor(self, name: Seq<char>) -> Option<TensorInfoView> {
        first_named(self.tensors, name)
    }
}

/// The first tensor with a given name.
pub open spec fn first_named(tensors: Seq<TensorInfoView>, name: Seq<char>) -> Option<
    TensorInfoView,
>
    decreases tensors.len(),
{
    if tensors.len() == 0 {
        None
    } else if tensors[0].name == name {
        Some(tensors[0])
    } else {
        first_named(tensors.drop_first(), name)
    }
}

/// Where the tensor data starts, once the tables end at `pos`, with every tensor
/// inside it.
pub open spec fn spec_place(
    file: Seq<u8>,
    pos: int,
    alignment: u64,
    tensors: Seq<TensorInfoView>,
) -> Result<int, GgufErrorView> {
    let start = next_multiple(pos, alignment as int);
    if start > file.len() {
        Err(
            GgufErrorView::UnexpectedEof {
                at: pos,
                needed: ((start - pos) as usize) as int,
                remaining: file.len() - pos,
            },
        )
    } else {
        match first_misplaced(tensors, alignment, file.len() - start) {
            Some(e) => Err(e),
            None => Ok(start),
        }
    }
}

/// What the bytes of a file say.
pub open spec fn spec_parse(file: Seq<u8>) -> Result<GgufView, GgufErrorView> {
    match spec_header(file) {
        Err(e) => Err(e),
        Ok((version, n_tensors, n_entries, p)) => match spec_metadata(file, p, n_entries) {
            Err(e) => Err(e),
            Ok((metadata, q)) => match spec_alignment(metadata) {
                Err(e) => Err(e),
                Ok(alignment) => match spec_tensors(file, q, n_tensors) {
                    Err(e) => Err(e),
                    Ok((tensors, s)) => match spec_place(file, s, alignment, tensors) {
                        Err(e) => Err(e),
                        Ok(tensor_data_offset) => Ok(
                            GgufView { version, alignment, tensor_data_offset, metadata, tensors },
                        ),
                    },
                },
            },
        },
    }
}

} // verus!
