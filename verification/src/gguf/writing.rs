//! What is written into a container is what is read from it.
//!
//! The container is written down here from the writer's side: magic, version, counts, keys
//! and values, tensor entries, padding, data.  Parsing what was written so gives back what
//! was written.
use super::file;
use super::file::{GgufView, TensorInfoView};
use super::ggml_type::GgmlType;
use super::reader;
use super::value;
use super::value::{ArrayView, MetaType, ValueView};
use vstd::arithmetic::power2::is_pow2;
use vstd::prelude::*;
use vstd::utf8::*;

verus! {

/// A number in `w` bytes, the low one first.
pub open spec fn le(n: nat, w: nat) -> Seq<u8>
    decreases w,
{
    if w == 0 {
        Seq::empty()
    } else {
        seq![(n % 256) as u8] + le(n / 256, (w - 1) as nat)
    }
}

/// How many numbers `w` bytes can hold.
pub open spec fn bound(w: nat) -> nat
    decreases w,
{
    if w == 0 {
        1
    } else {
        256 * bound((w - 1) as nat)
    }
}

proof fn lemma_bounds()
    ensures
        bound(1) == 0x100,
        bound(2) == 0x1_0000,
        bound(4) == 0x1_0000_0000,
        bound(8) == 0x1_0000_0000_0000_0000,
{
    reveal_with_fuel(bound, 9);
}

proof fn lemma_le(n: nat, w: nat)
    requires
        n < bound(w),
    ensures
        le(n, w).len() == w,
        reader::le_nat(le(n, w)) == n,
    decreases w,
{
    if w > 0 {
        let b = bound((w - 1) as nat);
        assert(n / 256 < b) by (nonlinear_arith)
            requires
                n < 256 * b,
        ;
        lemma_le(n / 256, (w - 1) as nat);
        let s = le(n, w);
        assert(s.drop_first() =~= le(n / 256, (w - 1) as nat));
        assert(s[0] == (n % 256) as u8);
    }
}

/// A text: how many bytes it has, and its bytes.
pub open spec fn put_str(s: Seq<char>) -> Seq<u8> {
    le(encode_utf8(s).len(), 8) + encode_utf8(s)
}

/// A signed number in two's complement, where `half` is the weight of the sign bit.
pub open spec fn twos(v: int, half: int) -> nat {
    (if v < 0 {
        v + 2 * half
    } else {
        v
    }) as nat
}

/// The type of a value.
pub open spec fn type_of(v: ValueView) -> MetaType {
    match v {
        ValueView::U8(_) => MetaType::U8,
        ValueView::I8(_) => MetaType::I8,
        ValueView::U16(_) => MetaType::U16,
        ValueView::I16(_) => MetaType::I16,
        ValueView::U32(_) => MetaType::U32,
        ValueView::I32(_) => MetaType::I32,
        ValueView::U64(_) => MetaType::U64,
        ValueView::I64(_) => MetaType::I64,
        ValueView::F32(_) => MetaType::F32,
        ValueView::F64(_) => MetaType::F64,
        ValueView::Bool(_) => MetaType::Bool,
        ValueView::Str(_) => MetaType::String,
        ValueView::Array(_) => MetaType::Array,
    }
}

/// The number that names a type.
pub open spec fn number_of(ty: MetaType) -> nat {
    match ty {
        MetaType::U8 => 0,
        MetaType::I8 => 1,
        MetaType::U16 => 2,
        MetaType::I16 => 3,
        MetaType::U32 => 4,
        MetaType::I32 => 5,
        MetaType::F32 => 6,
        MetaType::Bool => 7,
        MetaType::String => 8,
        MetaType::Array => 9,
        MetaType::U64 => 10,
        MetaType::I64 => 11,
        MetaType::F64 => 12,
    }
}

/// The bytes of a value; those of an array are the type of its elements, how many there are,
/// and the elements.
pub open spec fn put_value(v: ValueView) -> Seq<u8>
    decreases v, 0nat,
{
    match v {
        ValueView::U8(x) => le(x as nat, 1),
        ValueView::I8(x) => le(twos(x as int, 0x80), 1),
        ValueView::U16(x) => le(x as nat, 2),
        ValueView::I16(x) => le(twos(x as int, 0x8000), 2),
        ValueView::U32(x) => le(x as nat, 4),
        ValueView::I32(x) => le(twos(x as int, 0x8000_0000), 4),
        ValueView::U64(x) => le(x as nat, 8),
        ValueView::I64(x) => le(twos(x as int, 0x8000_0000_0000_0000), 8),
        ValueView::F32(x) => le(x as nat, 4),
        ValueView::F64(x) => le(x as nat, 8),
        ValueView::Bool(x) => le(
            if x {
                1
            } else {
                0
            },
            1,
        ),
        ValueView::Str(s) => put_str(s),
        ValueView::Array(a) => le(number_of(a.elem), 4) + le(a.items.len(), 8) + put_values(
            a.items,
            a.items.len(),
        ),
    }
}

/// The bytes of the first `n` values.
pub open spec fn put_values(items: Seq<ValueView>, n: nat) -> Seq<u8>
    decreases items, n,
{
    if n == 0 || n > items.len() {
        Seq::empty()
    } else {
        put_values(items, (n - 1) as nat) + put_value(items[n - 1])
    }
}

/// A value can be written: lengths can be counted in eight bytes, the elements of an array
/// are of its type, and arrays stand in at most three others.
pub open spec fn writable(v: ValueView, depth: nat) -> bool
    decreases v,
{
    match v {
        ValueView::Str(s) => encode_utf8(s).len() <= u64::MAX,
        ValueView::Array(a) => {
            &&& depth < 4
            &&& a.items.len() <= u64::MAX
            &&& forall|i: int|
                0 <= i < a.items.len() ==> type_of(#[trigger] a.items[i]) == a.elem && writable(
                    a.items[i],
                    depth + 1,
                )
        },
        _ => true,
    }
}

/// `bytes` stand in the file at `pos`.
spec fn stands(file: Seq<u8>, pos: int, bytes: Seq<u8>) -> bool {
    0 <= pos && pos + bytes.len() <= file.len() && file.subrange(pos, pos + bytes.len()) == bytes
}

proof fn lemma_parts(file: Seq<u8>, pos: int, a: Seq<u8>, b: Seq<u8>)
    requires
        stands(file, pos, a + b),
    ensures
        stands(file, pos, a),
        stands(file, pos + a.len(), b),
{
    let all = file.subrange(pos, pos + (a + b).len());
    assert(file.subrange(pos, pos + a.len()) =~= a) by {
        assert forall|i: int| 0 <= i < a.len() implies file[pos + i] == a[i] by {
            assert(all[i] == (a + b)[i]);
        }
    }
    assert(file.subrange(pos + a.len(), pos + a.len() + b.len()) =~= b) by {
        assert forall|i: int| 0 <= i < b.len() implies file[pos + a.len() + i] == b[i] by {
            assert(all[a.len() + i] == (a + b)[a.len() + i]);
        }
    }
}

proof fn lemma_uint(file: Seq<u8>, pos: int, n: nat, w: nat)
    requires
        n < bound(w),
        stands(file, pos, le(n, w)),
    ensures
        reader::spec_uint(file, pos, w as int) == Ok::<(nat, int), super::error::GgufErrorView>(
            (n, pos + w),
        ),
        pos + w <= file.len(),
{
    lemma_le(n, w);
}

proof fn lemma_str(file: Seq<u8>, pos: int, s: Seq<char>)
    requires
        encode_utf8(s).len() <= u64::MAX,
        stands(file, pos, put_str(s)),
    ensures
        reader::spec_str(file, pos) == Ok::<(Seq<char>, int), super::error::GgufErrorView>(
            (s, pos + put_str(s).len()),
        ),
{
    let b = encode_utf8(s);
    lemma_bounds();
    lemma_parts(file, pos, le(b.len(), 8), b);
    lemma_le(b.len(), 8);
    lemma_uint(file, pos, b.len(), 8);
    encode_utf8_valid_utf8(s);
    encode_utf8_decode_utf8(s);
}

proof fn lemma_scalar(file: Seq<u8>, pos: int, v: ValueView, depth: nat)
    requires
        v !is Array,
        writable(v, depth),
        stands(file, pos, put_value(v)),
    ensures
        value::spec_value(file, pos, type_of(v), depth) == Ok::<
            (ValueView, int),
            super::error::GgufErrorView,
        >((v, pos + put_value(v).len())),
        put_value(v).len() >= (match type_of(v).fixed_size() {
            Some(s) => s as nat,
            None => 1,
        }),
{
    lemma_bounds();
    match v {
        ValueView::U8(x) => {
            lemma_le(x as nat, 1);
            lemma_uint(file, pos, x as nat, 1);
        },
        ValueView::I8(x) => {
            lemma_le(twos(x as int, 0x80), 1);
            lemma_uint(file, pos, twos(x as int, 0x80), 1);
        },
        ValueView::U16(x) => {
            lemma_le(x as nat, 2);
            lemma_uint(file, pos, x as nat, 2);
        },
        ValueView::I16(x) => {
            lemma_le(twos(x as int, 0x8000), 2);
            lemma_uint(file, pos, twos(x as int, 0x8000), 2);
        },
        ValueView::U32(x) => {
            lemma_le(x as nat, 4);
            lemma_uint(file, pos, x as nat, 4);
        },
        ValueView::I32(x) => {
            lemma_le(twos(x as int, 0x8000_0000), 4);
            lemma_uint(file, pos, twos(x as int, 0x8000_0000), 4);
        },
        ValueView::U64(x) => {
            lemma_le(x as nat, 8);
            lemma_uint(file, pos, x as nat, 8);
        },
        ValueView::I64(x) => {
            lemma_le(twos(x as int, 0x8000_0000_0000_0000), 8);
            lemma_uint(file, pos, twos(x as int, 0x8000_0000_0000_0000), 8);
        },
        ValueView::F32(x) => {
            lemma_le(x as nat, 4);
            lemma_uint(file, pos, x as nat, 4);
        },
        ValueView::F64(x) => {
            lemma_le(x as nat, 8);
            lemma_uint(file, pos, x as nat, 8);
        },
        ValueView::Bool(x) => {
            let n: nat = if x {
                1
            } else {
                0
            };
            lemma_le(n, 1);
            lemma_uint(file, pos, n, 1);
        },
        ValueView::Str(s) => {
            lemma_str(file, pos, s);
            lemma_le(encode_utf8(s).len(), 8);
        },
        ValueView::Array(_) => {},
    }
}

/// A value that was written is read back.
proof fn lemma_value(file: Seq<u8>, pos: int, v: ValueView, depth: nat)
    requires
        writable(v, depth),
        stands(file, pos, put_value(v)),
    ensures
        value::spec_value(file, pos, type_of(v), depth) == Ok::<
            (ValueView, int),
            super::error::GgufErrorView,
        >((v, pos + put_value(v).len())),
    decreases v, 0nat,
{
    match v {
        ValueView::Array(a) => {
            lemma_bounds();
            let head = le(number_of(a.elem), 4);
            let count = le(a.items.len(), 8);
            let body = put_values(a.items, a.items.len());
            lemma_parts(file, pos, head + count, body);
            lemma_parts(file, pos, head, count);
            lemma_le(number_of(a.elem), 4);
            lemma_le(a.items.len(), 8);
            lemma_uint(file, pos, number_of(a.elem), 4);
            lemma_uint(file, pos + 4, a.items.len(), 8);
            lemma_values(file, pos + 12, a.items, a.elem, a.items.len(), depth + 1);
            lemma_room(a.items, a.elem, a.items.len(), depth + 1);
            assert(a.items.take(a.items.len() as int) =~= a.items);
            assert(MetaType::spec_from_tag(number_of(a.elem)) == Some(a.elem));
            let size = match a.elem.fixed_size() {
                Some(s) => s as nat,
                None => 1,
            };
            assert(a.items.len() * size <= body.len());
            assert(pos + 12 + body.len() <= file.len());
            assert(a == ArrayView { elem: a.elem, items: a.items });
        },
        _ => {
            lemma_scalar(file, pos, v, depth);
        },
    }
}

/// Values that were written in a row are read back.
proof fn lemma_values(
    file: Seq<u8>,
    pos: int,
    items: Seq<ValueView>,
    ty: MetaType,
    n: nat,
    depth: nat,
)
    requires
        n <= items.len(),
        forall|i: int|
            0 <= i < items.len() ==> type_of(#[trigger] items[i]) == ty && writable(
                items[i],
                depth,
            ),
        stands(file, pos, put_values(items, n)),
    ensures
        value::spec_values(file, pos, ty, n, depth) == Ok::<
            (Seq<ValueView>, int),
            super::error::GgufErrorView,
        >((items.take(n as int), pos + put_values(items, n).len())),
    decreases items, n,
{
    if n > 0 {
        let front = put_values(items, (n - 1) as nat);
        lemma_parts(file, pos, front, put_value(items[n - 1]));
        lemma_values(file, pos, items, ty, (n - 1) as nat, depth);
        lemma_value(file, pos + front.len(), items[n - 1], depth);
        assert(items.take(n - 1).push(items[n - 1]) =~= items.take(n as int));
    } else {
        assert(items.take(0) =~= Seq::empty());
    }
}

/// Values take at least the bytes that their type says.
proof fn lemma_room(items: Seq<ValueView>, ty: MetaType, n: nat, depth: nat)
    requires
        n <= items.len(),
        forall|i: int|
            0 <= i < items.len() ==> type_of(#[trigger] items[i]) == ty && writable(
                items[i],
                depth,
            ),
    ensures
        n * (match ty.fixed_size() {
            Some(s) => s as nat,
            None => 1,
        }) <= put_values(items, n).len(),
    decreases n,
{
    let size = match ty.fixed_size() {
        Some(s) => s as nat,
        None => 1,
    };
    if n > 0 {
        lemma_room(items, ty, (n - 1) as nat, depth);
        let v = items[n - 1];
        assert(type_of(v) == ty);
        lemma_bounds();
        if v is Array {
            lemma_le(number_of(v->Array_0.elem), 4);
        } else {
            let file = put_value(v);
            assert(file.subrange(0, file.len() as int) =~= file);
            lemma_scalar(file, 0, v, depth);
        }
        assert(put_value(v).len() >= size);
        let before = put_values(items, (n - 1) as nat);
        assert(put_values(items, n).len() == before.len() + put_value(v).len());
        let p = n - 1;
        assert(n * size == p * size + size) by (nonlinear_arith)
            requires
                p == n - 1,
        ;
    } else {
        assert(0 * size == 0);
    }
}

/// A key with its value: the key, the type of the value, the value.
pub open spec fn put_entry(kv: (Seq<char>, ValueView)) -> Seq<u8> {
    put_str(kv.0) + le(number_of(type_of(kv.1)), 4) + put_value(kv.1)
}

/// The first `n` keys with their values.
pub open spec fn put_metadata(metadata: Seq<(Seq<char>, ValueView)>, n: nat) -> Seq<u8>
    decreases n,
{
    if n == 0 {
        Seq::empty()
    } else {
        put_metadata(metadata, (n - 1) as nat) + put_entry(metadata[n - 1])
    }
}

/// All keys and values can be written.
pub open spec fn metadata_writable(metadata: Seq<(Seq<char>, ValueView)>) -> bool {
    forall|i: int|
        0 <= i < metadata.len() ==> encode_utf8((#[trigger] metadata[i]).0).len() <= u64::MAX
            && writable(metadata[i].1, 0)
}

proof fn lemma_metadata(file: Seq<u8>, pos: int, metadata: Seq<(Seq<char>, ValueView)>, n: nat)
    requires
        n <= metadata.len(),
        metadata_writable(metadata),
        stands(file, pos, put_metadata(metadata, n)),
    ensures
        file::spec_metadata(file, pos, n) == Ok::<
            (Seq<(Seq<char>, ValueView)>, int),
            super::error::GgufErrorView,
        >((metadata.take(n as int), pos + put_metadata(metadata, n).len())),
    decreases n,
{
    if n > 0 {
        let front = put_metadata(metadata, (n - 1) as nat);
        let (key, v) = metadata[n - 1];
        let at = pos + front.len();
        lemma_parts(file, pos, front, put_entry(metadata[n - 1]));
        lemma_metadata(file, pos, metadata, (n - 1) as nat);
        let tag = number_of(type_of(v));
        lemma_bounds();
        lemma_parts(file, at, put_str(key) + le(tag, 4), put_value(v));
        lemma_parts(file, at, put_str(key), le(tag, 4));
        lemma_le(tag, 4);
        lemma_str(file, at, key);
        lemma_uint(file, at + put_str(key).len(), tag, 4);
        assert(MetaType::spec_from_tag(tag) == Some(type_of(v)));
        lemma_value(file, at + put_str(key).len() + 4, v, 0);
        assert(metadata.take(n - 1).push(metadata[n - 1]) =~= metadata.take(n as int));
    } else {
        assert(metadata.take(0) =~= Seq::empty());
    }
}

/// The first `n` axes, eight bytes each.
pub open spec fn put_axes(dims: Seq<u64>, n: nat) -> Seq<u8>
    decreases n,
{
    if n == 0 {
        Seq::empty()
    } else {
        put_axes(dims, (n - 1) as nat) + le(dims[n - 1] as nat, 8)
    }
}

/// An entry of the tensor table: name, number of axes, the axes with the fastest first, type,
/// and offset.
pub open spec fn put_tensor(t: TensorInfoView) -> Seq<u8> {
    put_str(t.name) + le(t.n_dims, 4) + put_axes(t.dims, t.n_dims) + le(
        t.ggml_type.tag() as nat,
        4,
    ) + le(t.offset, 8)
}

/// The first `n` entries of the tensor table.
pub open spec fn put_tensors(tensors: Seq<TensorInfoView>, n: nat) -> Seq<u8>
    decreases n,
{
    if n == 0 {
        Seq::empty()
    } else {
        put_tensors(tensors, (n - 1) as nat) + put_tensor(tensors[n - 1])
    }
}

/// A tensor can be written: at most four axes, the others 1, and a size that follows from
/// its shape and type.
pub open spec fn tensor_writable(t: TensorInfoView) -> bool {
    &&& encode_utf8(t.name).len() <= u64::MAX
    &&& t.n_dims <= 4
    &&& t.dims.len() == 4
    &&& forall|i: int| t.n_dims <= i < 4 ==> #[trigger] t.dims[i] == 1
    &&& GgmlType::known_tag(t.ggml_type.tag())
    &&& t.offset <= u64::MAX
    &&& file::products_fit(t.dims, 0, t.n_dims)
    &&& t.ggml_type.spec_bytes_for(file::product(t.dims, 0, t.n_dims)) == Some(t.byte_size)
}

proof fn lemma_axes(file: Seq<u8>, pos: int, dims: Seq<u64>, n: nat)
    requires
        n <= dims.len(),
        stands(file, pos, put_axes(dims, n)),
    ensures
        file::spec_u64s(file, pos, n) == Ok::<(Seq<u64>, int), super::error::GgufErrorView>(
            (dims.take(n as int), pos + put_axes(dims, n).len()),
        ),
        put_axes(dims, n).len() == 8 * n,
    decreases n,
{
    if n > 0 {
        let front = put_axes(dims, (n - 1) as nat);
        let d = dims[n - 1] as nat;
        lemma_bounds();
        lemma_parts(file, pos, front, le(d, 8));
        lemma_axes(file, pos, dims, (n - 1) as nat);
        lemma_le(d, 8);
        lemma_uint(file, pos + front.len(), d, 8);
        assert(dims.take(n - 1).push(dims[n - 1]) =~= dims.take(n as int));
    } else {
        assert(dims.take(0) =~= Seq::empty());
    }
}

proof fn lemma_tensor(file: Seq<u8>, pos: int, t: TensorInfoView)
    requires
        tensor_writable(t),
        stands(file, pos, put_tensor(t)),
    ensures
        file::spec_tensor_info(file, pos) == Ok::<
            (TensorInfoView, int),
            super::error::GgufErrorView,
        >((t, pos + put_tensor(t).len())),
{
    let name = put_str(t.name);
    let count = le(t.n_dims, 4);
    let axes = put_axes(t.dims, t.n_dims);
    let tag = le(t.ggml_type.tag() as nat, 4);
    let offset = le(t.offset, 8);
    lemma_bounds();
    lemma_parts(file, pos, name + count + axes + tag, offset);
    lemma_parts(file, pos, name + count + axes, tag);
    lemma_parts(file, pos, name + count, axes);
    lemma_parts(file, pos, name, count);
    lemma_le(t.n_dims, 4);
    lemma_le(t.ggml_type.tag() as nat, 4);
    lemma_le(t.offset, 8);
    lemma_str(file, pos, t.name);
    let p1 = pos + name.len();
    lemma_uint(file, p1, t.n_dims, 4);
    lemma_axes(file, p1 + 4, t.dims, t.n_dims);
    let p3 = p1 + 4 + axes.len();
    lemma_uint(file, p3, t.ggml_type.tag() as nat, 4);
    lemma_uint(file, p3 + 4, t.offset, 8);
    let v = t.dims.take(t.n_dims as int);
    assert(file::pad_dims(v) =~= t.dims);
    let found = file::type_of_tag(t.ggml_type.tag());
    super::parse::lemma_tag_injective(found, t.ggml_type);
    assert(file::spec_byte_size(t.name, t.ggml_type, t.dims, t.n_dims) == Ok::<
        nat,
        super::error::GgufErrorView,
    >(t.byte_size));
}

proof fn lemma_tensors(file: Seq<u8>, pos: int, tensors: Seq<TensorInfoView>, n: nat)
    requires
        n <= tensors.len(),
        forall|i: int| 0 <= i < tensors.len() ==> tensor_writable(#[trigger] tensors[i]),
        stands(file, pos, put_tensors(tensors, n)),
    ensures
        file::spec_tensors(file, pos, n) == Ok::<
            (Seq<TensorInfoView>, int),
            super::error::GgufErrorView,
        >((tensors.take(n as int), pos + put_tensors(tensors, n).len())),
    decreases n,
{
    if n > 0 {
        let front = put_tensors(tensors, (n - 1) as nat);
        lemma_parts(file, pos, front, put_tensor(tensors[n - 1]));
        lemma_tensors(file, pos, tensors, (n - 1) as nat);
        lemma_tensor(file, pos + front.len(), tensors[n - 1]);
        assert(tensors.take(n - 1).push(tensors[n - 1]) =~= tensors.take(n as int));
    } else {
        assert(tensors.take(0) =~= Seq::empty());
    }
}

/// What goes into a container.
pub struct Contents {
    pub version: u32,
    pub metadata: Seq<(Seq<char>, ValueView)>,
    pub tensors: Seq<TensorInfoView>,
    pub alignment: u64,
    /// What stands between the tables and the data.
    pub padding: Seq<u8>,
    pub data: Seq<u8>,
}

impl Contents {
    /// The magic, the version, how many tensors and how many keys there are.
    pub open spec fn header(self) -> Seq<u8> {
        seq![0x47u8, 0x47u8, 0x55u8, 0x46u8] + le(self.version as nat, 4) + le(
            self.tensors.len(),
            8,
        ) + le(self.metadata.len(), 8)
    }

    /// All that stands before the padding.
    pub open spec fn tables(self) -> Seq<u8> {
        self.header() + put_metadata(self.metadata, self.metadata.len()) + put_tensors(
            self.tensors,
            self.tensors.len(),
        )
    }

    /// The whole container.
    pub open spec fn written(self) -> Seq<u8> {
        self.tables() + self.padding + self.data
    }

    /// The metadata ask for the alignment, or ask for none and it is 32.
    pub open spec fn aligned(self) -> bool {
        let key = "general.alignment"@;
        ||| self.alignment == 32 && forall|i: int|
            0 <= i < self.metadata.len() ==> (#[trigger] self.metadata[i]).0 != key
        ||| exists|k: int|
            0 <= k < self.metadata.len() && (#[trigger] self.metadata[k]).0 == key && (
            self.metadata[k].1 == ValueView::U64(self.alignment) || (self.alignment <= u32::MAX
                && self.metadata[k].1 == ValueView::U32(self.alignment as u32))) && forall|i: int|
                0 <= i < k ==> (#[trigger] self.metadata[i]).0 != key
    }

    /// The contents can be written: the version is one that is known, the alignment a power
    /// of two, the padding the least that brings the data to a multiple of it, and every
    /// tensor stands in the data at a multiple of it.
    pub open spec fn wf(self) -> bool {
        &&& self.version == 2 || self.version == 3
        &&& self.metadata.len() <= u64::MAX
        &&& self.tensors.len() <= u64::MAX
        &&& metadata_writable(self.metadata)
        &&& forall|i: int|
            0 <= i < self.tensors.len() ==> tensor_writable(#[trigger] self.tensors[i])
        &&& self.aligned()
        &&& is_pow2(self.alignment as int)
        &&& self.padding.len() < self.alignment
        &&& (self.tables().len() + self.padding.len()) % (self.alignment as nat) == 0
        &&& forall|i: int|
            0 <= i < self.tensors.len() ==> {
                let t = #[trigger] self.tensors[i];
                &&& t.offset % (self.alignment as nat) == 0
                &&& t.offset + t.byte_size <= u64::MAX
                &&& t.offset + t.byte_size <= self.data.len()
            }
    }
}

proof fn lemma_lookup_none(metadata: Seq<(Seq<char>, ValueView)>, key: Seq<char>)
    requires
        forall|i: int| 0 <= i < metadata.len() ==> (#[trigger] metadata[i]).0 != key,
    ensures
        file::lookup(metadata, key) is None,
    decreases metadata.len(),
{
    if metadata.len() > 0 {
        assert(metadata[0].0 != key);
        let rest = metadata.drop_first();
        assert forall|i: int| 0 <= i < rest.len() implies (#[trigger] rest[i]).0 != key by {
            assert(rest[i] == metadata[i + 1]);
        }
        lemma_lookup_none(rest, key);
    }
}

/// A key is looked up by its first entry.
pub proof fn law_the_first_entry_counts(
    metadata: Seq<(Seq<char>, ValueView)>,
    key: Seq<char>,
    k: int,
)
    requires
        0 <= k < metadata.len(),
        metadata[k].0 == key,
        forall|i: int| 0 <= i < k ==> (#[trigger] metadata[i]).0 != key,
    ensures
        file::lookup(metadata, key) == Some(metadata[k].1),
    decreases metadata.len(),
{
    if k > 0 {
        assert(metadata[0].0 != key);
        let rest = metadata.drop_first();
        assert forall|i: int| 0 <= i < k - 1 implies (#[trigger] rest[i]).0 != key by {
            assert(rest[i] == metadata[i + 1]);
        }
        law_the_first_entry_counts(rest, key, k - 1);
    }
}

/// A key that no entry has is not found.
pub proof fn law_other_keys_are_not_found(metadata: Seq<(Seq<char>, ValueView)>, key: Seq<char>)
    requires
        forall|i: int| 0 <= i < metadata.len() ==> (#[trigger] metadata[i]).0 != key,
    ensures
        file::lookup(metadata, key) is None,
{
    lemma_lookup_none(metadata, key);
}

/// The first tensor of a name is the one that is found.
pub proof fn law_the_first_tensor_counts(tensors: Seq<TensorInfoView>, name: Seq<char>, k: int)
    requires
        0 <= k <= tensors.len(),
        k < tensors.len() ==> tensors[k].name == name,
        forall|i: int| 0 <= i < k ==> (#[trigger] tensors[i]).name != name,
    ensures
        file::first_named(tensors, name) == (if k < tensors.len() {
            Some(tensors[k])
        } else {
            None
        }),
    decreases tensors.len(),
{
    if k > 0 {
        assert(tensors[0].name != name);
        let rest = tensors.drop_first();
        assert forall|i: int| 0 <= i < k - 1 implies (#[trigger] rest[i]).name != name by {
            assert(rest[i] == tensors[i + 1]);
        }
        law_the_first_tensor_counts(rest, name, k - 1);
    }
}

proof fn lemma_placed(tensors: Seq<TensorInfoView>, alignment: u64, len: int)
    requires
        forall|i: int|
            0 <= i < tensors.len() ==> {
                let t = #[trigger] tensors[i];
                &&& t.offset % (alignment as nat) == 0
                &&& t.offset + t.byte_size <= u64::MAX
                &&& t.offset + t.byte_size <= len
            },
    ensures
        file::first_misplaced(tensors, alignment, len) is None,
    decreases tensors.len(),
{
    if tensors.len() > 0 {
        assert(file::spec_misplaced(tensors[0], alignment, len) is None);
        let rest = tensors.drop_first();
        assert forall|i: int| 0 <= i < rest.len() implies {
            let t = #[trigger] rest[i];
            &&& t.offset % (alignment as nat) == 0
            &&& t.offset + t.byte_size <= u64::MAX
            &&& t.offset + t.byte_size <= len
        } by {
            assert(rest[i] == tensors[i + 1]);
        }
        lemma_placed(rest, alignment, len);
    }
}

proof fn lemma_header(c: Contents)
    requires
        c.wf(),
    ensures
        file::spec_header(c.written()) == Ok::<
            (u32, nat, nat, int),
            super::error::GgufErrorView,
        >((c.version, c.tensors.len(), c.metadata.len(), 24)),
        c.header().len() == 24,
        stands(c.written(), 24, put_metadata(c.metadata, c.metadata.len())),
        stands(
            c.written(),
            24 + put_metadata(c.metadata, c.metadata.len()).len() as int,
            put_tensors(c.tensors, c.tensors.len()),
        ),
{
    let file = c.written();
    let magic = seq![0x47u8, 0x47u8, 0x55u8, 0x46u8];
    let version = le(c.version as nat, 4);
    let nt = le(c.tensors.len(), 8);
    let nm = le(c.metadata.len(), 8);
    let meta = put_metadata(c.metadata, c.metadata.len());
    let tens = put_tensors(c.tensors, c.tensors.len());
    lemma_bounds();
    lemma_le(c.version as nat, 4);
    lemma_le(c.tensors.len(), 8);
    lemma_le(c.metadata.len(), 8);
    assert(file.subrange(0, file.len() as int) =~= file);
    assert(stands(file, 0, c.tables() + c.padding + c.data));
    lemma_parts(file, 0, c.tables() + c.padding, c.data);
    lemma_parts(file, 0, c.tables(), c.padding);
    lemma_parts(file, 0, c.header() + meta, tens);
    lemma_parts(file, 0, c.header(), meta);
    lemma_parts(file, 0, magic + version + nt, nm);
    lemma_parts(file, 0, magic + version, nt);
    lemma_parts(file, 0, magic, version);
    lemma_uint(file, 4, c.version as nat, 4);
    lemma_uint(file, 8, c.tensors.len(), 8);
    lemma_uint(file, 16, c.metadata.len(), 8);
    lemma_counts(c);
}

/// Every entry takes at least a byte.
proof fn lemma_counts(c: Contents)
    requires
        c.wf(),
    ensures
        c.metadata.len() <= put_metadata(c.metadata, c.metadata.len()).len(),
        c.tensors.len() <= put_tensors(c.tensors, c.tensors.len()).len(),
{
    lemma_metadata_room(c.metadata, c.metadata.len());
    lemma_tensors_room(c.tensors, c.tensors.len());
}

proof fn lemma_metadata_room(metadata: Seq<(Seq<char>, ValueView)>, n: nat)
    requires
        n <= metadata.len(),
        metadata_writable(metadata),
    ensures
        n <= put_metadata(metadata, n).len(),
    decreases n,
{
    if n > 0 {
        lemma_metadata_room(metadata, (n - 1) as nat);
        lemma_bounds();
        lemma_le(encode_utf8(metadata[n - 1].0).len(), 8);
    }
}

proof fn lemma_tensors_room(tensors: Seq<TensorInfoView>, n: nat)
    requires
        n <= tensors.len(),
        forall|i: int| 0 <= i < tensors.len() ==> tensor_writable(#[trigger] tensors[i]),
    ensures
        n <= put_tensors(tensors, n).len(),
    decreases n,
{
    if n > 0 {
        lemma_tensors_room(tensors, (n - 1) as nat);
        lemma_bounds();
        assert(tensor_writable(tensors[n - 1]));
        lemma_le(encode_utf8(tensors[n - 1].name).len(), 8);
    }
}

proof fn lemma_alignment(c: Contents)
    requires
        c.wf(),
    ensures
        file::spec_alignment(c.metadata) == Ok::<u64, super::error::GgufErrorView>(c.alignment),
{
    let key = "general.alignment"@;
    if forall|i: int| 0 <= i < c.metadata.len() ==> (#[trigger] c.metadata[i]).0 != key {
        lemma_lookup_none(c.metadata, key);
    } else {
        let k = choose|k: int|
            0 <= k < c.metadata.len() && (#[trigger] c.metadata[k]).0 == key && (c.metadata[k].1
                == ValueView::U64(c.alignment) || (c.alignment <= u32::MAX && c.metadata[k].1
                == ValueView::U32(c.alignment as u32))) && forall|i: int|
                0 <= i < k ==> (#[trigger] c.metadata[i]).0 != key;
        law_the_first_entry_counts(c.metadata, key, k);
    }
}

/// The least multiple at or after a place is where padding that is shorter than the step
/// leads.
proof fn lemma_next_multiple(pos: int, pad: int, a: int)
    requires
        0 <= pos,
        0 <= pad < a,
        (pos + pad) % a == 0,
    ensures
        file::next_multiple(pos, a) == pos + pad,
{
    vstd::arithmetic::div_mod::lemma_fundamental_div_mod(pos, a);
    vstd::arithmetic::div_mod::lemma_fundamental_div_mod(pos + pad, a);
    let q = pos / a;
    let r = pos % a;
    let s = (pos + pad) / a;
    assert(r + pad == a * (s - q)) by (nonlinear_arith)
        requires
            pos == a * q + r,
            pos + pad == a * s,
    ;
    let d = s - q;
    assert(d == 0 || d == 1) by (nonlinear_arith)
        requires
            0 <= a * d < 2 * a,
            a > 0,
    ;
    assert(a * 0 == 0 && a * 1 == a);
}

/// Parsing undoes writing: a container that was written parses to the keys, values, tensors,
/// version and alignment that were written, and the bytes of a tensor are those that stand in
/// the data at its offset.
pub proof fn law_parsing_undoes_writing(c: Contents, t: TensorInfoView)
    requires
        c.wf(),
        c.tensors.contains(t),
    ensures
        file::spec_parse(c.written()) == Ok::<GgufView, super::error::GgufErrorView>(
            GgufView {
                version: c.version,
                alignment: c.alignment,
                tensor_data_offset: (c.tables().len() + c.padding.len()) as int,
                metadata: c.metadata,
                tensors: c.tensors,
            },
        ),
        file::spec_parse(c.written())->Ok_0.tensor_data(c.written(), t) == c.data.subrange(
            t.offset as int,
            (t.offset + t.byte_size) as int,
        ),
{
    law_containers_are_read_back(c);
    let i = choose|i: int| 0 <= i < c.tensors.len() && c.tensors[i] == t;
    assert(c.tensors[i].offset + c.tensors[i].byte_size <= c.data.len());
    lemma_behind(
        c.tables() + c.padding,
        c.data,
        t.offset as int,
        (t.offset + t.byte_size) as int,
    );
}

proof fn lemma_behind(front: Seq<u8>, data: Seq<u8>, x: int, y: int)
    requires
        0 <= x <= y <= data.len(),
    ensures
        (front + data).subrange(front.len() + x, front.len() + y) == data.subrange(x, y),
{
    assert((front + data).subrange(front.len() + x, front.len() + y) =~= data.subrange(x, y));
}

/// A container that was written parses to what was written, tensors or none.
pub proof fn law_containers_are_read_back(c: Contents)
    requires
        c.wf(),
    ensures
        file::spec_parse(c.written()) == Ok::<GgufView, super::error::GgufErrorView>(
            GgufView {
                version: c.version,
                alignment: c.alignment,
                tensor_data_offset: (c.tables().len() + c.padding.len()) as int,
                metadata: c.metadata,
                tensors: c.tensors,
            },
        ),
{
    let file = c.written();
    lemma_header(c);
    let meta = put_metadata(c.metadata, c.metadata.len());
    let tens = put_tensors(c.tensors, c.tensors.len());
    lemma_metadata(file, 24, c.metadata, c.metadata.len());
    assert(c.metadata.take(c.metadata.len() as int) =~= c.metadata);
    lemma_alignment(c);
    lemma_tensors(file, 24 + meta.len() as int, c.tensors, c.tensors.len());
    assert(c.tensors.take(c.tensors.len() as int) =~= c.tensors);
    let end = 24 + meta.len() + tens.len();
    assert(end == c.tables().len());
    lemma_next_multiple(end as int, c.padding.len() as int, c.alignment as int);
    lemma_placed(c.tensors, c.alignment, c.data.len() as int);
}

/// What parses is a container: it starts with the magic and a version that is known, its
/// alignment is a power of two, its data starts at the least multiple of it behind the
/// tables, and every tensor stands in the data at a multiple of it, with the size that
/// follows from its shape.
pub proof fn law_only_containers_parse(file: Seq<u8>, i: int)
    requires
        file::spec_parse(file) is Ok,
    ensures
        ({
            let g = file::spec_parse(file)->Ok_0;
            &&& file.len() >= 24
            &&& file[0] == 0x47 && file[1] == 0x47 && file[2] == 0x55 && file[3] == 0x46
            &&& g.version == file[4] + 256 * file[5] + 65536 * file[6] + 16777216 * file[7]
            &&& g.version == 2 || g.version == 3
            &&& is_pow2(g.alignment as int)
            &&& g.tensor_data_offset % (g.alignment as int) == 0
            &&& g.tensor_data_offset <= file.len()
            &&& 0 <= i < g.tensors.len() ==> {
                &&& g.tensors[i].offset % (g.alignment as nat) == 0
                &&& g.tensor_data_offset + g.tensors[i].offset + g.tensors[i].byte_size
                    <= file.len()
            }
        }),
{
    let g = file::spec_parse(file)->Ok_0;
    let (version, nt, ne, p) = file::spec_header(file)->Ok_0;
    let magic = file.subrange(0, 4);
    assert(magic == seq![71u8, 71u8, 85u8, 70u8]);
    assert(magic[0] == file[0] && magic[1] == file[1] && magic[2] == file[2] && magic[3]
        == file[3]);
    let v = file.subrange(4, 8);
    reveal_with_fuel(reader::le_nat, 5);
    assert(reader::le_nat(v) == v[0] + 256 * v[1] + 65536 * v[2] + 16777216 * v[3]);
    let (metadata, q) = file::spec_metadata(file, p, ne)->Ok_0;
    let (tensors, s) = file::spec_tensors(file, q, nt)->Ok_0;
    let a = g.alignment as int;
    lemma_positive_pow2(a);
    vstd::arithmetic::div_mod::lemma_fundamental_div_mod(s, a);
    lemma_multiple(s, a);
    if 0 <= i < g.tensors.len() {
        lemma_none_misplaced(g.tensors, g.alignment, file.len() - g.tensor_data_offset, i);
    }
}

proof fn lemma_positive_pow2(a: int)
    requires
        is_pow2(a),
    ensures
        a > 0,
{
    reveal(is_pow2);
}

proof fn lemma_multiple(pos: int, a: int)
    requires
        a > 0,
    ensures
        file::next_multiple(pos, a) % a == 0,
{
    vstd::arithmetic::div_mod::lemma_fundamental_div_mod(pos, a);
    let q = pos / a;
    if pos % a != 0 {
        assert(pos - pos % a + a == a * (q + 1)) by (nonlinear_arith)
            requires
                pos == a * q + pos % a,
        ;
        vstd::arithmetic::div_mod::lemma_mod_multiples_basic(q + 1, a);
        assert(a * (q + 1) == (q + 1) * a) by (nonlinear_arith);
    }
}

proof fn lemma_none_misplaced(tensors: Seq<TensorInfoView>, alignment: u64, len: int, i: int)
    requires
        file::first_misplaced(tensors, alignment, len) is None,
        0 <= i < tensors.len(),
    ensures
        tensors[i].offset % (alignment as nat) == 0,
        tensors[i].offset + tensors[i].byte_size <= len,
    decreases tensors.len(),
{
    assert(file::spec_misplaced(tensors[0], alignment, len) is None);
    if i > 0 {
        lemma_none_misplaced(tensors.drop_first(), alignment, len, i - 1);
        assert(tensors.drop_first()[i - 1] == tensors[i]);
    }
}

} // verus!
