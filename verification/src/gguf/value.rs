//! Typed metadata values.
//!
//! Strings are borrowed from the file buffer; numeric arrays are copied into
//! `Vec`s, since nothing aligns them in the file.
use super::error::{GgufError, GgufErrorView};
use super::reader;
use super::reader::Reader;
use crate::bits;
use crate::bits::{F32Bits, F64Bits};
use vstd::prelude::*;
use vstd::slice::slice_to_vec;

verus! {

/// The metadata value type tags.
#[derive(Debug, Clone, Copy, PartialEq, Eq, Structural)]
pub enum MetaType {
    U8,
    I8,
    U16,
    I16,
    U32,
    I32,
    F32,
    Bool,
    String,
    Array,
    U64,
    I64,
    F64,
}

impl MetaType {
    /// The tag that stands for this type in a file.
    pub open spec fn tag(self) -> u32 {
        match self {
            MetaType::U8 => 0,
            MetaType::I8 => 1,
            MetaType::U16 => 2,
            MetaType::I16 => 3,
            MetaType::U32 => 4,
            MetaType::I32 => 5,
            MetaType::F32 => 6,
            MetaType::Bool => 7,
            MetaType::String => 8,
            MetaType::Array => 9,
            MetaType::U64 => 10,
            MetaType::I64 => 11,
            MetaType::F64 => 12,
        }
    }

    /// The type that a file's tag stands for.
    pub open spec fn spec_from_tag(v: nat) -> Option<MetaType> {
        if v == 0 {
            Some(MetaType::U8)
        } else if v == 1 {
            Some(MetaType::I8)
        } else if v == 2 {
            Some(MetaType::U16)
        } else if v == 3 {
            Some(MetaType::I16)
        } else if v == 4 {
            Some(MetaType::U32)
        } else if v == 5 {
            Some(MetaType::I32)
        } else if v == 6 {
            Some(MetaType::F32)
        } else if v == 7 {
            Some(MetaType::Bool)
        } else if v == 8 {
            Some(MetaType::String)
        } else if v == 9 {
            Some(MetaType::Array)
        } else if v == 10 {
            Some(MetaType::U64)
        } else if v == 11 {
            Some(MetaType::I64)
        } else if v == 12 {
            Some(MetaType::F64)
        } else {
            None
        }
    }

    /// The type that a file's tag stands for; tags above 12 are refused.
    pub fn from_u32(v: u32) -> (r: Result<Self, GgufError>)
        ensures
            r is Ok <==> v <= 12,
            r matches Ok(t) ==> t.tag() == v && Self::spec_from_tag(v as nat) == Some(t),
            r matches Err(e) ==> e == GgufError::UnknownValueType(v) && Self::spec_from_tag(
                v as nat,
            ) is None,
    {
        Ok(
            match v {
                0 => MetaType::U8,
                1 => MetaType::I8,
                2 => MetaType::U16,
                3 => MetaType::I16,
                4 => MetaType::U32,
                5 => MetaType::I32,
                6 => MetaType::F32,
                7 => MetaType::Bool,
                8 => MetaType::String,
                9 => MetaType::Array,
                10 => MetaType::U64,
                11 => MetaType::I64,
                12 => MetaType::F64,
                other => return Err(GgufError::UnknownValueType(other)),
            },
        )
    }

    /// The name of the type.
    pub open spec fn name(self) -> Seq<char> {
        match self {
            MetaType::U8 => "u8"@,
            MetaType::I8 => "i8"@,
            MetaType::U16 => "u16"@,
            MetaType::I16 => "i16"@,
            MetaType::U32 => "u32"@,
            MetaType::I32 => "i32"@,
            MetaType::U64 => "u64"@,
            MetaType::I64 => "i64"@,
            MetaType::F32 => "f32"@,
            MetaType::F64 => "f64"@,
            MetaType::Bool => "bool"@,
            MetaType::String => "string"@,
            MetaType::Array => "array"@,
        }
    }

    /// Fixed byte width, or `None` for the variable-length types.
    pub open spec fn spec_fixed_size(self) -> Option<usize> {
        match self {
            MetaType::U8 | MetaType::I8 | MetaType::Bool => Some(1),
            MetaType::U16 | MetaType::I16 => Some(2),
            MetaType::U32 | MetaType::I32 | MetaType::F32 => Some(4),
            MetaType::U64 | MetaType::I64 | MetaType::F64 => Some(8),
            MetaType::String | MetaType::Array => None,
        }
    }

    /// Fixed byte width, or `None` for the variable-length types.
    #[verifier::when_used_as_spec(spec_fixed_size)]
    pub fn fixed_size(self) -> (r: Option<usize>)
        ensures
            r == self.fixed_size(),
    {
        match self {
            MetaType::U8 | MetaType::I8 | MetaType::Bool => Some(1),
            MetaType::U16 | MetaType::I16 => Some(2),
            MetaType::U32 | MetaType::I32 | MetaType::F32 => Some(4),
            MetaType::U64 | MetaType::I64 | MetaType::F64 => Some(8),
            MetaType::String | MetaType::Array => None,
        }
    }
}

/// A metadata value.  Floating-point values are held as their bit patterns.
#[derive(Debug, PartialEq)]
pub enum Value<'a> {
    U8(u8),
    I8(i8),
    U16(u16),
    I16(i16),
    U32(u32),
    I32(i32),
    U64(u64),
    I64(i64),
    F32(F32Bits),
    F64(F64Bits),
    Bool(bool),
    Str(&'a str),
    Array(Array<'a>),
}

#[derive(Debug, PartialEq)]
pub enum Array<'a> {
    U8(Vec<u8>),
    I8(Vec<i8>),
    U16(Vec<u16>),
    I16(Vec<i16>),
    U32(Vec<u32>),
    I32(Vec<i32>),
    U64(Vec<u64>),
    I64(Vec<i64>),
    F32(Vec<F32Bits>),
    F64(Vec<F64Bits>),
    Bool(Vec<bool>),
    Str(Vec<&'a str>),
    /// Array of arrays.
    Nested(Vec<Value<'a>>),
}

/// What a [`Value`] holds, with strings as sequences of characters.
pub enum ValueView {
    U8(u8),
    I8(i8),
    U16(u16),
    I16(i16),
    U32(u32),
    I32(i32),
    U64(u64),
    I64(i64),
    F32(u32),
    F64(u64),
    Bool(bool),
    Str(Seq<char>),
    Array(ArrayView),
}

/// What an [`Array`] holds: the type of its elements, and the elements.
pub struct ArrayView {
    pub elem: MetaType,
    pub items: Seq<ValueView>,
}

impl ValueView {
    /// The integer that the value stands for, where it is an integer or a bool.
    pub open spec fn integer(self) -> Option<int> {
        match self {
            ValueView::U8(v) => Some(v as int),
            ValueView::U16(v) => Some(v as int),
            ValueView::U32(v) => Some(v as int),
            ValueView::U64(v) => Some(v as int),
            ValueView::I8(v) => Some(v as int),
            ValueView::I16(v) => Some(v as int),
            ValueView::I32(v) => Some(v as int),
            ValueView::I64(v) => Some(v as int),
            _ => None,
        }
    }

    /// Any non-negative integer, whatever its width; a bool counts as 0 or 1.
    pub open spec fn as_u64(self) -> Option<u64> {
        match self {
            ValueView::Bool(v) => Some(if v {
                1u64
            } else {
                0u64
            }),
            _ => match self.integer() {
                Some(i) => if i >= 0 {
                    Some(i as u64)
                } else {
                    None
                },
                None => None,
            },
        }
    }

    /// Any integer that an `i64` can hold.
    pub open spec fn as_i64(self) -> Option<i64> {
        match self.integer() {
            Some(i) => if i <= i64::MAX {
                Some(i as i64)
            } else {
                None
            },
            None => None,
        }
    }

    /// `r` is the value in single precision: a float as it is or rounded, an integer
    /// rounded, and nothing else.
    pub open spec fn reads_as_f32(self, r: Option<F32Bits>) -> bool {
        match self {
            ValueView::F32(v) => r == Some(F32Bits(v)),
            ValueView::F64(v) => r is Some && bits::narrows_double(v, (r->0).0),
            _ => match self.integer() {
                Some(i) => r is Some && bits::rounds_integer(i, (r->0).0),
                None => r is None,
            },
        }
    }

    pub open spec fn as_bool(self) -> Option<bool> {
        match self {
            ValueView::Bool(v) => Some(v),
            ValueView::U8(v) => Some(v != 0),
            _ => None,
        }
    }

    pub open spec fn as_str(self) -> Option<Seq<char>> {
        match self {
            ValueView::Str(s) => Some(s),
            _ => None,
        }
    }

    pub open spec fn as_array(self) -> Option<ArrayView> {
        match self {
            ValueView::Array(a) => Some(a),
            _ => None,
        }
    }

    /// The name of the value's type.
    pub open spec fn kind_name(self) -> Seq<char> {
        match self {
            ValueView::U8(_) => "u8"@,
            ValueView::I8(_) => "i8"@,
            ValueView::U16(_) => "u16"@,
            ValueView::I16(_) => "i16"@,
            ValueView::U32(_) => "u32"@,
            ValueView::I32(_) => "i32"@,
            ValueView::U64(_) => "u64"@,
            ValueView::I64(_) => "i64"@,
            ValueView::F32(_) => "f32"@,
            ValueView::F64(_) => "f64"@,
            ValueView::Bool(_) => "bool"@,
            ValueView::Str(_) => "string"@,
            ValueView::Array(_) => "array"@,
        }
    }
}

/// The contents of a value.
pub open spec fn value_view(v: Value) -> ValueView
    decreases v,
{
    match v {
        Value::U8(x) => ValueView::U8(x),
        Value::I8(x) => ValueView::I8(x),
        Value::U16(x) => ValueView::U16(x),
        Value::I16(x) => ValueView::I16(x),
        Value::U32(x) => ValueView::U32(x),
        Value::I32(x) => ValueView::I32(x),
        Value::U64(x) => ValueView::U64(x),
        Value::I64(x) => ValueView::I64(x),
        Value::F32(x) => ValueView::F32(x.0),
        Value::F64(x) => ValueView::F64(x.0),
        Value::Bool(x) => ValueView::Bool(x),
        Value::Str(s) => ValueView::Str(s@),
        Value::Array(a) => ValueView::Array(array_view(a)),
    }
}

/// The contents of an array.
pub open spec fn array_view(a: Array) -> ArrayView
    decreases a,
{
    match a {
        Array::U8(v) => ArrayView {
            elem: MetaType::U8,
            items: Seq::new(v@.len(), |i: int| ValueView::U8(v@[i])),
        },
        Array::I8(v) => ArrayView {
            elem: MetaType::I8,
            items: Seq::new(v@.len(), |i: int| ValueView::I8(v@[i])),
        },
        Array::U16(v) => ArrayView {
            elem: MetaType::U16,
            items: Seq::new(v@.len(), |i: int| ValueView::U16(v@[i])),
        },
        Array::I16(v) => ArrayView {
            elem: MetaType::I16,
            items: Seq::new(v@.len(), |i: int| ValueView::I16(v@[i])),
        },
        Array::U32(v) => ArrayView {
            elem: MetaType::U32,
            items: Seq::new(v@.len(), |i: int| ValueView::U32(v@[i])),
        },
        Array::I32(v) => ArrayView {
            elem: MetaType::I32,
            items: Seq::new(v@.len(), |i: int| ValueView::I32(v@[i])),
        },
        Array::U64(v) => ArrayView {
            elem: MetaType::U64,
            items: Seq::new(v@.len(), |i: int| ValueView::U64(v@[i])),
        },
        Array::I64(v) => ArrayView {
            elem: MetaType::I64,
            items: Seq::new(v@.len(), |i: int| ValueView::I64(v@[i])),
        },
        Array::F32(v) => ArrayView {
            elem: MetaType::F32,
            items: Seq::new(v@.len(), |i: int| ValueView::F32(v@[i].0)),
        },
        Array::F64(v) => ArrayView {
            elem: MetaType::F64,
            items: Seq::new(v@.len(), |i: int| ValueView::F64(v@[i].0)),
        },
        Array::Bool(v) => ArrayView {
            elem: MetaType::Bool,
            items: Seq::new(v@.len(), |i: int| ValueView::Bool(v@[i])),
        },
        Array::Str(v) => ArrayView {
            elem: MetaType::String,
            items: Seq::new(v@.len(), |i: int| ValueView::Str(v@[i]@)),
        },
        Array::Nested(v) => ArrayView {
            elem: MetaType::Array,
            items: Seq::new(
                v@.len(),
                |i: int|
                    if 0 <= i < v@.len() {
                        value_view(v[i])
                    } else {
                        ValueView::Bool(false)
                    },
            ),
        },
    }
}

impl<'a> View for Value<'a> {
    type V = ValueView;

    open spec fn view(&self) -> ValueView {
        value_view(*self)
    }
}

impl<'a> View for Array<'a> {
    type V = ArrayView;

    open spec fn view(&self) -> ArrayView {
        array_view(*self)
    }
}

fn copy_value<'a>(v: &Value<'a>) -> (r: Value<'a>)
    ensures
        r@ == v@,
    decreases v,
{
    match v {
        Value::U8(x) => Value::U8(*x),
        Value::I8(x) => Value::I8(*x),
        Value::U16(x) => Value::U16(*x),
        Value::I16(x) => Value::I16(*x),
        Value::U32(x) => Value::U32(*x),
        Value::I32(x) => Value::I32(*x),
        Value::U64(x) => Value::U64(*x),
        Value::I64(x) => Value::I64(*x),
        Value::F32(x) => Value::F32(*x),
        Value::F64(x) => Value::F64(*x),
        Value::Bool(x) => Value::Bool(*x),
        Value::Str(x) => Value::Str(*x),
        Value::Array(a) => Value::Array(copy_array(a)),
    }
}

fn copy_values<'a>(v: &Vec<Value<'a>>) -> (r: Vec<Value<'a>>)
    ensures
        r@.len() == v@.len(),
        forall|j: int| 0 <= j < v@.len() ==> (#[trigger] r@[j])@ == v@[j]@,
    decreases v,
{
    let mut out: Vec<Value<'a>> = Vec::with_capacity(v.len());
    let mut i: usize = 0;
    while i < v.len()
        invariant
            i <= v@.len(),
            out@.len() == i,
            forall|j: int| 0 <= j < i ==> (#[trigger] out@[j])@ == v@[j]@,
        decreases v.len() - i,
    {
        assert(decreases_to!(v => v@));
        assert(decreases_to!(v => v@[i as int]));
        out.push(copy_value(&v[i]));
        i += 1;
    }
    out
}

fn copy_array<'a>(a: &Array<'a>) -> (r: Array<'a>)
    ensures
        r@ == a@,
    decreases a,
{
    let r = match a {
        Array::U8(v) => Array::U8(slice_to_vec(v.as_slice())),
        Array::I8(v) => Array::I8(slice_to_vec(v.as_slice())),
        Array::U16(v) => Array::U16(slice_to_vec(v.as_slice())),
        Array::I16(v) => Array::I16(slice_to_vec(v.as_slice())),
        Array::U32(v) => Array::U32(slice_to_vec(v.as_slice())),
        Array::I32(v) => Array::I32(slice_to_vec(v.as_slice())),
        Array::U64(v) => Array::U64(slice_to_vec(v.as_slice())),
        Array::I64(v) => Array::I64(slice_to_vec(v.as_slice())),
        Array::F32(v) => Array::F32(slice_to_vec(v.as_slice())),
        Array::F64(v) => Array::F64(slice_to_vec(v.as_slice())),
        Array::Bool(v) => Array::Bool(slice_to_vec(v.as_slice())),
        Array::Str(v) => Array::Str(slice_to_vec(v.as_slice())),
        Array::Nested(v) => Array::Nested(copy_values(v)),
    };
    assert(r@.items =~= a@.items);
    r
}

impl<'a> Clone for Value<'a> {
    fn clone(&self) -> (r: Self)
        ensures
            r@ == self@,
    {
        copy_value(self)
    }
}

impl<'a> Clone for Array<'a> {
    fn clone(&self) -> (r: Self)
        ensures
            r@ == self@,
    {
        copy_array(self)
    }
}

/// Deepest array-of-array nesting that is followed.
pub const MAX_ARRAY_DEPTH: u32 = 4;

/// A value that is no array, and the position behind it.
pub open spec fn spec_scalar(file: Seq<u8>, pos: int, ty: MetaType) -> Result<
    (ValueView, int),
    GgufErrorView,
> {
    if ty == MetaType::String {
        match reader::spec_str(file, pos) {
            Ok((s, p)) => Ok((ValueView::Str(s), p)),
            Err(e) => Err(e),
        }
    } else {
        match reader::spec_uint(file, pos, ty.fixed_size()->0 as int) {
            Err(e) => Err(e),
            Ok((n, p)) => Ok(
                (
                    match ty {
                        MetaType::U8 => ValueView::U8(n as u8),
                        MetaType::I8 => ValueView::I8(reader::signed(n, 0x80) as i8),
                        MetaType::U16 => ValueView::U16(n as u16),
                        MetaType::I16 => ValueView::I16(reader::signed(n, 0x8000) as i16),
                        MetaType::U32 => ValueView::U32(n as u32),
                        MetaType::I32 => ValueView::I32(reader::signed(n, 0x8000_0000) as i32),
                        MetaType::U64 => ValueView::U64(n as u64),
                        MetaType::I64 => ValueView::I64(reader::signed(n, 0x8000_0000_0000_0000) as i64),
                        MetaType::F32 => ValueView::F32(n as u32),
                        MetaType::F64 => ValueView::F64(n as u64),
                        _ => ValueView::Bool(n != 0),
                    },
                    p,
                ),
            ),
        }
    }
}

/// A value of type `ty` that stands inside `depth` arrays, and the position behind it.
pub open spec fn spec_value(file: Seq<u8>, pos: int, ty: MetaType, depth: nat) -> Result<
    (ValueView, int),
    GgufErrorView,
>
    decreases 4 - depth, 0nat,
{
    if ty != MetaType::Array {
        spec_scalar(file, pos, ty)
    } else if depth >= MAX_ARRAY_DEPTH {
        Err(GgufErrorView::ArrayNestingTooDeep)
    } else {
        match spec_array_header(file, pos) {
            Err(e) => Err(e),
            Ok((elem, n, p)) => match spec_values(file, p, elem, n, depth + 1) {
                Err(e) => Err(e),
                Ok((items, q)) => Ok((ValueView::Array(ArrayView { elem, items }), q)),
            },
        }
    }
}

/// `n` values of type `ty` in a row, and the position behind them.
pub open spec fn spec_values(file: Seq<u8>, pos: int, ty: MetaType, n: nat, depth: nat) -> Result<
    (Seq<ValueView>, int),
    GgufErrorView,
>
    decreases 4 - depth, n,
{
    if n == 0 {
        Ok((Seq::empty(), pos))
    } else {
        match spec_values(file, pos, ty, (n - 1) as nat, depth) {
            Err(e) => Err(e),
            Ok((items, p)) => match spec_value(file, p, ty, depth) {
                Err(e) => Err(e),
                Ok((v, q)) => Ok((items.push(v), q)),
            },
        }
    }
}

/// The element type and length of an array, and the position behind them.
pub open spec fn spec_array_header(file: Seq<u8>, pos: int) -> Result<
    (MetaType, nat, int),
    GgufErrorView,
> {
    match reader::spec_uint(file, pos, 4) {
        Err(e) => Err(e),
        Ok((tag, p)) => match MetaType::spec_from_tag(tag) {
            None => Err(GgufErrorView::UnknownValueType(tag as u32)),
            Some(elem) => {
                let size = match elem.fixed_size() {
                    Some(s) => s as nat,
                    None => 1,
                };
                match reader::spec_len(file, p, "array element"@, size) {
                    Err(e) => Err(e),
                    Ok((n, q)) => Ok((elem, n, q)),
                }
            },
        },
    }
}

/// The first value of a row that cannot be read decides the error of the row.
proof fn lemma_values_error(file: Seq<u8>, pos: int, ty: MetaType, m: nat, n: nat, depth: nat)
    requires
        m <= n,
        spec_values(file, pos, ty, m, depth) is Err,
    ensures
        spec_values(file, pos, ty, n, depth) == spec_values(file, pos, ty, m, depth),
    decreases n,
{
    if m < n {
        lemma_values_error(file, pos, ty, m, (n - 1) as nat, depth);
    }
}

/// Values of one type as they stand in an array.
pub trait Element<'a>: Sized {
    spec fn ty() -> MetaType;

    spec fn value(self) -> ValueView;

    fn read(r: &mut Reader<'a>) -> (res: Result<Self, GgufError>)
        requires
            old(r).wf(),
        ensures
            final(r).wf(),
            final(r).buf@ == old(r).buf@,
            match res {
                Ok(x) => spec_scalar(old(r).buf@, old(r).pos as int, Self::ty()) == Ok::<
                    (ValueView, int),
                    GgufErrorView,
                >((x.value(), final(r).pos as int)),
                Err(e) => spec_scalar(old(r).buf@, old(r).pos as int, Self::ty()) == Err::<
                    (ValueView, int),
                    GgufErrorView,
                >(e@),
            },
    ;
}

impl<'a> Element<'a> for u8 {
    open spec fn ty() -> MetaType {
        MetaType::U8
    }

    open spec fn value(self) -> ValueView {
        ValueView::U8(self)
    }

    fn read(r: &mut Reader<'a>) -> (res: Result<Self, GgufError>) {
        r.read_u8()
    }
}

impl<'a> Element<'a> for i8 {
    open spec fn ty() -> MetaType {
        MetaType::I8
    }

    open spec fn value(self) -> ValueView {
        ValueView::I8(self)
    }

    fn read(r: &mut Reader<'a>) -> (res: Result<Self, GgufError>) {
        r.read_i8()
    }
}

impl<'a> Element<'a> for u16 {
    open spec fn ty() -> MetaType {
        MetaType::U16
    }

    open spec fn value(self) -> ValueView {
        ValueView::U16(self)
    }

    fn read(r: &mut Reader<'a>) -> (res: Result<Self, GgufError>) {
        r.read_u16()
    }
}

impl<'a> Element<'a> for i16 {
    open spec fn ty() -> MetaType {
        MetaType::I16
    }

    open spec fn value(self) -> ValueView {
        ValueView::I16(self)
    }

    fn read(r: &mut Reader<'a>) -> (res: Result<Self, GgufError>) {
        r.read_i16()
    }
}

impl<'a> Element<'a> for u32 {
    open spec fn ty() -> MetaType {
        MetaType::U32
    }

    open spec fn value(self) -> ValueView {
        ValueView::U32(self)
    }

    fn read(r: &mut Reader<'a>) -> (res: Result<Self, GgufError>) {
        r.read_u32()
    }
}

impl<'a> Element<'a> for i32 {
    open spec fn ty() -> MetaType {
        MetaType::I32
    }

    open spec fn value(self) -> ValueView {
        ValueView::I32(self)
    }

    fn read(r: &mut Reader<'a>) -> (res: Result<Self, GgufError>) {
        r.read_i32()
    }
}

impl<'a> Element<'a> for u64 {
    open spec fn ty() -> MetaType {
        MetaType::U64
    }

    open spec fn value(self) -> ValueView {
        ValueView::U64(self)
    }

    fn read(r: &mut Reader<'a>) -> (res: Result<Self, GgufError>) {
        r.read_u64()
    }
}

impl<'a> Element<'a> for i64 {
    open spec fn ty() -> MetaType {
        MetaType::I64
    }

    open spec fn value(self) -> ValueView {
        ValueView::I64(self)
    }

    fn read(r: &mut Reader<'a>) -> (res: Result<Self, GgufError>) {
        r.read_i64()
    }
}

impl<'a> Element<'a> for F32Bits {
    open spec fn ty() -> MetaType {
        MetaType::F32
    }

    open spec fn value(self) -> ValueView {
        ValueView::F32(self.0)
    }

    fn read(r: &mut Reader<'a>) -> (res: Result<Self, GgufError>) {
        r.read_f32()
    }
}

impl<'a> Element<'a> for F64Bits {
    open spec fn ty() -> MetaType {
        MetaType::F64
    }

    open spec fn value(self) -> ValueView {
        ValueView::F64(self.0)
    }

    fn read(r: &mut Reader<'a>) -> (res: Result<Self, GgufError>) {
        r.read_f64()
    }
}

impl<'a> Element<'a> for bool {
    open spec fn ty() -> MetaType {
        MetaType::Bool
    }

    open spec fn value(self) -> ValueView {
        ValueView::Bool(self)
    }

    fn read(r: &mut Reader<'a>) -> (res: Result<Self, GgufError>) {
        r.read_bool()
    }
}

impl<'a> Element<'a> for &'a str {
    open spec fn ty() -> MetaType {
        MetaType::String
    }

    open spec fn value(self) -> ValueView {
        ValueView::Str(self@)
    }

    fn read(r: &mut Reader<'a>) -> (res: Result<Self, GgufError>) {
        r.read_str()
    }
}

/// `n` elements in a row.
fn read_elements<'a, T: Element<'a>>(r: &mut Reader<'a>, n: usize, Ghost(depth): Ghost<nat>) -> (res:
    Result<Vec<T>, GgufError>)
    requires
        old(r).wf(),
        T::ty() != MetaType::Array,
    ensures
        final(r).wf(),
        final(r).buf@ == old(r).buf@,
        match res {
            Ok(v) => spec_values(old(r).buf@, old(r).pos as int, T::ty(), n as nat, depth) == Ok::<
                (Seq<ValueView>, int),
                GgufErrorView,
            >((Seq::new(v@.len(), |i: int| v@[i].value()), final(r).pos as int)),
            Err(e) => spec_values(old(r).buf@, old(r).pos as int, T::ty(), n as nat, depth) == Err::<
                (Seq<ValueView>, int),
                GgufErrorView,
            >(e@),
        },
{
    let mut v: Vec<T> = Vec::with_capacity(n);
    let mut i: usize = 0;
    let ghost file = r.buf@;
    let ghost start = r.pos as int;
    assert(Seq::new(v@.len(), |i: int| v@[i].value()) =~= Seq::<ValueView>::empty());
    while i < n
        invariant
            r.wf(),
            r.buf@ == file,
            file == old(r).buf@,
            start == old(r).pos,
            i <= n,
            T::ty() != MetaType::Array,
            spec_values(file, start, T::ty(), i as nat, depth) == Ok::<
                (Seq<ValueView>, int),
                GgufErrorView,
            >((Seq::new(v@.len(), |i: int| v@[i].value()), r.pos as int)),
        decreases n - i,
    {
        let ghost before = Seq::new(v@.len(), |i: int| v@[i].value());
        assert(spec_value(file, r.pos as int, T::ty(), depth) == spec_scalar(
            file,
            r.pos as int,
            T::ty(),
        ));
        match T::read(r) {
            Ok(x) => {
                v.push(x);
                proof {
                    assert(Seq::new(v@.len(), |i: int| v@[i].value()) =~= before.push(x.value()));
                }
            },
            Err(e) => {
                proof {
                    lemma_values_error(file, start, T::ty(), (i + 1) as nat, n as nat, depth);
                }
                return Err(e);
            },
        }
        i += 1;
    }
    Ok(v)
}

impl<'a> Value<'a> {
    pub fn read(r: &mut Reader<'a>, ty: MetaType, depth: u32) -> (res: Result<Self, GgufError>)
        requires
            old(r).wf(),
        ensures
            final(r).wf(),
            final(r).buf@ == old(r).buf@,
            match res {
                Ok(v) => spec_value(old(r).buf@, old(r).pos as int, ty, depth as nat) == Ok::<
                    (ValueView, int),
                    GgufErrorView,
                >((v@, final(r).pos as int)),
                Err(e) => spec_value(old(r).buf@, old(r).pos as int, ty, depth as nat) == Err::<
                    (ValueView, int),
                    GgufErrorView,
                >(e@),
            },
    {
        match ty {
            MetaType::U8 => match r.read_u8() {
                Ok(x) => Ok(Value::U8(x)),
                Err(e) => Err(e),
            },
            MetaType::I8 => match r.read_i8() {
                Ok(x) => Ok(Value::I8(x)),
                Err(e) => Err(e),
            },
            MetaType::U16 => match r.read_u16() {
                Ok(x) => Ok(Value::U16(x)),
                Err(e) => Err(e),
            },
            MetaType::I16 => match r.read_i16() {
                Ok(x) => Ok(Value::I16(x)),
                Err(e) => Err(e),
            },
            MetaType::U32 => match r.read_u32() {
                Ok(x) => Ok(Value::U32(x)),
                Err(e) => Err(e),
            },
            MetaType::I32 => match r.read_i32() {
                Ok(x) => Ok(Value::I32(x)),
                Err(e) => Err(e),
            },
            MetaType::U64 => match r.read_u64() {
                Ok(x) => Ok(Value::U64(x)),
                Err(e) => Err(e),
            },
            MetaType::I64 => match r.read_i64() {
                Ok(x) => Ok(Value::I64(x)),
                Err(e) => Err(e),
            },
            MetaType::F32 => match r.read_f32() {
                Ok(x) => Ok(Value::F32(x)),
                Err(e) => Err(e),
            },
            MetaType::F64 => match r.read_f64() {
                Ok(x) => Ok(Value::F64(x)),
                Err(e) => Err(e),
            },
            MetaType::Bool => match r.read_bool() {
                Ok(x) => Ok(Value::Bool(x)),
                Err(e) => Err(e),
            },
            MetaType::String => match r.read_str() {
                Ok(x) => Ok(Value::Str(x)),
                Err(e) => Err(e),
            },
            MetaType::Array => match Array::read(r, depth) {
                Ok(a) => Ok(Value::Array(a)),
                Err(e) => Err(e),
            },
        }
    }

    /// The name of the value's type.
    pub fn kind_name(&self) -> (r: &'static str)
        ensures
            r@ == self@.kind_name(),
    {
        match self {
            Value::U8(_) => "u8",
            Value::I8(_) => "i8",
            Value::U16(_) => "u16",
            Value::I16(_) => "i16",
            Value::U32(_) => "u32",
            Value::I32(_) => "i32",
            Value::U64(_) => "u64",
            Value::I64(_) => "i64",
            Value::F32(_) => "f32",
            Value::F64(_) => "f64",
            Value::Bool(_) => "bool",
            Value::Str(_) => "string",
            Value::Array(_) => "array",
        }
    }

    /// Coerce any non-negative integer variant to `u64`.  Writers are inconsistent
    /// about integer widths, so callers should never match on an exact width.
    pub fn as_u64(&self) -> (r: Option<u64>)
        ensures
            r == self@.as_u64(),
    {
        match self {
            Value::U8(v) => Some(*v as u64),
            Value::U16(v) => Some(*v as u64),
            Value::U32(v) => Some(*v as u64),
            Value::U64(v) => Some(*v),
            Value::I8(v) => if *v >= 0 {
                Some(*v as u64)
            } else {
                None
            },
            Value::I16(v) => if *v >= 0 {
                Some(*v as u64)
            } else {
                None
            },
            Value::I32(v) => if *v >= 0 {
                Some(*v as u64)
            } else {
                None
            },
            Value::I64(v) => if *v >= 0 {
                Some(*v as u64)
            } else {
                None
            },
            Value::Bool(v) => Some(
                if *v {
                    1
                } else {
                    0
                },
            ),
            _ => None,
        }
    }

    /// Coerce any integer variant to `i64`.
    pub fn as_i64(&self) -> (r: Option<i64>)
        ensures
            r == self@.as_i64(),
    {
        match self {
            Value::U8(v) => Some(*v as i64),
            Value::U16(v) => Some(*v as i64),
            Value::U32(v) => Some(*v as i64),
            Value::U64(v) => if *v <= 0x7fff_ffff_ffff_ffff {
                Some(*v as i64)
            } else {
                None
            },
            Value::I8(v) => Some(*v as i64),
            Value::I16(v) => Some(*v as i64),
            Value::I32(v) => Some(*v as i64),
            Value::I64(v) => Some(*v),
            _ => None,
        }
    }

    /// Coerce any float or integer variant to single precision.
    pub fn as_f32(&self) -> (r: Option<F32Bits>)
        ensures
            self@.reads_as_f32(r),
    {
        match self {
            Value::F32(v) => Some(*v),
            Value::F64(v) => Some(bits::double_to_single(*v)),
            Value::U64(v) => Some(bits::unsigned_to_single(*v)),
            _ => match self.as_i64() {
                Some(i) => Some(bits::integer_to_single(i)),
                None => None,
            },
        }
    }

    pub fn as_bool(&self) -> (r: Option<bool>)
        ensures
            r == self@.as_bool(),
    {
        match self {
            Value::Bool(v) => Some(*v),
            Value::U8(v) => Some(*v != 0),
            _ => None,
        }
    }

    pub fn as_str(&self) -> (r: Option<&'a str>)
        ensures
            match r {
                Some(s) => self@.as_str() == Some(s@),
                None => self@.as_str() is None,
            },
    {
        match self {
            Value::Str(s) => Some(*s),
            _ => None,
        }
    }

    pub fn as_array(&self) -> (r: Option<&Array<'a>>)
        ensures
            match r {
                Some(a) => self@.as_array() == Some(a@),
                None => self@.as_array() is None,
            },
    {
        match self {
            Value::Array(a) => Some(a),
            _ => None,
        }
    }
}

impl<'a> Array<'a> {
    /// How many elements the array holds.
    pub fn len(&self) -> (r: usize)
        ensures
            r == self@.items.len(),
    {
        match self {
            Array::U8(v) => v.len(),
            Array::I8(v) => v.len(),
            Array::U16(v) => v.len(),
            Array::I16(v) => v.len(),
            Array::U32(v) => v.len(),
            Array::I32(v) => v.len(),
            Array::U64(v) => v.len(),
            Array::I64(v) => v.len(),
            Array::F32(v) => v.len(),
            Array::F64(v) => v.len(),
            Array::Bool(v) => v.len(),
            Array::Str(v) => v.len(),
            Array::Nested(v) => v.len(),
        }
    }

    pub fn is_empty(&self) -> (r: bool)
        ensures
            r == (self@.items.len() == 0),
    {
        self.len() == 0
    }

    /// The name of the type of the elements.
    pub fn elem_type_name(&self) -> (r: &'static str)
        ensures
            r@ == self@.elem.name(),
    {
        match self {
            Array::U8(_) => "u8",
            Array::I8(_) => "i8",
            Array::U16(_) => "u16",
            Array::I16(_) => "i16",
            Array::U32(_) => "u32",
            Array::I32(_) => "i32",
            Array::U64(_) => "u64",
            Array::I64(_) => "i64",
            Array::F32(_) => "f32",
            Array::F64(_) => "f64",
            Array::Bool(_) => "bool",
            Array::Str(_) => "string",
            Array::Nested(_) => "array",
        }
    }

    /// The elements, where they are strings.
    pub fn as_str_slice(&self) -> (r: Option<&[&'a str]>)
        ensures
            r is Some <==> self@.elem == MetaType::String,
            r matches Some(v) ==> self@.items =~= Seq::new(v@.len(), |i: int| ValueView::Str(v@[i]@)),
    {
        match self {
            Array::Str(v) => Some(v.as_slice()),
            _ => None,
        }
    }

    /// The elements, where they are single-precision numbers.
    pub fn as_f32_slice(&self) -> (r: Option<&[F32Bits]>)
        ensures
            r is Some <==> self@.elem == MetaType::F32,
            r matches Some(v) ==> self@.items =~= Seq::new(v@.len(), |i: int| ValueView::F32(v@[i].0)),
    {
        match self {
            Array::F32(v) => Some(v.as_slice()),
            _ => None,
        }
    }

    /// The elements, where they are `i32` numbers.
    pub fn as_i32_slice(&self) -> (r: Option<&[i32]>)
        ensures
            r is Some <==> self@.elem == MetaType::I32,
            r matches Some(v) ==> self@.items =~= Seq::new(v@.len(), |i: int| ValueView::I32(v@[i])),
    {
        match self {
            Array::I32(v) => Some(v.as_slice()),
            _ => None,
        }
    }
}

impl<'a> Array<'a> {
    pub fn read(r: &mut Reader<'a>, depth: u32) -> (res: Result<Self, GgufError>)
        requires
            old(r).wf(),
        ensures
            final(r).wf(),
            final(r).buf@ == old(r).buf@,
            match res {
                Ok(a) => spec_value(old(r).buf@, old(r).pos as int, MetaType::Array, depth as nat)
                    == Ok::<(ValueView, int), GgufErrorView>(
                    (ValueView::Array(a@), final(r).pos as int),
                ),
                Err(e) => spec_value(old(r).buf@, old(r).pos as int, MetaType::Array, depth as nat)
                    == Err::<(ValueView, int), GgufErrorView>(e@),
            },
        decreases 4 - depth, 1nat,
    {
        if depth >= MAX_ARRAY_DEPTH {
            return Err(GgufError::ArrayNestingTooDeep);
        }
        let ghost file = r.buf@;
        let ghost start = r.pos as int;
        let tag: u32 = match r.read_u32() {
            Ok(t) => t,
            Err(e) => return Err(e),
        };
        let elem_ty = match MetaType::from_u32(tag) {
            Ok(t) => t,
            Err(e) => return Err(e),
        };
        // Every element of variable width costs at least one byte.
        let n: usize = match elem_ty.fixed_size() {
            Some(sz) => match r.read_len_scaled("array element", sz) {
                Ok(n) => n,
                Err(e) => return Err(e),
            },
            None => match r.read_len("array element") {
                Ok(n) => n,
                Err(e) => return Err(e),
            },
        };
        assert(reader::spec_uint(file, start, 4) == Ok::<(nat, int), GgufErrorView>((tag as nat, start + 4)));
        assert(spec_array_header(file, start) == Ok::<(MetaType, nat, int), GgufErrorView>(
            (elem_ty, n as nat, r.pos as int),
        ));
        match elem_ty {
            MetaType::Array => match read_nested(r, n, depth) {
                Ok(v) => {
                    let a = Array::Nested(v);
                    assert(a@.items =~= Seq::new(v@.len(), |i: int| value_view(v@[i])));
                    Ok(a)
                },
                Err(e) => Err(e),
            },
            _ => read_flat(r, elem_ty, n, Ghost(depth as nat + 1)),
        }
    }
}

/// `n` elements of a type that is no array.
fn read_flat<'a>(r: &mut Reader<'a>, elem_ty: MetaType, n: usize, Ghost(depth): Ghost<nat>) -> (res:
    Result<Array<'a>, GgufError>)
    requires
        old(r).wf(),
        elem_ty != MetaType::Array,
    ensures
        final(r).wf(),
        final(r).buf@ == old(r).buf@,
        match res {
            Ok(a) => a@.elem == elem_ty && spec_values(
                old(r).buf@,
                old(r).pos as int,
                elem_ty,
                n as nat,
                depth,
            ) == Ok::<(Seq<ValueView>, int), GgufErrorView>((a@.items, final(r).pos as int)),
            Err(e) => spec_values(old(r).buf@, old(r).pos as int, elem_ty, n as nat, depth)
                == Err::<(Seq<ValueView>, int), GgufErrorView>(e@),
        },
{
    match elem_ty {
        MetaType::U8 => match read_elements::<u8>(r, n, Ghost(depth)) {
            Ok(v) => {
                let a = Array::U8(v);
                assert(a@.items =~= Seq::new(v@.len(), |i: int| v@[i].value()));
                Ok(a)
            },
            Err(e) => Err(e),
        },
        MetaType::I8 => match read_elements::<i8>(r, n, Ghost(depth)) {
            Ok(v) => {
                let a = Array::I8(v);
                assert(a@.items =~= Seq::new(v@.len(), |i: int| v@[i].value()));
                Ok(a)
            },
            Err(e) => Err(e),
        },
        MetaType::U16 => match read_elements::<u16>(r, n, Ghost(depth)) {
            Ok(v) => {
                let a = Array::U16(v);
                assert(a@.items =~= Seq::new(v@.len(), |i: int| v@[i].value()));
                Ok(a)
            },
            Err(e) => Err(e),
        },
        MetaType::I16 => match read_elements::<i16>(r, n, Ghost(depth)) {
            Ok(v) => {
                let a = Array::I16(v);
                assert(a@.items =~= Seq::new(v@.len(), |i: int| v@[i].value()));
                Ok(a)
            },
            Err(e) => Err(e),
        },
        MetaType::U32 => match read_elements::<u32>(r, n, Ghost(depth)) {
            Ok(v) => {
                let a = Array::U32(v);
                assert(a@.items =~= Seq::new(v@.len(), |i: int| v@[i].value()));
                Ok(a)
            },
            Err(e) => Err(e),
        },
        MetaType::I32 => match read_elements::<i32>(r, n, Ghost(depth)) {
            Ok(v) => {
                let a = Array::I32(v);
                assert(a@.items =~= Seq::new(v@.len(), |i: int| v@[i].value()));
                Ok(a)
            },
            Err(e) => Err(e),
        },
        MetaType::U64 => match read_elements::<u64>(r, n, Ghost(depth)) {
            Ok(v) => {
                let a = Array::U64(v);
                assert(a@.items =~= Seq::new(v@.len(), |i: int| v@[i].value()));
                Ok(a)
            },
            Err(e) => Err(e),
        },
        MetaType::I64 => match read_elements::<i64>(r, n, Ghost(depth)) {
            Ok(v) => {
                let a = Array::I64(v);
                assert(a@.items =~= Seq::new(v@.len(), |i: int| v@[i].value()));
                Ok(a)
            },
            Err(e) => Err(e),
        },
        MetaType::F32 => match read_elements::<F32Bits>(r, n, Ghost(depth)) {
            Ok(v) => {
                let a = Array::F32(v);
                assert(a@.items =~= Seq::new(v@.len(), |i: int| v@[i].value()));
                Ok(a)
            },
            Err(e) => Err(e),
        },
        MetaType::F64 => match read_elements::<F64Bits>(r, n, Ghost(depth)) {
            Ok(v) => {
                let a = Array::F64(v);
                assert(a@.items =~= Seq::new(v@.len(), |i: int| v@[i].value()));
                Ok(a)
            },
            Err(e) => Err(e),
        },
        MetaType::Bool => match read_elements::<bool>(r, n, Ghost(depth)) {
            Ok(v) => {
                let a = Array::Bool(v);
                assert(a@.items =~= Seq::new(v@.len(), |i: int| v@[i].value()));
                Ok(a)
            },
            Err(e) => Err(e),
        },
        MetaType::String => match read_elements::<&'a str>(r, n, Ghost(depth)) {
            Ok(v) => {
                let a = Array::Str(v);
                assert(a@.items =~= Seq::new(v@.len(), |i: int| v@[i].value()));
                Ok(a)
            },
            Err(e) => Err(e),
        },
        MetaType::Array => Err(GgufError::ArrayNestingTooDeep),
    }
}

/// `n` arrays in a row, as the elements of an array that stands inside `depth` others.
fn read_nested<'a>(r: &mut Reader<'a>, n: usize, depth: u32) -> (res: Result<
    Vec<Value<'a>>,
    GgufError,
>)
    requires
        old(r).wf(),
        depth < MAX_ARRAY_DEPTH,
    ensures
        final(r).wf(),
        final(r).buf@ == old(r).buf@,
        match res {
            Ok(v) => spec_values(
                old(r).buf@,
                old(r).pos as int,
                MetaType::Array,
                n as nat,
                depth as nat + 1,
            ) == Ok::<(Seq<ValueView>, int), GgufErrorView>(
                (Seq::new(v@.len(), |i: int| value_view(v@[i])), final(r).pos as int),
            ),
            Err(e) => spec_values(
                old(r).buf@,
                old(r).pos as int,
                MetaType::Array,
                n as nat,
                depth as nat + 1,
            ) == Err::<(Seq<ValueView>, int), GgufErrorView>(e@),
        },
    decreases 4 - depth, 0nat,
{
    let mut v: Vec<Value<'a>> = Vec::with_capacity(n);
    let mut i: usize = 0;
    let ghost file = r.buf@;
    let ghost start = r.pos as int;
    let ghost d = depth as nat + 1;
    assert(Seq::new(v@.len(), |i: int| value_view(v@[i])) =~= Seq::<ValueView>::empty());
    while i < n
        invariant
            r.wf(),
            r.buf@ == file,
            file == old(r).buf@,
            start == old(r).pos,
            i <= n,
            depth < MAX_ARRAY_DEPTH,
            d == depth + 1,
            spec_values(file, start, MetaType::Array, i as nat, d) == Ok::<
                (Seq<ValueView>, int),
                GgufErrorView,
            >((Seq::new(v@.len(), |i: int| value_view(v@[i])), r.pos as int)),
        decreases n - i,
    {
        let ghost before = Seq::new(v@.len(), |i: int| value_view(v@[i]));
        match Array::read(r, depth + 1) {
            Ok(a) => {
                v.push(Value::Array(a));
                proof {
                    assert(value_view(Value::Array(a)) == ValueView::Array(a@));
                    assert(Seq::new(v@.len(), |i: int| value_view(v@[i])) =~= before.push(
                        ValueView::Array(a@),
                    ));
                }
            },
            Err(e) => {
                proof {
                    lemma_values_error(file, start, MetaType::Array, (i + 1) as nat, n as nat, d);
                }
                return Err(e);
            },
        }
        i += 1;
    }
    Ok(v)
}

} // verus!
