//! Errors produced while parsing a GGUF container.
//!
//! These are all *file* errors, not programmer errors: the bytes may be
//! truncated, corrupt or hostile, so each of them is an ordinary `Err`.
use crate::text;
use vstd::prelude::*;

verus! {

#[derive(Debug, Clone, PartialEq, Eq)]
pub enum GgufError {
    /// Ran off the end of the buffer.  Usually a truncated download.
    UnexpectedEof { at: usize, needed: usize, remaining: usize },
    /// First four bytes were not `GGUF`.
    BadMagic([u8; 4]),
    /// Versions 2 and 3 are handled; version 1 used 32-bit lengths and is extinct.
    UnsupportedVersion(u32),
    /// Metadata value type tag outside 0..=12.
    UnknownValueType(u32),
    /// `ggml_type` tag without a known block layout.
    UnknownGgmlType(u32),
    /// A length-prefixed string was not valid UTF-8.
    InvalidUtf8 { at: usize },
    /// A count in the header is larger than the entire remaining file.
    ImplausibleCount { what: &'static str, count: u64, remaining: usize },
    /// Arrays of arrays of arrays: the depth is bounded.
    ArrayNestingTooDeep,
    /// `general.alignment` must be a non-zero power of two.
    BadAlignment(u64),
    /// GGML tensors are at most 4-dimensional.
    TooManyDims { name: String, n_dims: u32 },
    /// Tensor's data range does not fit inside the tensor-data section.
    TensorOutOfBounds { name: String, offset: u64, size: u64, section_len: u64 },
    /// Tensor offsets must be multiples of the alignment.
    MisalignedTensor { name: String, offset: u64, alignment: u64 },
    /// A quantised tensor's element count is not a whole number of blocks.
    NotBlockAligned { name: String, elements: u64, block: usize },
    /// Arithmetic on file-supplied sizes overflowed.
    SizeOverflow { name: String },
    /// Required metadata key absent.
    MissingKey(String),
    /// Key present but holding a type that cannot be coerced to the wanted one.
    WrongType { key: String, wanted: &'static str, found: &'static str },
    /// Config values that contradict each other.
    InconsistentConfig(String),
}

/// What a [`GgufError`] says, with strings as sequences of characters.
pub enum GgufErrorView {
    UnexpectedEof { at: int, needed: int, remaining: int },
    BadMagic(Seq<u8>),
    UnsupportedVersion(u32),
    UnknownValueType(u32),
    UnknownGgmlType(u32),
    InvalidUtf8 { at: int },
    ImplausibleCount { what: Seq<char>, count: nat, remaining: int },
    ArrayNestingTooDeep,
    BadAlignment(u64),
    TooManyDims { name: Seq<char>, n_dims: nat },
    TensorOutOfBounds { name: Seq<char>, offset: nat, size: nat, section_len: int },
    MisalignedTensor { name: Seq<char>, offset: nat, alignment: nat },
    NotBlockAligned { name: Seq<char>, elements: nat, block: nat },
    SizeOverflow { name: Seq<char> },
    MissingKey(Seq<char>),
    WrongType { key: Seq<char>, wanted: Seq<char>, found: Seq<char> },
    InconsistentConfig(Seq<char>),
}

impl View for GgufError {
    type V = GgufErrorView;

    open spec fn view(&self) -> GgufErrorView {
        match *self {
            GgufError::UnexpectedEof { at, needed, remaining } => GgufErrorView::UnexpectedEof {
                at: at as int,
                needed: needed as int,
                remaining: remaining as int,
            },
            GgufError::BadMagic(m) => GgufErrorView::BadMagic(m@),
            GgufError::UnsupportedVersion(v) => GgufErrorView::UnsupportedVersion(v),
            GgufError::UnknownValueType(t) => GgufErrorView::UnknownValueType(t),
            GgufError::UnknownGgmlType(t) => GgufErrorView::UnknownGgmlType(t),
            GgufError::InvalidUtf8 { at } => GgufErrorView::InvalidUtf8 { at: at as int },
            GgufError::ImplausibleCount { what, count, remaining } => {
                GgufErrorView::ImplausibleCount {
                    what: what@,
                    count: count as nat,
                    remaining: remaining as int,
                }
            },
            GgufError::ArrayNestingTooDeep => GgufErrorView::ArrayNestingTooDeep,
            GgufError::BadAlignment(a) => GgufErrorView::BadAlignment(a),
            GgufError::TooManyDims { name, n_dims } => GgufErrorView::TooManyDims {
                name: name@,
                n_dims: n_dims as nat,
            },
            GgufError::TensorOutOfBounds { name, offset, size, section_len } => {
                GgufErrorView::TensorOutOfBounds {
                    name: name@,
                    offset: offset as nat,
                    size: size as nat,
                    section_len: section_len as int,
                }
            },
            GgufError::MisalignedTensor { name, offset, alignment } => {
                GgufErrorView::MisalignedTensor {
                    name: name@,
                    offset: offset as nat,
                    alignment: alignment as nat,
                }
            },
            GgufError::NotBlockAligned { name, elements, block } => {
                GgufErrorView::NotBlockAligned {
                    name: name@,
                    elements: elements as nat,
                    block: block as nat,
                }
            },
            GgufError::SizeOverflow { name } => GgufErrorView::SizeOverflow { name: name@ },
            GgufError::MissingKey(k) => GgufErrorView::MissingKey(k@),
            GgufError::WrongType { key, wanted, found } => GgufErrorView::WrongType {
                key: key@,
                wanted: wanted@,
                found: found@,
            },
            GgufError::InconsistentConfig(m) => GgufErrorView::InconsistentConfig(m@),
        }
    }
}

impl GgufErrorView {
    /// The message for people.
    pub open spec fn message(self) -> Seq<char> {
        match self {
            GgufErrorView::UnexpectedEof { at, needed, remaining } => {
                "unexpected end of file at byte "@ + text::decimal(at as nat) + ": needed "@
                    + text::decimal(needed as nat) + " more bytes, "@
                    + text::decimal(remaining as nat) + " remain (truncated download?)"@
            },
            GgufErrorView::BadMagic(m) => {
                "bad magic ["@ + text::hex_byte(m[0]) + ", "@ + text::hex_byte(m[1]) + ", "@
                    + text::hex_byte(m[2]) + ", "@ + text::hex_byte(m[3])
                    + "]: expected \"GGUF\""@
            },
            GgufErrorView::UnsupportedVersion(v) => {
                "unsupported GGUF version "@ + text::decimal(v as nat)
                    + " (this parser handles 2 and 3)"@
            },
            GgufErrorView::UnknownValueType(t) => {
                "unknown metadata value type tag "@ + text::decimal(t as nat)
            },
            GgufErrorView::UnknownGgmlType(t) => {
                "unknown ggml type id "@ + text::decimal(t as nat)
                    + ": refusing to guess its block layout"@
            },
            GgufErrorView::InvalidUtf8 { at } => {
                "invalid UTF-8 in string at byte "@ + text::decimal(at as nat)
            },
            GgufErrorView::ImplausibleCount { what, count, remaining } => {
                what + " count "@ + text::decimal(count as nat) + " cannot fit in the "@
                    + text::decimal(remaining as nat) + " remaining bytes; file is corrupt"@
            },
            GgufErrorView::ArrayNestingTooDeep => "metadata array nesting exceeded the depth limit"@,
            GgufErrorView::BadAlignment(a) => {
                "general.alignment = "@ + text::decimal(a as nat)
                    + ": must be a non-zero power of two"@
            },
            GgufErrorView::TooManyDims { name, n_dims } => {
                "tensor "@ + text::quoted(name) + " has "@ + text::decimal(n_dims as nat)
                    + " dims; ggml allows at most 4"@
            },
            GgufErrorView::TensorOutOfBounds { name, offset, size, section_len } => {
                "tensor "@ + text::quoted(name) + " spans ["@ + text::decimal(offset as nat)
                    + ", "@ + text::decimal((offset + size) as nat)
                    + ") but the data section is only "@ + text::decimal(section_len as nat)
                    + " bytes"@
            },
            GgufErrorView::MisalignedTensor { name, offset, alignment } => {
                "tensor "@ + text::quoted(name) + " offset "@ + text::decimal(offset as nat)
                    + " is not a multiple of alignment "@ + text::decimal(alignment as nat)
            },
            GgufErrorView::NotBlockAligned { name, elements, block } => {
                "tensor "@ + text::quoted(name) + " has "@ + text::decimal(elements as nat)
                    + " elements, not a whole number of "@ + text::decimal(block as nat)
                    + "-element blocks"@
            },
            GgufErrorView::SizeOverflow { name } => {
                "size computation for tensor "@ + text::quoted(name) + " overflowed"@
            },
            GgufErrorView::MissingKey(k) => {
                "required metadata key "@ + text::quoted(k) + " is missing"@
            },
            GgufErrorView::WrongType { key, wanted, found } => {
                "metadata key "@ + text::quoted(key) + " is "@ + found + ", wanted "@ + wanted
            },
            GgufErrorView::InconsistentConfig(m) => "inconsistent model config: "@ + m,
        }
    }
}

impl GgufError {
    /// The message for people.
    pub fn message(&self) -> (r: String)
        ensures
            r@ == self@.message(),
    {
        match self {
            GgufError::UnexpectedEof { at, needed, remaining } => {
                let mut s = "unexpected end of file at byte ".to_owned();
                text::push_decimal(&mut s, *at as u128);
                s.push_str(": needed ");
                text::push_decimal(&mut s, *needed as u128);
                s.push_str(" more bytes, ");
                text::push_decimal(&mut s, *remaining as u128);
                s.push_str(" remain (truncated download?)");
                s
            },
            GgufError::BadMagic(m) => {
                let mut s = "bad magic [".to_owned();
                text::push_hex_byte(&mut s, m[0]);
                s.push_str(", ");
                text::push_hex_byte(&mut s, m[1]);
                s.push_str(", ");
                text::push_hex_byte(&mut s, m[2]);
                s.push_str(", ");
                text::push_hex_byte(&mut s, m[3]);
                s.push_str("]: expected \"GGUF\"");
                s
            },
            GgufError::UnsupportedVersion(v) => {
                let mut s = "unsupported GGUF version ".to_owned();
                text::push_decimal(&mut s, *v as u128);
                s.push_str(" (this parser handles 2 and 3)");
                s
            },
            GgufError::UnknownValueType(t) => {
                let mut s = "unknown metadata value type tag ".to_owned();
                text::push_decimal(&mut s, *t as u128);
                s
            },
            GgufError::UnknownGgmlType(t) => {
                let mut s = "unknown ggml type id ".to_owned();
                text::push_decimal(&mut s, *t as u128);
                s.push_str(": refusing to guess its block layout");
                s
            },
            GgufError::InvalidUtf8 { at } => {
                let mut s = "invalid UTF-8 in string at byte ".to_owned();
                text::push_decimal(&mut s, *at as u128);
                s
            },
            GgufError::ImplausibleCount { what, count, remaining } => {
                let mut s = (*what).to_owned();
                s.push_str(" count ");
                text::push_decimal(&mut s, *count as u128);
                s.push_str(" cannot fit in the ");
                text::push_decimal(&mut s, *remaining as u128);
                s.push_str(" remaining bytes; file is corrupt");
                s
            },
            GgufError::ArrayNestingTooDeep => {
                let s = "metadata array nesting exceeded the depth limit".to_owned();
                s
            },
            GgufError::BadAlignment(a) => {
                let mut s = "general.alignment = ".to_owned();
                text::push_decimal(&mut s, *a as u128);
                s.push_str(": must be a non-zero power of two");
                s
            },
            GgufError::TooManyDims { name, n_dims } => {
                let mut s = "tensor ".to_owned();
                s.push_str(&text::quote(name));
                s.push_str(" has ");
                text::push_decimal(&mut s, *n_dims as u128);
                s.push_str(" dims; ggml allows at most 4");
                s
            },
            GgufError::TensorOutOfBounds { name, offset, size, section_len } => {
                let mut s = "tensor ".to_owned();
                s.push_str(&text::quote(name));
                s.push_str(" spans [");
                text::push_decimal(&mut s, *offset as u128);
                s.push_str(", ");
                text::push_decimal(&mut s, *offset as u128 + *size as u128);
                s.push_str(") but the data section is only ");
                text::push_decimal(&mut s, *section_len as u128);
                s.push_str(" bytes");
                s
            },
            GgufError::MisalignedTensor { name, offset, alignment } => {
                let mut s = "tensor ".to_owned();
                s.push_str(&text::quote(name));
                s.push_str(" offset ");
                text::push_decimal(&mut s, *offset as u128);
                s.push_str(" is not a multiple of alignment ");
                text::push_decimal(&mut s, *alignment as u128);
                s
            },
            GgufError::NotBlockAligned { name, elements, block } => {
                let mut s = "tensor ".to_owned();
                s.push_str(&text::quote(name));
                s.push_str(" has ");
                text::push_decimal(&mut s, *elements as u128);
                s.push_str(" elements, not a whole number of ");
                text::push_decimal(&mut s, *block as u128);
                s.push_str("-element blocks");
                s
            },
            GgufError::SizeOverflow { name } => {
                let mut s = "size computation for tensor ".to_owned();
                s.push_str(&text::quote(name));
                s.push_str(" overflowed");
                s
            },
            GgufError::MissingKey(k) => {
                let mut s = "required metadata key ".to_owned();
                s.push_str(&text::quote(k));
                s.push_str(" is missing");
                s
            },
            GgufError::WrongType { key, wanted, found } => {
                let mut s = "metadata key ".to_owned();
                s.push_str(&text::quote(key));
                s.push_str(" is ");
                s.push_str(found);
                s.push_str(", wanted ");
                s.push_str(wanted);
                s
            },
            GgufError::InconsistentConfig(m) => {
                let mut s = "inconsistent model config: ".to_owned();
                s.push_str(m);
                s
            },
        }
    }
}

} // verus!
