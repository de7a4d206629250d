//! The `ggml_type` enum and its block geometry.
//!
//! Every quantised format is a *block* format: `block_elems` logical values are
//! stored in `block_bytes` bytes, and a tensor is a dense array of such blocks in
//! row-major element order.
use super::error::GgufError;
use vstd::prelude::*;

verus! {

/// The k-quant super-block size.
pub const QK_K: usize = 256;

#[allow(non_camel_case_types)]
#[derive(Debug, Clone, Copy, PartialEq, Eq, Hash, PartialOrd, Ord, Structural)]
pub enum GgmlType {
    F32,
    F16,
    Q4_0,
    Q4_1,
    Q5_0,
    Q5_1,
    Q8_0,
    Q8_1,
    Q2_K,
    Q3_K,
    Q4_K,
    Q5_K,
    Q6_K,
    Q8_K,
    IQ2_XXS,
    IQ2_XS,
    IQ3_XXS,
    IQ1_S,
    IQ4_NL,
    IQ3_S,
    IQ2_S,
    IQ4_XS,
    I8,
    I16,
    I32,
    I64,
    F64,
    IQ1_M,
    BF16,
    TQ1_0,
    TQ2_0,
}

impl GgmlType {
    /// The tag that stands for this type in a file.
    pub open spec fn tag(self) -> u32 {
        match self {
            GgmlType::F32 => 0,
            GgmlType::F16 => 1,
            GgmlType::Q4_0 => 2,
            GgmlType::Q4_1 => 3,
            GgmlType::Q5_0 => 6,
            GgmlType::Q5_1 => 7,
            GgmlType::Q8_0 => 8,
            GgmlType::Q8_1 => 9,
            GgmlType::Q2_K => 10,
            GgmlType::Q3_K => 11,
            GgmlType::Q4_K => 12,
            GgmlType::Q5_K => 13,
            GgmlType::Q6_K => 14,
            GgmlType::Q8_K => 15,
            GgmlType::IQ2_XXS => 16,
            GgmlType::IQ2_XS => 17,
            GgmlType::IQ3_XXS => 18,
            GgmlType::IQ1_S => 19,
            GgmlType::IQ4_NL => 20,
            GgmlType::IQ3_S => 21,
            GgmlType::IQ2_S => 22,
            GgmlType::IQ4_XS => 23,
            GgmlType::I8 => 24,
            GgmlType::I16 => 25,
            GgmlType::I32 => 26,
            GgmlType::I64 => 27,
            GgmlType::F64 => 28,
            GgmlType::IQ1_M => 29,
            GgmlType::BF16 => 30,
            GgmlType::TQ1_0 => 34,
            GgmlType::TQ2_0 => 35,
        }
    }

    /// Whether a tag stands for any type.
    pub open spec fn known_tag(v: u32) -> bool {
        v <= 3 || 6 <= v <= 30 || v == 34 || v == 35
    }

    /// The type that a file's tag stands for.  Tags 4, 5 and 31 to 33 belonged to
    /// formats that were withdrawn, and are refused like any other unknown tag.
    pub fn from_u32(v: u32) -> (r: Result<Self, GgufError>)
        ensures
            r is Ok <==> Self::known_tag(v),
            r matches Ok(t) ==> t.tag() == v,
            r matches Err(e) ==> e == GgufError::UnknownGgmlType(v),
    {
        Ok(
            match v {
                0 => GgmlType::F32,
                1 => GgmlType::F16,
                2 => GgmlType::Q4_0,
                3 => GgmlType::Q4_1,
                6 => GgmlType::Q5_0,
                7 => GgmlType::Q5_1,
                8 => GgmlType::Q8_0,
                9 => GgmlType::Q8_1,
                10 => GgmlType::Q2_K,
                11 => GgmlType::Q3_K,
                12 => GgmlType::Q4_K,
                13 => GgmlType::Q5_K,
                14 => GgmlType::Q6_K,
                15 => GgmlType::Q8_K,
                16 => GgmlType::IQ2_XXS,
                17 => GgmlType::IQ2_XS,
                18 => GgmlType::IQ3_XXS,
                19 => GgmlType::IQ1_S,
                20 => GgmlType::IQ4_NL,
                21 => GgmlType::IQ3_S,
                22 => GgmlType::IQ2_S,
                23 => GgmlType::IQ4_XS,
                24 => GgmlType::I8,
                25 => GgmlType::I16,
                26 => GgmlType::I32,
                27 => GgmlType::I64,
                28 => GgmlType::F64,
                29 => GgmlType::IQ1_M,
                30 => GgmlType::BF16,
                34 => GgmlType::TQ1_0,
                35 => GgmlType::TQ2_0,
                other => return Err(GgufError::UnknownGgmlType(other)),
            },
        )
    }

    /// The tag that stands for this type in a file.
    pub fn to_tag(self) -> (r: u32)
        ensures
            r == self.tag(),
    {
        match self {
            GgmlType::F32 => 0,
            GgmlType::F16 => 1,
            GgmlType::Q4_0 => 2,
            GgmlType::Q4_1 => 3,
            GgmlType::Q5_0 => 6,
            GgmlType::Q5_1 => 7,
            GgmlType::Q8_0 => 8,
            GgmlType::Q8_1 => 9,
            GgmlType::Q2_K => 10,
            GgmlType::Q3_K => 11,
            GgmlType::Q4_K => 12,
            GgmlType::Q5_K => 13,
            GgmlType::Q6_K => 14,
            GgmlType::Q8_K => 15,
            GgmlType::IQ2_XXS => 16,
            GgmlType::IQ2_XS => 17,
            GgmlType::IQ3_XXS => 18,
            GgmlType::IQ1_S => 19,
            GgmlType::IQ4_NL => 20,
            GgmlType::IQ3_S => 21,
            GgmlType::IQ2_S => 22,
            GgmlType::IQ4_XS => 23,
            GgmlType::I8 => 24,
            GgmlType::I16 => 25,
            GgmlType::I32 => 26,
            GgmlType::I64 => 27,
            GgmlType::F64 => 28,
            GgmlType::IQ1_M => 29,
            GgmlType::BF16 => 30,
            GgmlType::TQ1_0 => 34,
            GgmlType::TQ2_0 => 35,
        }
    }

    /// Number of logical elements per stored block.
    pub open spec fn spec_block_elems(self) -> usize {
        match self {
            GgmlType::F32
            | GgmlType::F16
            | GgmlType::BF16
            | GgmlType::F64
            | GgmlType::I8
            | GgmlType::I16
            | GgmlType::I32
            | GgmlType::I64 => 1,
            GgmlType::Q4_0
            | GgmlType::Q4_1
            | GgmlType::Q5_0
            | GgmlType::Q5_1
            | GgmlType::Q8_0
            | GgmlType::Q8_1
            | GgmlType::IQ4_NL => 32,
            _ => QK_K,
        }
    }

    /// Number of logical elements per stored block.
    #[verifier::when_used_as_spec(spec_block_elems)]
    pub fn block_elems(self) -> (r: usize)
        ensures
            r == self.block_elems(),
    {
        match self {
            GgmlType::F32
            | GgmlType::F16
            | GgmlType::BF16
            | GgmlType::F64
            | GgmlType::I8
            | GgmlType::I16
            | GgmlType::I32
            | GgmlType::I64 => 1,
            GgmlType::Q4_0
            | GgmlType::Q4_1
            | GgmlType::Q5_0
            | GgmlType::Q5_1
            | GgmlType::Q8_0
            | GgmlType::Q8_1
            | GgmlType::IQ4_NL => 32,
            _ => QK_K,
        }
    }

    /// Bytes occupied by one block on disk.
    pub open spec fn spec_block_bytes(self) -> usize {
        match self {
            GgmlType::F32 => 4,
            GgmlType::F16 => 2,
            GgmlType::Q4_0 => 18,
            GgmlType::Q4_1 => 20,
            GgmlType::Q5_0 => 22,
            GgmlType::Q5_1 => 24,
            GgmlType::Q8_0 => 34,
            GgmlType::Q8_1 => 36,
            GgmlType::Q2_K => 84,
            GgmlType::Q3_K => 110,
            GgmlType::Q4_K => 144,
            GgmlType::Q5_K => 176,
            GgmlType::Q6_K => 210,
            GgmlType::Q8_K => 292,
            GgmlType::IQ2_XXS => 66,
            GgmlType::IQ2_XS => 74,
            GgmlType::IQ3_XXS => 98,
            GgmlType::IQ1_S => 50,
            GgmlType::IQ4_NL => 18,
            GgmlType::IQ3_S => 110,
            GgmlType::IQ2_S => 82,
            GgmlType::IQ4_XS => 136,
            GgmlType::I8 => 1,
            GgmlType::I16 => 2,
            GgmlType::I32 => 4,
            GgmlType::I64 => 8,
            GgmlType::F64 => 8,
            GgmlType::IQ1_M => 56,
            GgmlType::BF16 => 2,
            GgmlType::TQ1_0 => 54,
            GgmlType::TQ2_0 => 66,
        }
    }

    /// Bytes occupied by one block on disk.
    #[verifier::when_used_as_spec(spec_block_bytes)]
    pub fn block_bytes(self) -> (r: usize)
        ensures
            r == self.block_bytes(),
    {
        match self {
            GgmlType::F32 => 4,
            GgmlType::F16 => 2,
            // { f16 d; u8 qs[16] }
            GgmlType::Q4_0 => 18,
            // { f16 d; f16 m; u8 qs[16] }
            GgmlType::Q4_1 => 20,
            // { f16 d; u8 qh[4]; u8 qs[16] }
            GgmlType::Q5_0 => 22,
            // { f16 d; f16 m; u8 qh[4]; u8 qs[16] }
            GgmlType::Q5_1 => 24,
            // { f16 d; i8 qs[32] }
            GgmlType::Q8_0 => 34,
            // { f32 d; f32 s; i8 qs[32] }
            GgmlType::Q8_1 => 36,
            // { u8 scales[16]; u8 qs[64]; f16 d; f16 dmin }
            GgmlType::Q2_K => 84,
            // { u8 hmask[32]; u8 qs[64]; u8 scales[12]; f16 d }
            GgmlType::Q3_K => 110,
            // { f16 d; f16 dmin; u8 scales[12]; u8 qs[128] }
            GgmlType::Q4_K => 144,
            // { f16 d; f16 dmin; u8 scales[12]; u8 qh[32]; u8 qs[128] }
            GgmlType::Q5_K => 176,
            // { u8 ql[128]; u8 qh[64]; i8 scales[16]; f16 d }
            GgmlType::Q6_K => 210,
            // { f32 d; i8 qs[256]; i16 bsums[16] }
            GgmlType::Q8_K => 292,
            // { f16 d; u16 qs[32] }
            GgmlType::IQ2_XXS => 66,
            // { f16 d; u16 qs[32]; u8 scales[8] }
            GgmlType::IQ2_XS => 74,
            // { f16 d; u8 qs[96] }
            GgmlType::IQ3_XXS => 98,
            // { f16 d; u8 qs[32]; u16 qh[8] }
            GgmlType::IQ1_S => 50,
            // { f16 d; u8 qs[16] }
            GgmlType::IQ4_NL => 18,
            // { f16 d; u8 qs[64]; u8 qh[8]; u8 signs[32]; u8 scales[4] }
            GgmlType::IQ3_S => 110,
            // { f16 d; u8 qs[64]; u8 qh[8]; u8 scales[8] }
            GgmlType::IQ2_S => 82,
            // { f16 d; u16 scales_h; u8 scales_l[4]; u8 qs[128] }
            GgmlType::IQ4_XS => 136,
            GgmlType::I8 => 1,
            GgmlType::I16 => 2,
            GgmlType::I32 => 4,
            GgmlType::I64 => 8,
            GgmlType::F64 => 8,
            // { u8 qs[32]; u8 qh[16]; u8 scales[8] }
            GgmlType::IQ1_M => 56,
            GgmlType::BF16 => 2,
            // { u8 qs[48]; u8 qh[4]; f16 d }
            GgmlType::TQ1_0 => 54,
            // { u8 qs[64]; f16 d }
            GgmlType::TQ2_0 => 66,
        }
    }

    /// The name of the type as it appears in logs.
    pub open spec fn spec_name(self) -> &'static str {
        match self {
            GgmlType::F32 => "f32",
            GgmlType::F16 => "f16",
            GgmlType::Q4_0 => "q4_0",
            GgmlType::Q4_1 => "q4_1",
            GgmlType::Q5_0 => "q5_0",
            GgmlType::Q5_1 => "q5_1",
            GgmlType::Q8_0 => "q8_0",
            GgmlType::Q8_1 => "q8_1",
            GgmlType::Q2_K => "q2_K",
            GgmlType::Q3_K => "q3_K",
            GgmlType::Q4_K => "q4_K",
            GgmlType::Q5_K => "q5_K",
            GgmlType::Q6_K => "q6_K",
            GgmlType::Q8_K => "q8_K",
            GgmlType::IQ2_XXS => "iq2_xxs",
            GgmlType::IQ2_XS => "iq2_xs",
            GgmlType::IQ3_XXS => "iq3_xxs",
            GgmlType::IQ1_S => "iq1_s",
            GgmlType::IQ4_NL => "iq4_nl",
            GgmlType::IQ3_S => "iq3_s",
            GgmlType::IQ2_S => "iq2_s",
            GgmlType::IQ4_XS => "iq4_xs",
            GgmlType::I8 => "i8",
            GgmlType::I16 => "i16",
            GgmlType::I32 => "i32",
            GgmlType::I64 => "i64",
            GgmlType::F64 => "f64",
            GgmlType::IQ1_M => "iq1_m",
            GgmlType::BF16 => "bf16",
            GgmlType::TQ1_0 => "tq1_0",
            GgmlType::TQ2_0 => "tq2_0",
        }
    }

    /// The name of the type as it appears in logs.
    #[verifier::when_used_as_spec(spec_name)]
    pub fn name(self) -> (r: &'static str)
        ensures
            r == self.name(),
    {
        match self {
            GgmlType::F32 => "f32",
            GgmlType::F16 => "f16",
            GgmlType::Q4_0 => "q4_0",
            GgmlType::Q4_1 => "q4_1",
            GgmlType::Q5_0 => "q5_0",
            GgmlType::Q5_1 => "q5_1",
            GgmlType::Q8_0 => "q8_0",
            GgmlType::Q8_1 => "q8_1",
            GgmlType::Q2_K => "q2_K",
            GgmlType::Q3_K => "q3_K",
            GgmlType::Q4_K => "q4_K",
            GgmlType::Q5_K => "q5_K",
            GgmlType::Q6_K => "q6_K",
            GgmlType::Q8_K => "q8_K",
            GgmlType::IQ2_XXS => "iq2_xxs",
            GgmlType::IQ2_XS => "iq2_xs",
            GgmlType::IQ3_XXS => "iq3_xxs",
            GgmlType::IQ1_S => "iq1_s",
            GgmlType::IQ4_NL => "iq4_nl",
            GgmlType::IQ3_S => "iq3_s",
            GgmlType::IQ2_S => "iq2_s",
            GgmlType::IQ4_XS => "iq4_xs",
            GgmlType::I8 => "i8",
            GgmlType::I16 => "i16",
            GgmlType::I32 => "i32",
            GgmlType::I64 => "i64",
            GgmlType::F64 => "f64",
            GgmlType::IQ1_M => "iq1_m",
            GgmlType::BF16 => "bf16",
            GgmlType::TQ1_0 => "tq1_0",
            GgmlType::TQ2_0 => "tq2_0",
        }
    }

    /// True for everything that is not a plain float or integer array.
    pub fn is_quantized(self) -> (r: bool)
        ensures
            r == (self.block_elems() > 1),
    {
        self.block_elems() > 1
    }

    /// Bytes needed to store `n_elements` of this type: a whole number of blocks,
    /// in a size that a `u64` can hold.
    pub open spec fn spec_bytes_for(self, n_elements: nat) -> Option<nat> {
        let size = n_elements / (self.block_elems() as nat) * (self.block_bytes() as nat);
        if n_elements % (self.block_elems() as nat) == 0 && size <= u64::MAX {
            Some(size)
        } else {
            None
        }
    }

    /// Bytes needed to store `n_elements` of this type, or `None` on overflow or
    /// if `n_elements` is not a whole number of blocks.
    pub fn bytes_for(self, n_elements: u64) -> (r: Option<u64>)
        ensures
            match r {
                Some(n) => self.spec_bytes_for(n_elements as nat) == Some(n as nat),
                None => self.spec_bytes_for(n_elements as nat) is None,
            },
    {
        let be: u64 = self.block_elems() as u64;
        if n_elements % be != 0 {
            return None;
        }
        (n_elements / be).checked_mul(self.block_bytes() as u64)
    }
}

} // verus!
