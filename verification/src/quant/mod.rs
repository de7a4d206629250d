//! Quantised block formats.
pub mod blocks;
pub mod dequant;
pub mod exact;
pub mod half;
pub mod inspect;
pub mod k_quants;
pub mod packing;
pub mod vecdot;

pub use blocks::Scale;
pub use dequant::{
    dequant_block_q4_0, dequant_block_q4_k, dequant_block_q5_0, dequant_block_q6_k,
    dequant_block_q8_0, dequantize_block, dequantize_row, is_supported, quantize_block_q8_0,
    QuantError, Weight,
};
pub use half::{f16_to_f32, f32_to_f16, read_f16_le};
pub use inspect::{decompose_block, BlockDecomp};
pub use k_quants::{pack_scales_min_k4, scale_min_k4};
pub use vecdot::{
    row_dot, row_dot_q4_0, row_dot_q4_k, row_dot_q5_0, row_dot_q6_k, row_dot_q8_0,
    row_dot_unpacked, unpack_row, ActivationQ8, DotTerm, UnpackedRow, ACT_BLOCK,
};
