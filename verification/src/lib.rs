//! A small language-model inference engine.
#![allow(unused_imports)]

pub mod bench;
pub mod bits;
pub mod cli;
pub mod engine;
pub mod gguf;
pub mod model;
pub mod ops;
pub mod quant;
pub mod sample;
pub mod sort;
pub mod tensor;
pub mod text;
pub mod tokenizer;

pub use gguf::{GgmlType, Gguf, GgufError, ModelConfig};
pub use quant::{f16_to_f32, f32_to_f16, QuantError};
pub use tensor::{QuantMatrix, Shape, TensorView, TensorViewMut};
