//! GGUF v2/v3 container parsing.
pub mod config;
pub mod error;
pub mod ggml_type;
pub mod file;
pub mod laws;
pub mod parse;
pub mod reader;
pub mod refusing;
pub mod sizes;
pub mod value;
pub mod writing;

pub use config::ModelConfig;
pub use error::GgufError;
pub use file::{TensorInfo, DEFAULT_ALIGNMENT, GGML_MAX_DIMS};
pub use ggml_type::{GgmlType, QK_K};
pub use parse::Gguf;
pub use value::{Array, MetaType, Value};
