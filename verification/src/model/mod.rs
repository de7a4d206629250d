//! The transformer: weights, cache, and the order of the work.
pub mod kv;
pub mod lengths;
pub mod limits;
pub mod loading;
pub mod meaning;
pub mod plan;
pub mod records;
pub mod refusals;
pub mod runner;
pub mod trace;
pub mod weights;
pub mod workspace;

pub use kv::{KvCache, KvLayout, KvShape};
pub use plan::PREFILL_CHUNK;
pub use runner::Model;
pub use trace::Trace;
pub use weights::{LayerWeights, ModelWeights, WeightError};
pub use workspace::Workspace;
