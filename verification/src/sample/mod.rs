//! Turning logits into a token.
pub mod draws;
pub mod laws;
pub mod rng;
pub mod sampler;

pub use rng::Pcg32;
pub use sampler::{argmax, Sampler, SamplerConfig};
