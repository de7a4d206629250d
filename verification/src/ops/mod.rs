//! The geometry of the forward pass's kernels.
pub mod matmul;
pub mod rope;

pub use matmul::{matmul_fused, matvec_fused};
pub use rope::{RopeKind, RopeTable, Rotation};
