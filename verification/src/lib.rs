//! Histogram bucketing: which bucket a sample belongs to, named by the
//! bucket's minimum.

pub mod binary64;
pub mod functional;
pub mod strategy;

pub use functional::Functional;
pub use strategy::Bucketing;
