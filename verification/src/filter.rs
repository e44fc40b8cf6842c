//! Basic implementations of common discrete filters.

pub mod biquad;
pub mod history;
pub mod leaky;
