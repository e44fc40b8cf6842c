//! A streaming digital-signal-processing toolkit over fixed-point samples.
//!
//! Samples are plain `i64` values; fractional quantities (window
//! coefficients, filter gains) are carried in Q16 fixed point, with
//! [`SCALE`] standing for 1.0.  Every processing stage states exactly,
//! in integer arithmetic, what it writes into its output buffer.

use vstd::prelude::*;

verus! {

/// Fixed-point unit: coefficients are stored as multiples of 1/SCALE.
pub const SCALE: i64 = 65536;

/// Largest sample magnitude the spectral and correlation stages accept;
/// keeps every intermediate product inside `i128`.
pub const SAMPLE_LIMIT: i64 = 1073741824;

} // verus!

pub mod complex;
pub mod correlation;
pub mod fft;
pub mod filter;
pub mod fixed;
pub mod freq_shift;
pub mod generator;
pub mod hilbert;
pub mod node;
pub mod signal;
pub mod signalops;
pub mod spatial;
pub mod spectrum;
pub mod time;
pub mod vectors;
pub mod window;
