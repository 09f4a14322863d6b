//! An exact complex-number algebra over two interchangeable representations
//! (rectangular and polar) and a convolution engine for sampled signals.
//!
//! Samples and component values are exact integers, so every arithmetic
//! result is pinned down precisely by the contracts: multiplication and
//! division of complex values in either representation, and the convolution
//! of a signal with an impulse response.
use vstd::prelude::*;

pub mod bin;
pub mod convolution;
pub mod polar;
pub mod rectangular;

verus! {

/// A single amplitude of a discretely sampled signal.
pub type Sample = i64;

} // verus!
