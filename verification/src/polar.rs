use vstd::prelude::*;

use crate::Sample;

verus! {

/// A complex number given by its magnitude and its phase angle.
///
/// The phase is not normalised to any canonical range: repeated
/// multiplications let it grow without bound.
#[derive(Debug, PartialEq, Copy, Clone)]
pub struct Polar {
    pub magnitude: Sample,
    pub phase: Sample,
}

} // verus!
