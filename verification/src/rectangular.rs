use vstd::prelude::*;

use crate::Sample;

verus! {

/// A complex number given by its real and imaginary components, named for
/// the unit-circle cosine and sine values they usually come from.
#[derive(Debug, PartialEq, Copy, Clone)]
pub struct Rectangular {
    pub cosine: Sample,
    pub sine: Sample,
}

} // verus!
