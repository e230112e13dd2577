//! The kinds of filter a parametric equaliser is made of.

use vstd::prelude::*;

verus! {

/// What shape an equaliser band has.
#[derive(Clone, Copy, Debug, PartialEq, Eq, Structural)]
pub enum EqType {
    /// Peaking bell.
    Peak,
    LowShelf,
    HighShelf,
    LowPass,
    HighPass,
}

impl Default for EqType {
    fn default() -> (kind: Self)
        ensures
            kind == EqType::Peak,
    {
        EqType::Peak
    }
}

impl EqType {
    /// Whether a band of this kind has a gain. The pass filters cut rather than
    /// gain, so theirs is ignored.
    pub fn has_gain(self) -> (yes: bool)
        ensures
            yes == (self != EqType::LowPass && self != EqType::HighPass),
    {
        match self {
            EqType::Peak | EqType::LowShelf | EqType::HighShelf => true,
            EqType::LowPass | EqType::HighPass => false,
        }
    }
}

} // verus!
