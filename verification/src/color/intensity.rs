//! The kinds of curve from level to brightness.

use vstd::prelude::*;

verus! {

/// How brightness follows level between the threshold and the clamp.
#[derive(Clone, Copy, Debug, PartialEq, Eq, Structural)]
pub enum CurveKind {
    Linear,
    EaseIn,
    EaseOut,
    EaseInOut,
    /// The only kind with control points of its own.
    Bezier,
}

impl Default for CurveKind {
    fn default() -> (kind: Self)
        ensures
            kind == CurveKind::Linear,
    {
        CurveKind::Linear
    }
}

} // verus!
