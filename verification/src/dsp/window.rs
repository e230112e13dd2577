//! Analysis windows.

use vstd::prelude::*;

verus! {

/// Window functions available to the analyser.
#[derive(Clone, Copy, Debug, PartialEq, Eq, Structural)]
pub enum WindowKind {
    /// Narrower main lobe. Cheaper on low-bin discard, worse at keeping
    /// neighbouring bars separate.
    Hann,
    /// Four-term Blackman-Harris. The default: bar-to-bar separation matters
    /// more than main-lobe width, because the tier ladder already buys back the
    /// lost resolution by using a larger transform.
    BlackmanHarris,
}

impl Default for WindowKind {
    fn default() -> (kind: Self)
        ensures
            kind == WindowKind::BlackmanHarris,
    {
        WindowKind::BlackmanHarris
    }
}

impl WindowKind {
    /// Bins at the bottom of the spectrum that the main lobe makes unusable:
    /// roughly half its width.
    pub open spec fn discarded(self) -> nat {
        match self {
            WindowKind::Hann => 2,
            WindowKind::BlackmanHarris => 4,
        }
    }

    /// Bins at the bottom of the spectrum rendered unusable by the window's main
    /// lobe smearing residual energy upward.
    pub fn discard_bins(self) -> (n: usize)
        ensures
            n == self.discarded(),
    {
        match self {
            WindowKind::Hann => 2,
            WindowKind::BlackmanHarris => 4,
        }
    }
}

} // verus!
