//! Capture sources: the file formats that samples are read from.
use vstd::prelude::*;

pub mod logic;
pub mod logic2;
pub mod vcd;

verus! {

/// One snapshot of up to 64 digital channels: bit `i` is the level of channel `i`.
#[derive(Debug, Clone, Copy, PartialEq, Eq, Structural)]
pub struct Sample(pub u64);

impl Sample {
    /// Whether every channel that `mask` selects is high.
    pub open spec fn spec_all_high(self, mask: u64) -> bool {
        self.0 & mask == mask
    }

    /// Tells whether every channel that `mask` selects is high.
    pub fn all_high(&self, mask: u64) -> (r: bool)
        ensures
            r == self.spec_all_high(mask),
    {
        self.0 & mask == mask
    }
}

impl View for Sample {
    type V = Sample;

    open spec fn view(&self) -> Sample {
        *self
    }
}

} // verus!
