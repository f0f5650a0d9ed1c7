//! The sample rate and channel count of a buffer or stream.
use vstd::prelude::*;

verus! {

/// Sample rate and channel count of a buffer or stream.
#[derive(Debug, Clone, Copy, PartialEq, Eq, Hash, Structural)]
pub struct AudioSpec {
    /// Frames per second.
    pub sample_rate: u32,
    /// Interleaved channels per frame.
    pub channels: u16,
}

impl AudioSpec {
    /// A new spec.
    pub fn new(sample_rate: u32, channels: u16) -> (s: Self)
        ensures
            s.sample_rate == sample_rate,
            s.channels == channels,
    {
        AudioSpec { sample_rate, channels }
    }
}

} // verus!
