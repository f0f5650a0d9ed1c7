//! The whole-number bookkeeping of sample-rate conversion: how long the converted signal is, and
//! how much of the converter's output is start-up delay.
use vstd::prelude::*;

verus! {

/// Input frames per conversion chunk.
pub const CHUNK_FRAMES: usize = 1024;

/// `round(frames * rate_out / rate_in)` with halves rounded up, the exact length of the
/// converted signal.
pub open spec fn converted_len(frames: nat, rate_in: nat, rate_out: nat) -> nat {
    (frames * rate_out + rate_in / 2) / rate_in
}

/// The length the converted signal is trimmed to: [`converted_len`], or `usize::MAX` when it
/// does not fit.
pub fn expected_frames(frames: usize, rate_in: u32, rate_out: u32) -> (n: usize)
    requires
        rate_in > 0,
    ensures
        n == if converted_len(frames as nat, rate_in as nat, rate_out as nat) <= usize::MAX {
            converted_len(frames as nat, rate_in as nat, rate_out as nat)
        } else {
            usize::MAX as nat
        },
{
    let f: u128 = frames as u128;
    let out: u128 = rate_out as u128;
    let inn: u128 = rate_in as u128;
    assert(f * out <= 0xffff_ffff_ffff_ffffu128 * 0xffff_ffffu128) by (nonlinear_arith)
        requires
            f <= 0xffff_ffff_ffff_ffffu128,
            out <= 0xffff_ffffu128,
    ;
    let total: u128 = (f * out + inn / 2) / inn;
    if total <= usize::MAX as u128 {
        total as usize
    } else {
        usize::MAX
    }
}

/// Start-up delay still to drop from the converter's output.
#[derive(Debug, Clone, Copy, PartialEq, Eq, Structural)]
pub struct Delay {
    /// Output frames still to drop.
    pub left: usize,
}

/// Of `produced` new output frames, the ones dropped while `left` frames of delay remain: all of
/// them, or the delay left if that is fewer.
pub open spec fn dropped(left: nat, produced: nat) -> nat {
    if left < produced {
        left
    } else {
        produced
    }
}

impl Delay {
    /// Of `produced` new output frames, how many to drop; they come off the delay still left.
    pub fn skip(&mut self, produced: usize) -> (n: usize)
        ensures
            n == dropped(old(self).left as nat, produced as nat),
            final(self).left == old(self).left - n,
    {
        let n = if self.left < produced { self.left } else { produced };
        self.left = self.left - n;
        n
    }
}

/// However the output arrives in pieces, exactly the delay is dropped in all: what is dropped
/// from two pieces is what one piece of their total would drop.
pub proof fn the_delay_is_dropped_once(left: nat, p1: nat, p2: nat)
    ensures
        dropped(left, p1) + dropped((left - dropped(left, p1)) as nat, p2) == dropped(left, p1 + p2),
{
}

} // verus!
