//! How the beat model's work is cut into chunks, so progress can be reported per chunk.
use vstd::prelude::*;

verus! {

/// Samples per activation frame at the model's 22 050 Hz (50 fps).
pub const SAMPLES_PER_FRAME: usize = 441;

/// Step between beat-model chunks in activation frames: 1500-frame (30 s) chunks with 6 frames
/// discarded at each edge.
pub const CHUNK_STEP: usize = 1488;

/// Beat-model runs for `samples` of 22 050 Hz audio: one chunk start every [`CHUNK_STEP`]
/// frames of the `samples / 441 + 1` activation frames, at least one.
pub open spec fn chunks_for(samples: nat) -> nat {
    let frames = samples / 441 + 1;
    let chunks = (frames + 1487) / 1488;
    if chunks < 1 {
        1
    } else {
        chunks
    }
}

/// Beat-model runs the model makes for `samples` of 22 050 Hz audio.
pub fn expected_chunks(samples: usize) -> (n: usize)
    ensures
        n == chunks_for(samples as nat),
{
    let frames = samples / SAMPLES_PER_FRAME + 1;
    let chunks = (frames + (CHUNK_STEP - 1)) / CHUNK_STEP;
    if chunks < 1 {
        1
    } else {
        chunks
    }
}

/// Every started step of [`CHUNK_STEP`] activation frames is one more chunk: a chunk count `c`
/// covers at least `(c - 1) * 1488 + 1` and at most `c * 1488` frames.
pub proof fn chunks_cover_the_frames(samples: nat)
    ensures
        chunks_for(samples) >= 1,
        (chunks_for(samples) - 1) * 1488 < samples / 441 + 1 <= chunks_for(samples) * 1488,
{
    let frames = samples / 441 + 1;
    assert(frames >= 1);
    let c = (frames + 1487) / 1488;
    assert(c * 1488 <= frames + 1487 < c * 1488 + 1488) by (nonlinear_arith)
        requires c == (frames + 1487) / 1488, frames >= 1;
}

} // verus!
