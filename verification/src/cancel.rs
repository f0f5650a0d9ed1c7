//! Cooperative cancellation: one flag per batch, checked by every worker between decoded blocks
//! and before every beat-model chunk.
use vstd::prelude::*;

use std::sync::atomic::{AtomicBool, Ordering};
use std::sync::Arc;

verus! {

/// A cancel flag that clones share.
///
/// What a check reads depends on when another holder cancels, and the standard library's atomics
/// carry no model of their value here, so no contract says what a check returns; the contracts
/// say which flag is shared.
#[derive(Debug, Clone)]
pub struct CancelToken(Arc<AtomicBool>);

/// Another handle on the same allocation, by `Arc::clone`, which the standard library documents
/// as making "another pointer to the same allocation": the contract claims the handle is the
/// same shared flag.
#[verifier::external_body]
fn share(a: &Arc<AtomicBool>) -> (b: Arc<AtomicBool>)
    ensures
        b == *a,
{
    Arc::clone(a)
}

impl CancelToken {
    /// The flag this token and its clones share.
    pub closed spec fn shared(&self) -> Arc<AtomicBool> {
        self.0
    }

    /// A token that is not cancelled.
    pub fn new() -> (t: Self) {
        CancelToken(Arc::new(AtomicBool::new(false)))
    }

    /// Asks every holder to stop at its next check.
    pub fn cancel(&self) {
        self.0.store(true, Ordering::Relaxed);
    }

    /// Whether [`CancelToken::cancel`] was called.
    pub fn is_cancelled(&self) -> (r: bool) {
        self.0.load(Ordering::Relaxed)
    }

    /// The shared flag, for code below the engine that takes a plain `AtomicBool`.
    pub fn flag(&self) -> (f: Arc<AtomicBool>)
        ensures
            f == self.shared(),
    {
        share(&self.0)
    }
}

} // verus!
