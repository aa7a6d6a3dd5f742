//! A single-shot cancellation token.
//!
//! Each search is handed its own token, so a stop request aimed at one
//! search can never leak into another. The token has exactly two
//! operations: request a stop, and observe-and-clear. Observing a set
//! token resets it, so one stop request cancels at most one traversal and
//! the token must be re-armed for each new stop request.

use vstd::prelude::*;

verus! {

/// Shared flag asking an in-progress traversal to stop.
pub struct CancelSignal {
    requested: bool,
}

impl CancelSignal {
    /// Whether a stop has been requested and not yet observed.
    pub closed spec fn is_requested(&self) -> bool {
        self.requested
    }

    /// A fresh token: no stop is pending, whatever was asked of any other
    /// token before.
    pub fn new() -> (s: CancelSignal)
        ensures
            !s.is_requested(),
    {
        CancelSignal { requested: false }
    }

    /// Ask the traversal holding this token to stop.
    pub fn request(&mut self)
        ensures
            final(self).is_requested(),
    {
        self.requested = true;
    }

    /// Read the flag and clear it in the same step: a set flag is observed
    /// by exactly one reader, and the token reads false immediately after.
    pub fn observe_and_clear(&mut self) -> (r: bool)
        ensures
            r == old(self).is_requested(),
            !final(self).is_requested(),
    {
        let r = self.requested;
        self.requested = false;
        r
    }
}

} // verus!
