//! Cooperative cancellation.
use std::sync::atomic::{AtomicBool, Ordering};
use std::sync::Arc;
use vstd::prelude::*;

verus! {

/// Cooperative cancellation. Implementations must not block in this method.
pub trait Cancellation {
    /// Whether the flag can never be raised. Defaults to false: a flag
    /// raised from elsewhere may be seen at any check.
    closed spec fn never_cancels(&self) -> bool {
        false
    }

    fn is_cancelled(&self) -> (r: bool)
        ensures
            self.never_cancels() ==> !r,
    ;
}

/// A shareable cancellation flag; clones observe the same flag.
#[derive(Clone)]
pub struct CancellationToken {
    cancelled: Arc<AtomicBool>,
}

impl CancellationToken {
    pub fn new() -> Self {
        CancellationToken { cancelled: Arc::new(AtomicBool::new(false)) }
    }

    pub fn cancel(&self) {
        self.cancelled.store(true, Ordering::Release);
    }
}

impl Cancellation for CancellationToken {
    fn is_cancelled(&self) -> bool {
        self.cancelled.load(Ordering::Acquire)
    }
}

/// A run that is never cancelled.
pub struct NeverCancelled;

impl Cancellation for NeverCancelled {
    closed spec fn never_cancels(&self) -> bool {
        true
    }

    fn is_cancelled(&self) -> (r: bool)
        ensures
            !r,
    {
        false
    }
}

} // verus!
