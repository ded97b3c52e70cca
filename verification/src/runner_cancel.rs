//! A cancellation flag that a runner's work checks between steps.

use vstd::prelude::*;
use std::sync::Arc;
use std::sync::atomic::{AtomicBool, Ordering};

verus! {

/// A request to stop, shared between the runner and whoever may cancel it. Another holder
/// may set the flag at any time, so nothing is known of a read of it in advance.
#[derive(Clone, Debug)]
pub struct RunnerCancellationV1 {
    local_cancelled: Arc<AtomicBool>,
}

impl RunnerCancellationV1 {
    pub fn new() -> (r: Self) {
        RunnerCancellationV1 { local_cancelled: Arc::new(AtomicBool::new(false)) }
    }

    /// Asks the work to stop.
    pub fn cancel(&self) {
        self.local_cancelled.store(true, Ordering::Release);
    }

    /// Whether cancellation was asked for.
    pub fn is_cancelled(&self) -> (r: bool) {
        if self.local_cancelled.load(Ordering::Acquire) {
            return true;
        }
        false
    }
}

} // verus!
