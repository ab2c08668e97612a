//! The handle that stops a running wake-word engine.

use std::sync::atomic::Ordering;
use std::sync::atomic::AtomicBool;
use std::sync::Arc;
use vstd::prelude::*;

verus! {

/// Handle of a running wake-word engine: raising its flag asks the engine's
/// thread to finish.
pub struct WakeWordHandle {
    stop: Arc<AtomicBool>,
}

impl WakeWordHandle {
    /// A handle on the engine that watches `stop`.
    pub fn new(stop: Arc<AtomicBool>) -> (res: WakeWordHandle)
        ensures
            res.flag() == stop,
    {
        WakeWordHandle { stop }
    }

    /// The flag the engine watches.
    pub closed spec fn flag(&self) -> Arc<AtomicBool> {
        self.stop
    }

    /// Asks the engine to stop (stores `true` in its flag).
    pub fn stop(&self) {
        self.stop.store(true, Ordering::SeqCst);
    }
}

/// Switching the wake word on or off (or to another threshold): the engine
/// held in `slot`, if any, is always stopped and taken out; the result says
/// whether a new engine is to be started, which is exactly when `enabled`.
pub fn switch_wake_word(slot: &mut Option<WakeWordHandle>, enabled: bool) -> (start: bool)
    ensures
        *final(slot) is None,
        start == enabled,
{
    if let Some(handle) = slot.take() {
        handle.stop();
    }
    enabled
}

} // verus!
