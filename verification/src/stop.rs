//! The stop slot: a flag that another thread sets and the machine polls.

use std::sync::atomic::AtomicBool;
use std::sync::atomic::Ordering;
use std::sync::Arc;
use vstd::prelude::*;

verus! {

/// The write side of a machine's stop slot. It may be cloned and sent to
/// other threads; one call of [`StopSender::stop`] on any clone is enough.
///
/// In contracts a handle stands for its slot: a clone of a handle equals the
/// handle. What the slot holds at a given moment is no part of the handle:
/// other threads decide it.
pub struct StopSender {
    slot: Arc<AtomicBool>,
}

impl Clone for StopSender {
    /// Another handle on the same slot.
    fn clone(&self) -> (r: StopSender)
        ensures
            r == *self,
    {
        StopSender { slot: self.slot.clone() }
    }
}

impl StopSender {
    /// A handle on a fresh slot, which is not set. Nothing is stated of it:
    /// what a slot holds is no part of its handle.
    pub(crate) fn new() -> StopSender {
        StopSender { slot: Arc::new(AtomicBool::new(false)) }
    }

    /// Sets the slot. Every later poll observes it.
    pub fn stop(&self) {
        self.slot.store(true, Ordering::SeqCst);
    }

    /// Polls the slot without blocking. The result is what the threads that
    /// hold a handle have made of the slot by now, so nothing is stated of
    /// it; the machine's moves say what they do for either result.
    pub fn is_set(&self) -> bool {
        self.slot.load(Ordering::SeqCst)
    }
}

} // verus!
