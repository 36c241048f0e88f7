//! The cancellation signal that runs through the three frontends: a
//! shared flag that signal handlers set and long handlers poll.
use std::sync::atomic::{AtomicBool, Ordering};
use std::sync::Arc;
use vstd::prelude::*;

verus! {

/// A cloneable cancellation context.  Its flag is shared by every clone
/// and by the handle [`Ctx::raw`] gives out; any holder may set it at any
/// time, so what a read of it gives is not known in advance.
#[derive(Debug)]
pub struct Ctx {
    cancelled: Arc<AtomicBool>,
}

impl Ctx {
    /// The shared flag of this context.
    pub closed spec fn flag(&self) -> Arc<AtomicBool> {
        self.cancelled
    }

    /// A new context that is not cancelled.  The flag lives in an atomic
    /// cell whose contents the verifier does not model, so the contract
    /// leaves its value unsaid.
    pub fn new() -> (c: Ctx) {
        Ctx { cancelled: Arc::new(AtomicBool::new(false)) }
    }

    /// Whether cancellation was signalled (an interrupt, a termination
    /// request or an explicit [`Ctx::cancel`]).  Any holder of the flag may
    /// set it at any time, so nothing is promised of what a read gives.
    pub fn cancelled(&self) -> bool {
        self.cancelled.load(Ordering::Relaxed)
    }

    /// Signals cancellation (idempotent).
    pub fn cancel(&self) {
        self.cancelled.store(true, Ordering::Relaxed);
    }

    /// The underlying shared flag, for signal threads.
    pub fn raw(&self) -> (r: Arc<AtomicBool>)
        ensures
            r == self.flag(),
    {
        Arc::clone(&self.cancelled)
    }
}

impl Clone for Ctx {
    /// A context that shares this one's flag.
    fn clone(&self) -> (c: Ctx)
        ensures
            c.flag() == self.flag(),
    {
        Ctx { cancelled: Arc::clone(&self.cancelled) }
    }
}

impl Default for Ctx {
    fn default() -> (c: Ctx) {
        Ctx::new()
    }
}

} // verus!
