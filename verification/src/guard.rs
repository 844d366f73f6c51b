//! Scoped reentrancy guard: a per-component held/not-held flag.
//!
//! A guarded operation acquires the guard on entry and releases it on every
//! exit path; entry while the guard is held fails immediately, leaving the
//! flag for the holder to clear.

use vstd::prelude::*;

verus! {

/// A single held/not-held flag owned by a component instance.
pub struct ReentrancyGuard {
    held: bool,
}

impl ReentrancyGuard {
    /// Whether the guard is currently held.
    pub closed spec fn is_held(self) -> bool {
        self.held
    }

    /// A fresh guard, not held.
    pub fn new() -> (g: ReentrancyGuard)
        ensures
            !g.is_held(),
    {
        ReentrancyGuard { held: false }
    }

    /// Acquire the guard. Fails (returning `false` and changing nothing
    /// observable) exactly when the guard is already held.
    pub fn try_acquire(&mut self) -> (ok: bool)
        ensures
            ok == !old(self).is_held(),
            final(self).is_held(),
    {
        if self.held {
            false
        } else {
            self.held = true;
            true
        }
    }

    /// Release the guard unconditionally.
    pub fn release(&mut self)
        ensures
            !final(self).is_held(),
    {
        self.held = false;
    }

    /// Read the flag.
    pub fn held(&self) -> (r: bool)
        ensures
            r == self.is_held(),
    {
        self.held
    }
}

} // verus!
