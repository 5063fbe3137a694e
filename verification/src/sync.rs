//! Lock state.

use vstd::prelude::*;

verus! {

/// State of a spinlock: held or free.
#[derive(Debug, Clone, Copy)]
pub struct SpinLock {
    held: bool,
}

impl SpinLock {
    /// Some CPU holds the lock.
    pub closed spec fn locked(self) -> bool {
        self.held
    }

    /// A free lock.
    pub fn new() -> (l: Self)
        ensures
            !l.locked(),
    {
        SpinLock { held: false }
    }

    /// One atomic exchange of an acquire attempt: the lock is held afterwards.
    /// Returns `true` if it was free, so that the caller has got it.
    pub fn try_lock(&mut self) -> (r: bool)
        ensures
            r == !old(self).locked(),
            final(self).locked(),
    {
        let was: bool = self.held;
        self.held = true;
        !was
    }

    /// Acquire the lock, which is free.
    pub fn lock(&mut self)
        requires
            !old(self).locked(),
        ensures
            final(self).locked(),
    {
        self.held = true;
    }

    /// Release the lock.
    pub fn unlock(&mut self)
        ensures
            !final(self).locked(),
    {
        self.held = false;
    }

    /// True if any CPU holds the lock.
    pub fn is_locked(&self) -> (r: bool)
        ensures
            r == self.locked(),
    {
        self.held
    }
}

} // verus!
