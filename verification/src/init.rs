//! The one-time initialization guard: process-wide diagnostic state is set
//! up once, before any other operation, and repeated initialization
//! requests are harmless no-ops.

use vstd::prelude::*;

verus! {

/// Tracks whether the process-wide setup has run.
#[derive(Clone, Copy, PartialEq, Eq, Structural, Debug)]
pub struct InitGuard {
    pub initialized: bool,
}

impl InitGuard {
    /// A fresh guard: nothing initialized yet.
    pub fn new() -> (g: InitGuard)
        ensures
            !g.initialized,
    {
        InitGuard { initialized: false }
    }

    /// Marks initialization done and says whether this request was the
    /// first — only the first should perform the process-wide setup.
    pub fn begin_init(&mut self) -> (first: bool)
        ensures
            final(self).initialized,
            first == !old(self).initialized,
    {
        let first = !self.initialized;
        self.initialized = true;
        first
    }
}

} // verus!
