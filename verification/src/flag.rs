//! A flag that any thread may raise once and every thread may read.
use std::sync::atomic::{AtomicBool, Ordering};
use vstd::prelude::*;

verus! {

/// A boolean that starts lowered and can be raised from any thread.
///
/// Other threads may raise it at any moment, so what a read returns is not
/// known in advance.
pub struct Flag {
    state: AtomicBool,
}

impl Flag {
    /// A lowered flag.
    pub fn new() -> Flag {
        Flag { state: AtomicBool::new(false) }
    }

    /// Whether the flag has been raised.
    pub fn triggered(&self) -> bool {
        self.state.load(Ordering::Relaxed)
    }

    /// Raises the flag.
    pub fn trigger(&self) {
        self.state.store(true, Ordering::Relaxed);
    }
}

} // verus!
