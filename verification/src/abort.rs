//! The flag by which a caller asks the worker to abort the batch it runs.
//!
//! The flag is shared between threads. Nothing can be said about its value
//! at any moment, so the operations carry no contract.
use std::sync::atomic::AtomicBool;
use std::sync::atomic::Ordering;
use std::sync::Arc;
use vstd::prelude::*;

verus! {

/// A flag that any thread can raise and that the worker takes down.
pub struct AbortFlag {
    flag: Arc<AtomicBool>,
}

impl AbortFlag {
    /// A new flag, not raised.
    pub fn new() -> AbortFlag {
        AbortFlag { flag: Arc::new(AtomicBool::new(false)) }
    }

    /// Another handle on the same flag.
    pub fn share(&self) -> (other: AbortFlag)
        ensures other.same_flag(self),
    { AbortFlag { flag: self.flag.clone() } }

    /// Raises the flag.
    pub fn raise(&self) {
        self.flag.store(true, Ordering::SeqCst);
    }

    /// Whether the flag is raised.
    pub fn is_raised(&self) -> bool {
        self.flag.load(Ordering::SeqCst)
    }

    /// Takes the flag down and says whether it was raised, in one step.
    pub fn take(&self) -> bool {
        self.flag.swap(false, Ordering::SeqCst)
    }

    /// The two handles are on one flag: what is raised or taken down
    /// through one is raised or taken down for the other.
    pub closed spec fn same_flag(&self, other: &AbortFlag) -> bool {
        self.flag == other.flag
    }
}

} // verus!
