//! The stop request shared between the host and a running flow: the host
//! sets it, and the flows check it between chunks and between rounds.
use vstd::prelude::*;
use std::sync::atomic::AtomicBool;
use std::sync::atomic::Ordering;

verus! {

/// A flag that asks running flows to stop. Other threads may set or clear it
/// at any moment, so nothing is promised about what a read returns.
#[derive(Debug)]
pub struct CancelSignal {
    flag: AtomicBool,
}

impl CancelSignal {
    /// A signal that is not set.
    pub fn new() -> (res: Self) {
        CancelSignal { flag: AtomicBool::new(false) }
    }
}

/// Asks running flows to stop.
pub fn request_cancel(signal: &CancelSignal) {
    signal.flag.store(true, Ordering::SeqCst);
}

/// Withdraws a stop request; every flow does this when it starts.
pub fn clear_cancel(signal: &CancelSignal) {
    signal.flag.store(false, Ordering::SeqCst);
}

/// Whether a stop has been requested.
pub fn is_cancelled(signal: &CancelSignal) -> (res: bool) {
    signal.flag.load(Ordering::SeqCst)
}

} // verus!
