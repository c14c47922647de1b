//! The process-wide shutdown flag, shared between the receiving thread,
//! the processing thread and the Ctrl-C handler.
use std::sync::atomic::AtomicBool;
use std::sync::atomic::Ordering;
use vstd::prelude::*;

verus! {

/// Reads the shutdown flag.
///
/// The flag is written by other threads (the Ctrl-C handler, or the
/// receiver when no device can be opened), so nothing can be promised of
/// the value that comes back: the result is whatever the flag holds at the
/// moment of a relaxed load.
pub fn terminated(flag: &AtomicBool) -> bool {
    flag.load(Ordering::Relaxed)
}

} // verus!
