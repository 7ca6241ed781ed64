use std::sync::atomic::{AtomicU64, Ordering};
use vstd::prelude::*;

verus! {

/// A counter held in a single 64-bit atomic cell.
#[derive(Debug)]
pub struct Counter {
    cell: AtomicU64,
}

impl Counter {
    /// Creates a counter that starts at 0.
    pub fn new() -> Self {
        Counter { cell: AtomicU64::new(0) }
    }

    /// Creates a counter that starts at `num`.
    pub fn with_init(num: u64) -> Self {
        Counter { cell: AtomicU64::new(num) }
    }

    /// Returns the counter's current value.
    pub fn get(&self) -> u64 {
        self.cell.load(Ordering::Relaxed)
    }

    /// Adds one to the counter and returns the value it held just before.
    pub fn incr(&self) -> u64 {
        self.cell.fetch_add(1, Ordering::Relaxed)
    }
}

} // verus!
