use std::sync::atomic::{AtomicU32, Ordering};
use vstd::prelude::*;

verus! {

/// The value that a low and a high 32-bit chunk stand for together.
pub open spec fn value_of(lo: u32, hi: u32) -> int {
    lo as int + hi as int * 0x1_0000_0000
}

/// The chunks after one unit is added to the low one, with the carry passed
/// to the high one when the low one rolls over; past the largest value the
/// count starts again from 0.
/// This is a model of what `Counter::incr` does to the cells when no other
/// call runs at the same time; nothing proves it of `incr` itself, whose
/// cells hold values that the contracts cannot name.
pub open spec fn incr_chunks(lo: u32, hi: u32) -> (u32, u32) {
    if lo < u32::MAX {
        ((lo + 1) as u32, hi)
    } else if hi < u32::MAX {
        (0, (hi + 1) as u32)
    } else {
        (0, 0)
    }
}

/// The low and high chunks of a value: its low 32 bits, and the bits
/// above them.
pub open spec fn chunks_of(num: u64) -> (u32, u32) {
    ((num & 0xFFFF_FFFF) as u32, (num >> 32) as u32)
}

/// Splits a value into its low and high 32-bit chunks.
pub fn split(num: u64) -> (r: (u32, u32))
    ensures
        r == chunks_of(num),
        value_of(r.0, r.1) == num,
{
    proof {
        lemma_split_join(num);
    }
    ((num & 0xFFFF_FFFF) as u32, (num >> 32) as u32)
}

/// Joins a low and a high 32-bit chunk into the value they stand for.
pub fn join(lo: u32, hi: u32) -> (r: u64)
    ensures
        r == value_of(lo, hi),
{
    let l = lo as u64;
    let h = hi as u64;
    assert((h << 32) | l == l + h * 0x1_0000_0000) by (bit_vector)
        requires
            l < 0x1_0000_0000,
            h < 0x1_0000_0000,
    ;
    (h << 32) | l
}

/// Decides one read of the counter: `first` and `second` are the two
/// readings of the low cell, taken before and after the high cell was read
/// as `hi`. The reading stands, and gives the joined value, only when the
/// low cell read the same both times.
pub fn snapshot(first: u32, hi: u32, second: u32) -> (r: Option<u64>)
    ensures
        r == (if first == second {
            Some(value_of(first, hi) as u64)
        } else {
            None
        }),
{
    if first == second {
        Some(join(first, hi))
    } else {
        None
    }
}

/// Decides the carry of one step of `Counter::incr`: `pre` is what a cell
/// held just before one unit was added to it. u32he next cell takes a carry
/// exactly when that cell rolled over, that is when it held the largest
/// value of its width.
pub fn carries(pre: u32) -> (r: bool)
    ensures
        r == (pre == u32::MAX),
{
    pre == u32::MAX
}

/// Joining the chunks of a value gives the value back.
pub proof fn lemma_split_join(num: u64)
    ensures
        value_of(chunks_of(num).0, chunks_of(num).1) == num,
{
    assert(num & 0xFFFF_FFFF < 0x1_0000_0000 && num >> 32 < 0x1_0000_0000) by (bit_vector);
    assert(num == (num & 0xFFFF_FFFF) + (num >> 32) * 0x1_0000_0000) by (bit_vector);
}

/// Adding one to the chunks, with the carry, adds one to the value they
/// stand for, modulo 2^64.
/// This is proved of the model only, not of `Counter::incr`.
pub proof fn lemma_incr_chunks(lo: u32, hi: u32)
    ensures
        value_of(incr_chunks(lo, hi).0, incr_chunks(lo, hi).1) == (value_of(lo, hi) + 1)
            % 0x1_0000_0000_0000_0000,
{
}

/// The chunks after `k` units are added one at a time.
/// This is a model of what `Counter::incr` does to the cells when no other
/// call runs at the same time; nothing proves it of `incr` itself, whose
/// cells hold values that the contracts cannot name.
pub open spec fn incr_chunks_times(lo: u32, hi: u32, k: nat) -> (u32, u32)
    decreases k,
{
    if k == 0 {
        (lo, hi)
    } else {
        let (l, h) = incr_chunks(lo, hi);
        incr_chunks_times(l, h, (k - 1) as nat)
    }
}

/// Adding `k` units one at a time, each with its carry, adds `k` to the
/// value, modulo 2^64: no unit is lost.
/// This is proved of the model only, not of `Counter::incr`.
pub proof fn lemma_incr_chunks_times(lo: u32, hi: u32, k: nat)
    ensures
        value_of(incr_chunks_times(lo, hi, k).0, incr_chunks_times(lo, hi, k).1) == (value_of(
            lo,
            hi,
        ) + k) % 0x1_0000_0000_0000_0000,
    decreases k,
{
    if k > 0 {
        let (l, h) = incr_chunks(lo, hi);
        lemma_incr_chunks(lo, hi);
        lemma_incr_chunks_times(l, h, (k - 1) as nat);
        vstd::arithmetic::div_mod::lemma_add_mod_noop(value_of(lo, hi) + 1, k - 1,
            0x1_0000_0000_0000_0000);
        vstd::arithmetic::div_mod::lemma_mod_twice(value_of(lo, hi) + 1, 0x1_0000_0000_0000_0000);
    }
}

/// A counter held in two 32-bit atomic cells: `lo` holds the low chunk,
/// `hi` the high one.
#[derive(Debug)]
pub struct Counter {
    lo: AtomicU32,
    hi: AtomicU32,
}

impl Counter {
    /// Creates a counter that starts at 0.
    pub fn new() -> Self {
        Counter { lo: AtomicU32::new(0), hi: AtomicU32::new(0) }
    }

    /// Creates a counter that starts at `num`, each cell holding its chunk.
    pub fn with_init(num: u64) -> Self {
        let (lo, hi) = split(num);
        Counter { lo: AtomicU32::new(lo), hi: AtomicU32::new(hi) }
    }

    /// Returns the counter's current value.
    ///
    /// Reads the low cell, then the high one, then the low cell again, and
    /// joins the chunks once both readings of the low cell agree; otherwise
    /// it tries again, at most `u64::MAX` times, after which it joins the
    /// chunks of the last attempt.
    pub fn get(&self) -> u64 {
        let mut tries: u64 = 0;
        loop
            decreases u64::MAX - tries,
        {
            let first = self.lo.load(Ordering::SeqCst);
            let hi = self.hi.load(Ordering::SeqCst);
            let second = self.lo.load(Ordering::SeqCst);
            match snapshot(first, hi, second) {
                Some(v) => {
                    return v;
                },
                None => {
                    if tries == u64::MAX {
                        return join(first, hi);
                    }
                },
            }
            tries = tries + 1;
        }
    }

    /// Adds one to the counter and returns the value that `get` read just
    /// before this call's own step.
    ///
    /// The low cell takes the unit; the high cell takes a carry only when
    /// the low one rolled over from its largest value.
    pub fn incr(&self) -> u64 {
        let prev = self.get();
        if carries(self.lo.fetch_add(1, Ordering::Release)) {
            self.hi.fetch_add(1, Ordering::Release);
        }
        prev
    }
}

} // verus!
