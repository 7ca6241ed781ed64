use std::sync::atomic::{AtomicU16, Ordering};
use vstd::prelude::*;

verus! {

/// The value that four 16-bit chunks stand for, least significant first.
pub open spec fn value_of(c: Seq<u16>) -> int
    recommends
        c.len() == 4,
{
    c[0] as int + c[1] as int * 0x1_0000 + c[2] as int * 0x1_0000_0000 + c[3] as int
        * 0x1_0000_0000_0000
}

/// The chunks after one unit is added at chunk `i`: a chunk at its largest
/// value turns to 0 and passes the carry on to the next; a carry out of the
/// top chunk is dropped, so the count starts again from 0.
/// This is a model of what `Counter::incr` does to the cells when no other
/// call runs at the same time; nothing proves it of `incr` itself, whose
/// cells hold values that the contracts cannot name.
pub open spec fn carry_from(c: Seq<u16>, i: nat) -> Seq<u16>
    decreases 4 - i,
{
    if i >= 4 {
        c
    } else if c[i as int] < u16::MAX {
        c.update(i as int, (c[i as int] + 1) as u16)
    } else {
        carry_from(c.update(i as int, 0), i + 1)
    }
}

/// The chunks of a value, least significant first: each is the value's
/// bits from its position on, masked to the chunk's width.
pub open spec fn chunks_of(num: u64) -> Seq<u16> {
    seq![
        (num & 0xFFFF) as u16,
        ((num >> 16) & 0xFFFF) as u16,
        ((num >> 32) & 0xFFFF) as u16,
        (num >> 48) as u16,
    ]
}

/// Splits a value into its chunks, least significant first.
pub fn split(num: u64) -> (r: [u16; 4])
    ensures
        r@ == chunks_of(num),
        value_of(r@) == num,
{
    proof {
        lemma_split_join(num);
    }
    let r = [
        (num & 0xFFFF) as u16,
        ((num >> 16) & 0xFFFF) as u16,
        ((num >> 32) & 0xFFFF) as u16,
        (num >> 48) as u16,
    ];
    assert(r@ =~= chunks_of(num));
    r
}

/// Joins four 16-bit chunks, least significant first, into the value they
/// stand for.
pub fn join(c: [u16; 4]) -> (r: u64)
    ensures
        r == value_of(c@),
{
    let a = c[0] as u64;
    let b = c[1] as u64;
    let d = c[2] as u64;
    let e = c[3] as u64;
    assert((e << 48) | (d << 32) | (b << 16) | a == a + b * 0x1_0000 + d * 0x1_0000_0000 + e
        * 0x1_0000_0000_0000) by (bit_vector)
        requires
            a < 0x1_0000,
            b < 0x1_0000,
            d < 0x1_0000,
            e < 0x1_0000,
    ;
    (e << 48) | (d << 32) | (b << 16) | a
}

/// Decides one read of the counter: `c` holds the cells as read in order,
/// from the lowest, and `again` the lowest cell read once more after them.
/// The reading stands, and gives the joined value, only when the lowest
/// cell read the same both times.
pub fn snapshot(c: [u16; 4], again: u16) -> (r: Option<u64>)
    ensures
        r == (if c[0] == again {
            Some(value_of(c@) as u64)
        } else {
            None
        }),
{
    if c[0] == again {
        Some(join(c))
    } else {
        None
    }
}

/// Decides the carry of one step of `Counter::incr`: `pre` is what a cell
/// held just before one unit was added to it. u16he next cell takes a carry
/// exactly when that cell rolled over, that is when it held the largest
/// value of its width.
pub fn carries(pre: u16) -> (r: bool)
    ensures
        r == (pre == u16::MAX),
{
    pre == u16::MAX
}

/// Joining the chunks of a value gives the value back.
pub proof fn lemma_split_join(num: u64)
    ensures
        value_of(chunks_of(num)) == num,
{
    assert((num & 0xFFFF) < 0x10000 && ((num >> 16) & 0xFFFF) < 0x10000
            && ((num >> 32) & 0xFFFF) < 0x10000 && (num >> 48) < 0x10000) by (bit_vector);
    assert(num == (num & 0xFFFF) + 0x10000 * (((num >> 16) & 0xFFFF)
            + 0x10000 * (((num >> 32) & 0xFFFF) + 0x10000 * ((num >> 48))))) by (bit_vector);
}

/// Adding one to the lowest chunk, with the carry, adds one to the value
/// the chunks stand for, modulo 2^64.
/// This is proved of the model only, not of `Counter::incr`.
pub proof fn lemma_incr_chunks(c: Seq<u16>)
    requires
        c.len() == 4,
    ensures
        carry_from(c, 0).len() == 4,
        value_of(carry_from(c, 0)) == (value_of(c) + 1) % 0x1_0000_0000_0000_0000,
{
    reveal_with_fuel(carry_from, 5);
}

/// The chunks after `k` units are added one at a time at the lowest chunk.
/// This is a model of what `Counter::incr` does to the cells when no other
/// call runs at the same time; nothing proves it of `incr` itself, whose
/// cells hold values that the contracts cannot name.
pub open spec fn incr_times(c: Seq<u16>, k: nat) -> Seq<u16>
    decreases k,
{
    if k == 0 {
        c
    } else {
        incr_times(carry_from(c, 0), (k - 1) as nat)
    }
}

/// Adding `k` units one at a time, each with its carry, adds `k` to the
/// value, modulo 2^64: no unit is lost.
/// This is proved of the model only, not of `Counter::incr`.
pub proof fn lemma_incr_times(c: Seq<u16>, k: nat)
    requires
        c.len() == 4,
    ensures
        incr_times(c, k).len() == 4,
        value_of(incr_times(c, k)) == (value_of(c) + k) % 0x1_0000_0000_0000_0000,
    decreases k,
{
    if k > 0 {
        lemma_incr_chunks(c);
        lemma_incr_times(carry_from(c, 0), (k - 1) as nat);
        vstd::arithmetic::div_mod::lemma_add_mod_noop(value_of(c) + 1, k - 1,
            0x1_0000_0000_0000_0000);
        vstd::arithmetic::div_mod::lemma_mod_twice(value_of(c) + 1, 0x1_0000_0000_0000_0000);
    }
}

/// A counter held in four 16-bit atomic cells, least significant first.
#[derive(Debug)]
pub struct Counter {
    cells: [AtomicU16; 4],
}

impl Counter {
    /// Creates a counter that starts at 0.
    pub fn new() -> Self {
        Counter {
            cells: [AtomicU16::new(0), AtomicU16::new(0), AtomicU16::new(0), AtomicU16::new(0)],
        }
    }

    /// Creates a counter that starts at `num`, each cell holding its chunk.
    pub fn with_init(num: u64) -> Self {
        let c = split(num);
        Counter {
            cells: [
                AtomicU16::new(c[0]),
                AtomicU16::new(c[1]),
                AtomicU16::new(c[2]),
                AtomicU16::new(c[3]),
            ],
        }
    }

    /// Returns the counter's current value.
    ///
    /// Reads the cells in order, from the lowest, then the lowest again, and
    /// joins the chunks once both readings of the lowest cell agree;
    /// otherwise it tries again, at most `u64::MAX` times, after which it
    /// joins the chunks of the last attempt.
    pub fn get(&self) -> u64 {
        let mut tries: u64 = 0;
        loop
            decreases u64::MAX - tries,
        {
            let c = [
                self.cells[0].load(Ordering::SeqCst),
                self.cells[1].load(Ordering::SeqCst),
                self.cells[2].load(Ordering::SeqCst),
                self.cells[3].load(Ordering::SeqCst),
            ];
            let again = self.cells[0].load(Ordering::SeqCst);
            match snapshot(c, again) {
                Some(v) => {
                    return v;
                },
                None => {
                    if tries == u64::MAX {
                        return join(c);
                    }
                },
            }
            tries = tries + 1;
        }
    }

    /// Adds one to the counter and returns the value that `get` read just
    /// before this call's own step.
    ///
    /// The lowest cell takes the unit; each further cell takes a carry only
    /// while the cell below it rolled over from its largest value.
    pub fn incr(&self) -> u64 {
        let prev = self.get();
        let mut i: usize = 0;
        while i < 4
            decreases 4 - i,
        {
            if !carries(self.cells[i].fetch_add(1, Ordering::Release)) {
                break;
            }
            i = i + 1;
        }
        prev
    }
}

} // verus!
