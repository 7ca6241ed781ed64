use std::sync::atomic::{AtomicU8, Ordering};
use vstd::prelude::*;

verus! {

/// The value that eight 8-bit chunks stand for, least significant first.
pub open spec fn value_of(c: Seq<u8>) -> int
    recommends
        c.len() == 8,
{
    c[0] as int + 0x100 * (c[1] as int + 0x100 * (c[2] as int + 0x100 * (c[3] as int + 0x100 * (
    c[4] as int + 0x100 * (c[5] as int + 0x100 * (c[6] as int + 0x100 * c[7] as int))))))
}

/// The chunks after one unit is added at chunk `i`: a chunk at its largest
/// value turns to 0 and passes the carry on to the next; a carry out of the
/// top chunk is dropped, so the count starts again from 0.
/// This is a model of what `Counter::incr` does to the cells when no other
/// call runs at the same time; nothing proves it of `incr` itself, whose
/// cells hold values that the contracts cannot name.
pub open spec fn carry_from(c: Seq<u8>, i: nat) -> Seq<u8>
    decreases 8 - i,
{
    if i >= 8 {
        c
    } else if c[i as int] < u8::MAX {
        c.update(i as int, (c[i as int] + 1) as u8)
    } else {
        carry_from(c.update(i as int, 0), i + 1)
    }
}

/// The chunks of a value, least significant first: each is the value's
/// bits from its position on, masked to the chunk's width.
pub open spec fn chunks_of(num: u64) -> Seq<u8> {
    seq![
        (num & 0xFF) as u8,
        ((num >> 8) & 0xFF) as u8,
        ((num >> 16) & 0xFF) as u8,
        ((num >> 24) & 0xFF) as u8,
        ((num >> 32) & 0xFF) as u8,
        ((num >> 40) & 0xFF) as u8,
        ((num >> 48) & 0xFF) as u8,
        (num >> 56) as u8,
    ]
}

/// Splits a value into its chunks, least significant first.
pub fn split(num: u64) -> (r: [u8; 8])
    ensures
        r@ == chunks_of(num),
        value_of(r@) == num,
{
    proof {
        lemma_split_join(num);
    }
    let r = [
        (num & 0xFF) as u8,
        ((num >> 8) & 0xFF) as u8,
        ((num >> 16) & 0xFF) as u8,
        ((num >> 24) & 0xFF) as u8,
        ((num >> 32) & 0xFF) as u8,
        ((num >> 40) & 0xFF) as u8,
        ((num >> 48) & 0xFF) as u8,
        (num >> 56) as u8,
    ];
    assert(r@ =~= chunks_of(num));
    r
}

/// Joins eight 8-bit chunks, least significant first, into the value they
/// stand for.
pub fn join(c: [u8; 8]) -> (r: u64)
    ensures
        r == value_of(c@),
{
    let a0 = c[0] as u64;
    let a1 = c[1] as u64;
    let a2 = c[2] as u64;
    let a3 = c[3] as u64;
    let a4 = c[4] as u64;
    let a5 = c[5] as u64;
    let a6 = c[6] as u64;
    let a7 = c[7] as u64;
    assert((a7 << 56) | (a6 << 48) | (a5 << 40) | (a4 << 32) | (a3 << 24) | (a2 << 16)
            | (a1 << 8) | a0 == a0 + 0x100 * (a1 + 0x100 * (a2 + 0x100 * (a3 + 0x100 * (a4
            + 0x100 * (a5 + 0x100 * (a6 + 0x100 * (a7)))))))) by (bit_vector)
        requires
            a0 < 0x100,
            a1 < 0x100,
            a2 < 0x100,
            a3 < 0x100,
            a4 < 0x100,
            a5 < 0x100,
            a6 < 0x100,
            a7 < 0x100,
    ;
    (a7 << 56) | (a6 << 48) | (a5 << 40) | (a4 << 32) | (a3 << 24) | (a2 << 16) | (a1 << 8) | a0
}

/// Decides one read of the counter: `c` holds the cells as read in order,
/// from the lowest, and `again` the lowest cell read once more after them.
/// The reading stands, and gives the joined value, only when the lowest
/// cell read the same both times.
pub fn snapshot(c: [u8; 8], again: u8) -> (r: Option<u64>)
    ensures
        r == (if c[0] == again {
            Some(value_of(c@) as u64)
        } else {
            None
        }),
{
    if c[0] == again {
        Some(join(c))
    } else {
        None
    }
}

/// Decides the carry of one step of `Counter::incr`: `pre` is what a cell
/// held just before one unit was added to it. u8he next cell takes a carry
/// exactly when that cell rolled over, that is when it held the largest
/// value of its width.
pub fn carries(pre: u8) -> (r: bool)
    ensures
        r == (pre == u8::MAX),
{
    pre == u8::MAX
}

/// Joining the chunks of a value gives the value back.
pub proof fn lemma_split_join(num: u64)
    ensures
        value_of(chunks_of(num)) == num,
{
    assert((num & 0xFF) < 0x100 && ((num >> 8) & 0xFF) < 0x100
            && ((num >> 16) & 0xFF) < 0x100 && ((num >> 24) & 0xFF) < 0x100
            && ((num >> 32) & 0xFF) < 0x100 && ((num >> 40) & 0xFF) < 0x100
            && ((num >> 48) & 0xFF) < 0x100 && (num >> 56) < 0x100) by (bit_vector);
    assert(num == (num & 0xFF) + 0x100 * (((num >> 8) & 0xFF) + 0x100 * (((num >> 16) & 0xFF)
            + 0x100 * (((num >> 24) & 0xFF) + 0x100 * (((num >> 32) & 0xFF)
            + 0x100 * (((num >> 40) & 0xFF) + 0x100 * (((num >> 48) & 0xFF)
            + 0x100 * ((num >> 56))))))))) by (bit_vector);
}

/// What one unit in chunk `i` is worth; past the top chunk, 2^64.
pub open spec fn weight(i: nat) -> int {
    if i == 0 {
        1
    } else if i == 1 {
        0x100
    } else if i == 2 {
        0x10000
    } else if i == 3 {
        0x1000000
    } else if i == 4 {
        0x100000000
    } else if i == 5 {
        0x10000000000
    } else if i == 6 {
        0x1000000000000
    } else if i == 7 {
        0x100000000000000
    } else {
        0x1_0000_0000_0000_0000
    }
}

/// Adding one unit at chunk `i`, with the carry, to chunks that are 0 below
/// `i` adds that chunk's weight to the value, modulo 2^64.
proof fn lemma_carry_from(c: Seq<u8>, i: nat)
    requires
        c.len() == 8,
        i <= 8,
        forall|j: int| 0 <= j < i ==> c[j] == 0,
    ensures
        carry_from(c, i).len() == 8,
        value_of(carry_from(c, i)) == (value_of(c) + weight(i)) % 0x1_0000_0000_0000_0000,
    decreases 8 - i,
{
    if i < 8 && c[i as int] == u8::MAX {
        let d = c.update(i as int, 0);
        assert(value_of(d) == value_of(c) - 0xFF * weight(i));
        lemma_carry_from(d, i + 1);
    }
}

/// Adding one to the lowest chunk, with the carry, adds one to the value
/// the chunks stand for, modulo 2^64.
/// This is proved of the model only, not of `Counter::incr`.
pub proof fn lemma_incr_chunks(c: Seq<u8>)
    requires
        c.len() == 8,
    ensures
        carry_from(c, 0).len() == 8,
        value_of(carry_from(c, 0)) == (value_of(c) + 1) % 0x1_0000_0000_0000_0000,
{
    lemma_carry_from(c, 0);
}

/// The chunks after `k` units are added one at a time at the lowest chunk.
/// This is a model of what `Counter::incr` does to the cells when no other
/// call runs at the same time; nothing proves it of `incr` itself, whose
/// cells hold values that the contracts cannot name.
pub open spec fn incr_times(c: Seq<u8>, k: nat) -> Seq<u8>
    decreases k,
{
    if k == 0 {
        c
    } else {
        incr_times(carry_from(c, 0), (k - 1) as nat)
    }
}

/// Adding `k` units one at a time, each with its carry, adds `k` to the
/// value, modulo 2^64: no unit is lost.
/// This is proved of the model only, not of `Counter::incr`.
pub proof fn lemma_incr_times(c: Seq<u8>, k: nat)
    requires
        c.len() == 8,
    ensures
        incr_times(c, k).len() == 8,
        value_of(incr_times(c, k)) == (value_of(c) + k) % 0x1_0000_0000_0000_0000,
    decreases k,
{
    if k > 0 {
        lemma_incr_chunks(c);
        lemma_incr_times(carry_from(c, 0), (k - 1) as nat);
        vstd::arithmetic::div_mod::lemma_add_mod_noop(value_of(c) + 1, k - 1,
            0x1_0000_0000_0000_0000);
        vstd::arithmetic::div_mod::lemma_mod_twice(value_of(c) + 1, 0x1_0000_0000_0000_0000);
    }
}

/// A counter held in eight 8-bit atomic cells, least significant first.
#[derive(Debug)]
pub struct Counter {
    cells: [AtomicU8; 8],
}

impl Counter {
    /// Creates a counter that starts at 0.
    pub fn new() -> Self {
        Counter {
            cells: [
                AtomicU8::new(0),
                AtomicU8::new(0),
                AtomicU8::new(0),
                AtomicU8::new(0),
                AtomicU8::new(0),
                AtomicU8::new(0),
                AtomicU8::new(0),
                AtomicU8::new(0),
            ],
        }
    }

    /// Creates a counter that starts at `num`, each cell holding its chunk.
    pub fn with_init(num: u64) -> Self {
        let c = split(num);
        Counter {
            cells: [
                AtomicU8::new(c[0]),
                AtomicU8::new(c[1]),
                AtomicU8::new(c[2]),
                AtomicU8::new(c[3]),
                AtomicU8::new(c[4]),
                AtomicU8::new(c[5]),
                AtomicU8::new(c[6]),
                AtomicU8::new(c[7]),
            ],
        }
    }

    /// Returns the counter's current value.
    ///
    /// Reads the cells in order, from the lowest, then the lowest again, and
    /// joins the chunks once both readings of the lowest cell agree;
    /// otherwise it tries again, at most `u64::MAX` times, after which it
    /// joins the chunks of the last attempt.
    pub fn get(&self) -> u64 {
        let mut tries: u64 = 0;
        loop
            decreases u64::MAX - tries,
        {
            let c = [
                self.cells[0].load(Ordering::SeqCst),
                self.cells[1].load(Ordering::SeqCst),
                self.cells[2].load(Ordering::SeqCst),
                self.cells[3].load(Ordering::SeqCst),
                self.cells[4].load(Ordering::SeqCst),
                self.cells[5].load(Ordering::SeqCst),
                self.cells[6].load(Ordering::SeqCst),
                self.cells[7].load(Ordering::SeqCst),
            ];
            let again = self.cells[0].load(Ordering::SeqCst);
            match snapshot(c, again) {
                Some(v) => {
                    return v;
                },
                None => {
                    if tries == u64::MAX {
                        return join(c);
                    }
                },
            }
            tries = tries + 1;
        }
    }

    /// Adds one to the counter and returns the value that `get` read just
    /// before this call's own step.
    ///
    /// The lowest cell takes the unit; each further cell takes a carry only
    /// while the cell below it rolled over from its largest value.
    pub fn incr(&self) -> u64 {
        let prev = self.get();
        let mut i: usize = 0;
        while i < 8
            decreases 8 - i,
        {
            if !carries(self.cells[i].fetch_add(1, Ordering::Release)) {
                break;
            }
            i = i + 1;
        }
        prev
    }
}

} // verus!
