//! A 64-bit counter that only grows, safe to increment and read from many
//! threads at once without locks, on machines whose atomic words may be
//! narrower than 64 bits.
//!
//! [`wide::Counter`] holds the value in one 64-bit atomic cell. Where no such
//! cell is available, [`split32::Counter`], [`split16::Counter`] and
//! [`split8::Counter`] hold it as two, four or eight narrower cells, least
//! significant chunk first, and propagate the carry from cell to cell.
//! The crate root names the wide variant `Counter`.

pub mod split16;
pub mod split32;
pub mod split8;
pub mod wide;

pub use wide::Counter;
