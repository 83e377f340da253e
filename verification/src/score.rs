//! Relevance scores as IEEE-754 single-precision bit patterns, ordered by the
//! IEEE total order.

use vstd::prelude::*;

verus! {

/// A relevance score, held as the bit pattern of a single-precision float.
///
/// Scores are only ever compared, never added or scaled, so the bit pattern
/// is all that is needed: `order_key` maps it to an integer whose natural
/// order is the IEEE-754 total order of the floats (negative NaN lowest,
/// then negative numbers, `-0`, `+0`, positive numbers, positive NaN).
#[derive(Clone, Copy, Debug, PartialEq, Eq, Structural)]
pub struct Score {
    pub bits: u32,
}

/// The position of a bit pattern in the total order: patterns with a clear
/// sign bit keep their value, patterns with the sign bit set are mirrored
/// below zero.
pub open spec fn order_key(bits: u32) -> int {
    if bits < 0x8000_0000 {
        bits as int
    } else {
        0x7fff_ffff - bits
    }
}

impl Score {
    /// The key of this score in the total order.
    pub open spec fn key(self) -> int {
        order_key(self.bits)
    }

    /// Wraps a bit pattern.
    pub fn from_bits(bits: u32) -> (score: Score)
        ensures
            score.bits == bits,
    {
        Score { bits }
    }

    /// The bit pattern of this score.
    pub fn to_bits(self) -> (bits: u32)
        ensures
            bits == self.bits,
    {
        self.bits
    }

    /// The key of this score as a machine integer.
    pub fn order_key(self) -> (key: i64)
        ensures
            key == self.key(),
    {
        if self.bits < 0x8000_0000 {
            self.bits as i64
        } else {
            0x7fff_ffff - (self.bits as i64)
        }
    }

    /// Whether `self` comes strictly before `other` in the total order.
    pub fn precedes(self, other: Score) -> (less: bool)
        ensures
            less == (self.key() < other.key()),
    {
        self.order_key() < other.order_key()
    }

    /// The later of two scores in the total order; `self` when they tie.
    pub fn max(self, other: Score) -> (top: Score)
        ensures
            top == (if self.key() < other.key() { other } else { self }),
    {
        if self.precedes(other) {
            other
        } else {
            self
        }
    }
}

} // verus!
