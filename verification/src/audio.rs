//! Counters of the ring buffers that carry PCM samples.

use vstd::prelude::*;

verus! {

/// Counters of a ring buffer. Samples that were overwritten before they were read count as written.
#[derive(Debug, Clone, Copy, PartialEq, Eq, Structural)]
pub struct RingStats {
    pub capacity: usize,
    /// Samples written since the start.
    pub written: usize,
    /// Samples consumed since the start.
    pub consumed: usize,
    /// Samples that can be read now.
    pub readable: usize,
    pub overflow: usize,
    pub underflow: usize,
}

/// What a ring buffer says of a write.
#[derive(Debug, Clone, Copy, PartialEq, Eq, Structural)]
pub enum WriteReport {
    /// All samples were written.
    Complete,
    /// Only the first samples were written.
    Partial { written: usize },
}

/// The smaller of two numbers.
pub open spec fn least(a: int, b: int) -> int {
    if a <= b {
        a
    } else {
        b
    }
}

/// The larger of two numbers.
pub open spec fn most(a: int, b: int) -> int {
    if a >= b {
        a
    } else {
        b
    }
}

/// The larger of two counts.
pub(crate) fn larger(a: usize, b: usize) -> (m: usize)
    ensures
        m == most(a as int, b as int),
{
    if a >= b {
        a
    } else {
        b
    }
}

/// The smaller of two counts.
pub(crate) fn smaller(a: usize, b: usize) -> (m: usize)
    ensures
        m == least(a as int, b as int),
{
    if a <= b {
        a
    } else {
        b
    }
}

}
