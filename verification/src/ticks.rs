//! Arithmetic on ticks.
//!
//! Game time and wall time are counts of ticks (`u64`). Sums stop at the
//! last tick and differences at zero, so that no time ever wraps around.

use vstd::prelude::*;

verus! {

/// The smaller of two times.
pub open spec fn earlier_of(a: u64, b: u64) -> u64 {
    if a <= b {
        a
    } else {
        b
    }
}

/// The larger of two times.
pub open spec fn later_of(a: u64, b: u64) -> u64 {
    if a >= b {
        a
    } else {
        b
    }
}

/// The time `span` ticks after `base`, held at the last tick.
pub open spec fn advanced(base: u64, span: u64) -> u64 {
    if base + span > u64::MAX {
        u64::MAX
    } else {
        (base + span) as u64
    }
}

/// The ticks from `from` to `to`; none where `to` is not later.
pub open spec fn span_between(from: u64, to: u64) -> u64 {
    if to >= from {
        (to - from) as u64
    } else {
        0
    }
}

} // verus!
