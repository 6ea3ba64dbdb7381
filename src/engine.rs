//! The fixed-rate world update clock.
use vstd::prelude::*;

verus! {

/// What the platform hands the engine when it starts.
pub struct EngineInit {}

/// World updates per second.
pub const UNIVERSE_RATE: u64 = 16;

/// The length of one world update, in nanoseconds.
pub const UNIVERSE_PERIOD_NANOS: u64 = 1_000_000_000 / UNIVERSE_RATE;

/// The number of whole update periods that fit in `elapsed_nanos`, capped at
/// `u32::MAX`, and the nanoseconds those periods take: the updates that are
/// due since the last tick, and how far the last tick moves.
pub fn ticks_due(elapsed_nanos: u128) -> (r: (u32, u128))
    ensures
        r.0 == (if (elapsed_nanos as int) / (UNIVERSE_PERIOD_NANOS as int) > u32::MAX {
            u32::MAX as int
        } else {
            (elapsed_nanos as int) / (UNIVERSE_PERIOD_NANOS as int)
        }),
        r.1 == r.0 * UNIVERSE_PERIOD_NANOS,
{
    let period = UNIVERSE_PERIOD_NANOS as u128;
    let n = elapsed_nanos / period;
    let count: u32 = if n > u32::MAX as u128 { u32::MAX } else { n as u32 };
    assert(count as u128 * period <= u32::MAX as u128 * 62_500_000) by (nonlinear_arith)
        requires
            count <= u32::MAX,
            period == 62_500_000,
    ;
    (count, count as u128 * period)
}

} // verus!
