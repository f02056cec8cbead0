use vstd::prelude::*;

verus! {

/// Nanoseconds in one second.
pub const NANOS_PER_SECOND: u64 = 1_000_000_000;

/// The fixed-point one: progress, easing values and scales are counted in
/// millionths, lengths in millionths of a pixel.
pub const ONE: u64 = 1_000_000;

} // verus!
