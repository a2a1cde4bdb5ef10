//! Whole-millisecond arithmetic for the timing reports. A duration arrives
//! as whole seconds plus a sub-second nanosecond remainder; the report shows
//! it as a truncated, never negative, whole number of milliseconds.

use vstd::prelude::*;
use vstd::arithmetic::div_mod::lemma_hoist_over_denominator;

verus! {

/// Converts a duration of secs seconds plus subsec_nanos nanoseconds into
/// whole milliseconds, truncating (not rounding) the fraction. The result
/// is exactly the total nanosecond count divided by one million.
pub fn duration_to_millis(secs: u64, subsec_nanos: u32) -> (r: u128)
    requires
        subsec_nanos < 1_000_000_000,
    ensures
        r == secs * 1000 + subsec_nanos / 1_000_000,
        r == (secs * 1_000_000_000 + subsec_nanos) / 1_000_000,
{
    proof {
        lemma_hoist_over_denominator(subsec_nanos as int, secs as int * 1000, 1_000_000nat);
    }
    (secs as u128) * 1000 + (subsec_nanos / 1_000_000) as u128
}

} // verus!
