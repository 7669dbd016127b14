//! Random draws. Nothing is known of a draw but its range.

use vstd::prelude::*;
use rand::Rng;
use std::time::Duration;
use crate::clock::{TimeSpan, NANOS_PER_SEC};

verus! {

/// `rand::Rng::gen::<usize>` on the generator of the current thread: any
/// value may come back.
#[verifier::external_body]
pub(crate) fn random_index() -> (r: usize) {
    rand::thread_rng().gen::<usize>()
}

/// `rand::Rng::gen::<u32>` on the generator of the current thread: any
/// value may come back.
#[verifier::external_body]
pub(crate) fn random_u32() -> (r: u32) {
    rand::thread_rng().gen::<u32>()
}

/// `rand::Rng::gen_range` on a half-open range of `std::time::Duration`,
/// each end given as whole seconds and nanoseconds below one second. The
/// range must not be empty. The draw lies in the range, and its second
/// part is below one second.
#[verifier::external_body]
pub(crate) fn random_duration(min_secs: u64, min_nanos: u32, max_secs: u64, max_nanos: u32) -> (r:
    (u64, u32))
    requires
        min_nanos < 1_000_000_000,
        max_nanos < 1_000_000_000,
        min_secs * 1_000_000_000 + min_nanos < max_secs * 1_000_000_000 + max_nanos,
    ensures
        r.1 < 1_000_000_000,
        min_secs * 1_000_000_000 + min_nanos <= r.0 * 1_000_000_000 + r.1,
        r.0 * 1_000_000_000 + r.1 < max_secs * 1_000_000_000 + max_nanos,
{
    let low = Duration::new(min_secs, min_nanos);
    let high = Duration::new(max_secs, max_nanos);
    let d = rand::thread_rng().gen_range(low..high);
    (d.as_secs(), d.subsec_nanos())
}

/// The longest span that a draw can name: 2^64 seconds less one nanosecond.
pub const LONGEST_DRAW: u128 = 18_446_744_073_709_551_615_999_999_999;

/// Whether `d` may be drawn from the range: a span from `min` up to, but
/// not including, `max`; where the range is empty, `min` itself.
pub open spec fn drawn_from(min: TimeSpan, max: TimeSpan, d: TimeSpan) -> bool {
    if min.nanos < max.nanos {
        min.nanos <= d.nanos < max.nanos
    } else {
        d == min
    }
}

/// Draws a span from the range at random. From an empty range nothing is
/// drawn, and `min` is returned.
pub fn draw_span(min: TimeSpan, max: TimeSpan) -> (d: TimeSpan)
    ensures
        drawn_from(min, max, d),
{
    if min.nanos >= max.nanos || min.nanos >= LONGEST_DRAW {
        return min;
    }
    let high: u128 = if max.nanos <= LONGEST_DRAW {
        max.nanos
    } else {
        LONGEST_DRAW
    };
    let min_secs: u64 = (min.nanos / NANOS_PER_SEC) as u64;
    let min_nanos: u32 = (min.nanos % NANOS_PER_SEC) as u32;
    let max_secs: u64 = (high / NANOS_PER_SEC) as u64;
    let max_nanos: u32 = (high % NANOS_PER_SEC) as u32;
    let (secs, nanos) = random_duration(min_secs, min_nanos, max_secs, max_nanos);
    TimeSpan { nanos: (secs as u128) * NANOS_PER_SEC + (nanos as u128) }
}

} // verus!
