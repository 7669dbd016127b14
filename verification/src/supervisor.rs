//! How long the supervisor waits before it starts a session again.

use vstd::prelude::*;
use crate::clock::TimeSpan;

verus! {

/// A session that began less than this many seconds after the one before
/// it counts as a failure.
pub const RESTART_WINDOW_SECS: u64 = 3_600;

/// 2 to the power `n`.
pub open spec fn two_to(n: nat) -> nat
    decreases n,
{
    if n == 0 {
        1
    } else {
        2 * two_to((n - 1) as nat)
    }
}

/// The powers of two grow.
pub proof fn lemma_two_to_grows(a: nat, b: nat)
    requires
        a <= b,
    ensures
        two_to(a) <= two_to(b),
    decreases b,
{
    if a < b {
        lemma_two_to_grows(a, (b - 1) as nat);
    }
}

/// A power of two of a sum is the product of the powers.
pub proof fn lemma_two_to_sum(a: nat, b: nat)
    ensures
        two_to(a + b) == two_to(a) * two_to(b),
    decreases b,
{
    if b > 0 {
        lemma_two_to_sum(a, (b - 1) as nat);
        assert(two_to(a + b) == 2 * two_to((a + b - 1) as nat));
        assert(2 * (two_to(a) * two_to((b - 1) as nat)) == two_to(a) * (2 * two_to(
            (b - 1) as nat,
        ))) by (nonlinear_arith);
    } else {
        assert(two_to(a) * 1 == two_to(a)) by (nonlinear_arith);
    }
}

/// The largest power of two that 64 bits hold.
pub proof fn lemma_two_to_63()
    ensures
        two_to(63) == 0x8000_0000_0000_0000,
{
    assert(two_to(8) == 256) by {
        reveal_with_fuel(two_to, 9);
    }
    assert(two_to(7) == 128) by {
        reveal_with_fuel(two_to, 8);
    }
    lemma_two_to_sum(8, 8);
    lemma_two_to_sum(8, 7);
    lemma_two_to_sum(16, 16);
    lemma_two_to_sum(16, 15);
    lemma_two_to_sum(32, 31);
    assert(two_to(16) == 65536);
    assert(two_to(15) == 32768);
    assert(two_to(32) == 4294967296) by (nonlinear_arith)
        requires
            two_to(32) == two_to(16) * two_to(16),
            two_to(16) == 65536,
    ;
    assert(two_to(31) == 2147483648) by (nonlinear_arith)
        requires
            two_to(31) == two_to(16) * two_to(15),
            two_to(16) == 65536,
            two_to(15) == 32768,
    ;
    assert(two_to(63) == 0x8000_0000_0000_0000) by (nonlinear_arith)
        requires
            two_to(63) == two_to(32) * two_to(31),
            two_to(32) == 4294967296,
            two_to(31) == 2147483648,
    ;
}

/// The count of failures after a session that began `since_last_start`
/// after the one before it: one more if that is inside the window, none
/// if not. The count stops at the largest number that it can hold.
pub open spec fn counted(fail_count: u32, since_last_start: TimeSpan) -> u32 {
    if since_last_start.nanos < RESTART_WINDOW_SECS * 1_000_000_000 {
        if fail_count < u32::MAX {
            (fail_count + 1) as u32
        } else {
            fail_count
        }
    } else {
        0
    }
}

/// Counts a session that has ended.
pub fn next_fail_count(fail_count: u32, since_last_start: TimeSpan) -> (r: u32)
    ensures
        r == counted(fail_count, since_last_start),
{
    if since_last_start.nanos < TimeSpan::from_secs(RESTART_WINDOW_SECS).nanos {
        if fail_count < u32::MAX {
            fail_count + 1
        } else {
            fail_count
        }
    } else {
        0
    }
}

/// The seconds to wait after so many failures: 2 to the power of their
/// number. `None` where that is more than 64 bits hold.
pub fn backoff_secs(fail_count: u32) -> (r: Option<u64>)
    ensures
        match r {
            Some(secs) => fail_count < 64 && secs == two_to(fail_count as nat),
            None => fail_count >= 64,
        },
{
    if fail_count >= 64 {
        return None;
    }
    let mut secs: u64 = 1;
    let mut i: u32 = 0;
    while i < fail_count
        invariant
            i <= fail_count < 64,
            secs == two_to(i as nat),
        decreases fail_count - i,
    {
        proof {
            lemma_two_to_grows((i + 1) as nat, 63);
            lemma_two_to_63();
        }
        secs = secs * 2;
        i += 1;
    }
    Some(secs)
}

} // verus!
