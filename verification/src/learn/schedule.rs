//! How far away the next review of a concept is.

use vstd::prelude::*;

verus! {

/// The next review interval in days after a review graded `score` (0 to 5)
/// when the current interval is `current` days (at least 1): doubled for 5,
/// half as long again for 4 (halves rounded up), unchanged for 3, one day
/// below 3. Every interval is at least one day and at most `u32::MAX`.
pub open spec fn interval_spec(score: nat, current: nat) -> nat {
    let c: nat = if current >= 1 { current } else { 1 };
    let raw: nat = if score >= 5 {
        2 * c
    } else if score == 4 {
        ((3 * c + 1) / 2) as nat
    } else if score == 3 {
        c
    } else {
        1
    };
    if raw > u32::MAX {
        u32::MAX as nat
    } else {
        raw
    }
}

/// The next review interval in days for a review graded `score` after
/// `review_count` days.
pub fn next_interval_days(score: u32, review_count: u32) -> (r: u32)
    ensures
        r == interval_spec(score as nat, review_count as nat),
        r >= 1,
{
    let current: u64 = if review_count >= 1 { review_count as u64 } else { 1 };
    let raw: u64 = if score >= 5 {
        2 * current
    } else if score == 4 {
        (3 * current + 1) / 2
    } else if score == 3 {
        current
    } else {
        1
    };
    if raw > 4294967295u64 {
        4294967295u32
    } else {
        raw as u32
    }
}

/// A better grade never schedules the next review sooner.
pub proof fn better_grade_waits_longer(s1: nat, s2: nat, current: nat)
    requires
        s1 <= s2,
    ensures
        interval_spec(s1, current) <= interval_spec(s2, current),
{
}

} // verus!
