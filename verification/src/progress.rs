//! Fixed-point progress arithmetic.
//!
//! Progress, scores, thresholds and difficulties are fractions of one whole,
//! counted in ten-thousandths: `PROGRESS_SCALE` (10 000) stands for 1.0,
//! `MASTERY_LEVEL` (9 900) for 0.99, and an observer gains
//! `OBSERVATION_SHARE` (3 000, that is 0.3) of what it watches.
use vstd::prelude::*;

verus! {

/// One whole: the progress of a fully mastered skill.
pub const PROGRESS_SCALE: u32 = 10000;

/// The progress at or above which a skill counts as mastered (0.99).
pub const MASTERY_LEVEL: u32 = 9900;

/// The share of a target's progress that an observer gains (0.3).
pub const OBSERVATION_SHARE: u32 = 3000;

/// `x` clamped into `0 ..= PROGRESS_SCALE`.
pub open spec fn clamp_spec(x: int) -> int {
    if x < 0 {
        0
    } else if x > PROGRESS_SCALE {
        PROGRESS_SCALE as int
    } else {
        x
    }
}

/// Clamps a score or a progress value into `0 ..= PROGRESS_SCALE`.
pub fn clamp_progress(x: i64) -> (r: u32)
    ensures
        r == clamp_spec(x as int),
        r <= PROGRESS_SCALE,
{
    if x < 0 {
        0
    } else if x > PROGRESS_SCALE as i64 {
        PROGRESS_SCALE
    } else {
        x as u32
    }
}

/// What an observer gains from watching a target whose progress is
/// `target`: `OBSERVATION_SHARE` of it, rounded down.
pub open spec fn observation_gain_spec(target: u32) -> int {
    (target as int * OBSERVATION_SHARE as int) / PROGRESS_SCALE as int
}

/// Computes [`observation_gain_spec`].
pub fn observation_gain(target: u32) -> (g: u32)
    ensures
        g == observation_gain_spec(target),
        g <= target,
{
    let product: u64 = target as u64 * OBSERVATION_SHARE as u64;
    let g = product / PROGRESS_SCALE as u64;
    assert(g <= target) by (nonlinear_arith)
        requires
            product == target as u64 * 3000,
            g == product / 10000,
    ;
    g as u32
}

/// An observer's progress after watching: its own progress plus the gain,
/// clamped into `0 ..= PROGRESS_SCALE`.
pub open spec fn observed_progress_spec(current: u32, target: u32) -> int {
    clamp_spec(current + observation_gain_spec(target))
}

/// The sum of a sequence of progress values.
pub open spec fn sum_of(s: Seq<u32>) -> int
    decreases s.len(),
{
    if s.len() == 0 {
        0
    } else {
        sum_of(s.drop_last()) + s.last()
    }
}

/// The mean of a sequence of progress values, rounded down; 0 for an empty
/// sequence.
pub open spec fn mean_of(s: Seq<u32>) -> int {
    if s.len() == 0 {
        0
    } else {
        sum_of(s) / (s.len() as int)
    }
}

/// Adding up the first `i + 1` values is adding value `i` to the first `i`.
pub proof fn lemma_sum_take_step(s: Seq<u32>, i: int)
    requires
        0 <= i < s.len(),
    ensures
        sum_of(s.take(i + 1)) == sum_of(s.take(i)) + s[i],
{
    assert(s.take(i + 1).drop_last() =~= s.take(i));
}

/// Computes [`mean_of`] for the values produced so far by a loop: `total`
/// is their sum and `count` their number.
pub fn floor_mean(total: u128, count: usize) -> (m: u32)
    requires
        total <= count * (u32::MAX as int),
    ensures
        count == 0 ==> m == 0,
        count > 0 ==> m == (total as int) / (count as int),
{
    if count == 0 {
        0
    } else {
        let m = total / count as u128;
        assert(m <= u32::MAX) by (nonlinear_arith)
            requires
                count > 0,
                m == total / (count as u128),
                total <= count * (u32::MAX as int),
        ;
        m as u32
    }
}

} // verus!
