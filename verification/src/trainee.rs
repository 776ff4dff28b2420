//! The state of one agent in a training room.
use vstd::prelude::*;

use crate::curriculum::TrainingRoomId;
use crate::progress::{
    clamp_progress, clamp_spec, floor_mean, lemma_sum_take_step, mean_of, sum_of,
    MASTERY_LEVEL, PROGRESS_SCALE,
};
use crate::table::Table;

verus! {

/// One agent's progress through a curriculum. Progress values are fractions
/// of one whole in ten-thousandths.
#[derive(Debug, Clone)]
pub struct TraineeState {
    pub agent_id: String,
    pub skill_progress: Table<String, u32>,
    pub attempts: Table<String, u32>,
    pub mentor_id: Option<String>,
    pub room_id: TrainingRoomId,
    pub entered_tick: u64,
    pub graduated: bool,
}

impl TraineeState {
    /// Both tables are well formed.
    pub open spec fn wf(self) -> bool {
        self.skill_progress.wf() && self.attempts.wf()
    }

    /// The progress recorded for `skill`, 0 if none.
    pub open spec fn progress(self, skill: Seq<char>) -> u32 {
        if self.skill_progress@.contains_key(skill) {
            self.skill_progress@[skill]
        } else {
            0
        }
    }

    /// The number of attempts recorded for `skill`, 0 if none.
    pub open spec fn attempt_count(self, skill: Seq<char>) -> u32 {
        if self.attempts@.contains_key(skill) {
            self.attempts@[skill]
        } else {
            0
        }
    }

    /// Whether `skill` is mastered: its progress is at least 0.99.
    pub open spec fn mastered(self, skill: Seq<char>) -> bool {
        self.progress(skill) >= MASTERY_LEVEL
    }

    /// The mean of all recorded progress values, rounded down; 0 when no
    /// skill is tracked.
    pub open spec fn overall(self) -> int {
        mean_of(self.skill_progress.values())
    }

    /// Every recorded progress value lies within one whole.
    pub open spec fn progress_in_range(self) -> bool {
        forall|k: Seq<char>|
            #[trigger] self.skill_progress@.contains_key(k) ==> self.skill_progress@[k]
                <= PROGRESS_SCALE
    }

    /// The progress on `skill`, 0 if the skill is not tracked.
    pub fn progress_on(&self, skill: &str) -> (p: u32)
        requires
            self.wf(),
        ensures
            p == self.progress(skill@),
    {
        match self.skill_progress.get(skill) {
            Some(p) => *p,
            None => 0,
        }
    }

    /// Whether the progress on `skill` is at least 0.99.
    pub fn is_mastered(&self, skill: &str) -> (b: bool)
        requires
            self.wf(),
        ensures
            b == self.mastered(skill@),
    {
        self.progress_on(skill) >= MASTERY_LEVEL
    }

    /// The mean progress over all tracked skills, rounded down to a
    /// ten-thousandth; 0 when no skill is tracked.
    pub fn overall_progress(&self) -> (p: u32)
        ensures
            p == self.overall(),
    {
        let n = self.skill_progress.len();
        let mut total: u128 = 0;
        let mut i: usize = 0;
        while i < n
            invariant
                n == self.skill_progress.size(),
                n == self.skill_progress.values().len(),
                i <= n,
                total == sum_of(self.skill_progress.values().take(i as int)),
                total <= i * (u32::MAX as int),
            decreases n - i,
        {
            proof {
                lemma_sum_take_step(self.skill_progress.values(), i as int);
            }
            let v = *self.skill_progress.value_at(i);
            total = total + v as u128;
            i = i + 1;
        }
        proof {
            assert(self.skill_progress.values().take(n as int) =~= self.skill_progress.values());
        }
        floor_mean(total, n)
    }

    /// Counts one more attempt at `skill`.
    pub fn attempt(&mut self, skill: &str)
        requires
            old(self).wf(),
            old(self).attempt_count(skill@) < u32::MAX,
        ensures
            final(self).wf(),
            final(self).attempts@ == old(self).attempts@.insert(
                skill@,
                (old(self).attempt_count(skill@) + 1) as u32,
            ),
            final(self).skill_progress == old(self).skill_progress,
            final(self).agent_id == old(self).agent_id,
            final(self).mentor_id == old(self).mentor_id,
            final(self).room_id == old(self).room_id,
            final(self).entered_tick == old(self).entered_tick,
            final(self).graduated == old(self).graduated,
    {
        let count = match self.attempts.get(skill) {
            Some(c) => *c,
            None => 0,
        };
        self.attempts.insert(skill.to_owned(), count + 1);
    }

    /// Sets the progress on `skill` to `progress` clamped into `0 ..= 1.0`.
    pub fn update_skill(&mut self, skill: &str, progress: i64)
        requires
            old(self).wf(),
        ensures
            final(self).wf(),
            final(self).skill_progress@ == old(self).skill_progress@.insert(
                skill@,
                clamp_spec(progress as int) as u32,
            ),
            final(self).attempts == old(self).attempts,
            final(self).agent_id == old(self).agent_id,
            final(self).mentor_id == old(self).mentor_id,
            final(self).room_id == old(self).room_id,
            final(self).entered_tick == old(self).entered_tick,
            final(self).graduated == old(self).graduated,
            old(self).progress_in_range() ==> final(self).progress_in_range(),
    {
        let clamped = clamp_progress(progress);
        self.skill_progress.insert(skill.to_owned(), clamped);
    }
}

} // verus!
