//! Training rooms: trainees working through one curriculum.
use vstd::prelude::*;

use crate::curriculum::{Curriculum, SkillObjective, TrainingRoomId};
use crate::progress::{
    clamp_progress, clamp_spec, floor_mean, lemma_sum_take_step, mean_of, observation_gain,
    observed_progress_spec, sum_of, PROGRESS_SCALE,
};
use crate::table::{Table, TableKey};
use crate::text::{render_summary, summary_text};
use crate::trainee::TraineeState;

verus! {

/// An entry of a room's event log. Scores are fractions of one whole in
/// ten-thousandths.
#[derive(Debug, Clone)]
pub enum TrainingEvent {
    AgentEntered(String),
    AgentGraduated(String),
    SkillAttempted { agent: String, skill: String, score: u32 },
    MentorAssigned { trainee: String, mentor: String },
    ObservationMade { observer: String, target: String, learned: String },
    CollaborationStarted(Vec<String>),
    RoomCompleted,
}

impl TrainingEvent {
    /// The event records that `agent` graduated.
    pub open spec fn is_graduated(self, agent: Seq<char>) -> bool {
        self matches TrainingEvent::AgentGraduated(a) && a@ == agent
    }

    /// The event records an attempt of `agent` at `skill` scored `score`.
    pub open spec fn is_attempt(self, agent: Seq<char>, skill: Seq<char>, score: u32) -> bool {
        self matches TrainingEvent::SkillAttempted { agent: a, skill: s, score: sc } && a@ == agent
            && s@ == skill && sc == score
    }

    /// The event records that `observer` watched `target` at `learned`.
    pub open spec fn is_observation(
        self,
        observer: Seq<char>,
        target: Seq<char>,
        learned: Seq<char>,
    ) -> bool {
        self matches TrainingEvent::ObservationMade { observer: o, target: t, learned: l } && o@
            == observer && t@ == target && l@ == learned
    }
}

/// A room's event log: read by anyone, appended to only by the room.
#[derive(Debug, Clone)]
pub struct EventLog {
    entries: Vec<TrainingEvent>,
}

impl EventLog {
    /// The events, oldest first.
    pub closed spec fn view(&self) -> Seq<TrainingEvent> {
        self.entries@
    }

    /// An empty log.
    pub fn new() -> (log: Self)
        ensures
            log@ == Seq::<TrainingEvent>::empty(),
    {
        EventLog { entries: Vec::new() }
    }

    /// A log holding `events`, oldest first, as read back from storage.
    pub fn from_events(events: Vec<TrainingEvent>) -> (log: Self)
        ensures
            log@ == events@,
    {
        EventLog { entries: events }
    }

    /// The events, oldest first, taken out of the log.
    pub fn into_vec(self) -> (events: Vec<TrainingEvent>)
        ensures
            events@ == self@,
    {
        self.entries
    }

    /// Appends `event`.
    pub(crate) fn push(&mut self, event: TrainingEvent)
        ensures
            final(self)@ == old(self)@.push(event),
    {
        self.entries.push(event);
    }

    /// The events, oldest first.
    pub fn as_slice(&self) -> (s: &[TrainingEvent])
        ensures
            s@ == self@,
    {
        self.entries.as_slice()
    }

    /// The number of events.
    pub fn len(&self) -> (n: usize)
        ensures
            n == self@.len(),
    {
        self.entries.len()
    }
}

/// The trainees of `s` that have graduated, in order.
pub open spec fn graduated_among(s: Seq<TraineeState>) -> Seq<TraineeState>
    decreases s.len(),
{
    if s.len() == 0 {
        s
    } else if s.last().graduated {
        graduated_among(s.drop_last()).push(s.last())
    } else {
        graduated_among(s.drop_last())
    }
}

/// The trainees of `s` that have not graduated, in order.
pub open spec fn active_among(s: Seq<TraineeState>) -> Seq<TraineeState>
    decreases s.len(),
{
    if s.len() == 0 {
        s
    } else if !s.last().graduated {
        active_among(s.drop_last()).push(s.last())
    } else {
        active_among(s.drop_last())
    }
}

/// Graduated and active trainees together are all of them.
pub proof fn lemma_partition_len(s: Seq<TraineeState>)
    ensures
        graduated_among(s).len() + active_among(s).len() == s.len(),
    decreases s.len(),
{
    if s.len() > 0 {
        lemma_partition_len(s.drop_last());
    }
}

/// `t` with its mentor set to `mentor`.
pub open spec fn with_mentor(t: TraineeState, mentor: String) -> TraineeState {
    TraineeState { mentor_id: Some(mentor), ..t }
}

/// `t` marked as graduated.
pub open spec fn as_graduated(t: TraineeState) -> TraineeState {
    TraineeState { graduated: true, ..t }
}

/// `a` and `b` are the same agent in the same room, with the same mentor,
/// entry tick and graduation flag.
pub open spec fn same_identity(a: TraineeState, b: TraineeState) -> bool {
    &&& a.agent_id == b.agent_id
    &&& a.mentor_id == b.mentor_id
    &&& a.room_id == b.room_id
    &&& a.entered_tick == b.entered_tick
    &&& a.graduated == b.graduated
}

/// A room hosting trainees who work through one curriculum.
#[derive(Debug, Clone)]
pub struct TrainingRoom {
    pub id: TrainingRoomId,
    pub curriculum: Curriculum,
    pub trainees: Table<String, TraineeState>,
    pub mentor_id: Option<String>,
    pub max_trainees: usize,
    pub tick: u64,
    pub events: EventLog,
    pub graduation_count: u32,
}

impl TrainingRoom {
    /// The trainee table and every trainee in it are well formed.
    pub open spec fn wf(self) -> bool {
        &&& self.trainees.wf()
        &&& forall|k: Seq<char>| #[trigger]
            self.trainees@.contains_key(k) ==> self.trainees@[k].wf()
    }

    /// Each trainee is filed under its own agent id, as `enter` files it.
    pub open spec fn filed_by_agent(self) -> bool {
        forall|k: Seq<char>| #[trigger]
            self.trainees@.contains_key(k) ==> self.trainees@[k].agent_id@ == k
    }

    /// Every trainee's progress values lie within one whole.
    pub open spec fn progress_in_range(self) -> bool {
        forall|k: Seq<char>| #[trigger]
            self.trainees@.contains_key(k) ==> self.trainees@[k].progress_in_range()
    }

    /// The progress table of a newly entered trainee: every skill of the
    /// curriculum at 0.
    pub open spec fn initial_progress(self) -> Map<Seq<char>, u32> {
        Map::new(|k: Seq<char>| self.curriculum.skill_ids().contains(k), |k: Seq<char>| 0u32)
    }

    /// `t` is the state that entering gives `agent` in this room.
    pub open spec fn fresh_trainee(self, agent: String, t: TraineeState) -> bool {
        &&& t.wf()
        &&& t.agent_id == agent
        &&& t.skill_progress@ == self.initial_progress()
        &&& t.attempts@ == Map::<Seq<char>, u32>::empty()
        &&& t.mentor_id == self.mentor_id
        &&& t.room_id == self.id
        &&& t.entered_tick == self.tick
        &&& !t.graduated
        &&& t.progress_in_range()
    }

    /// `after` is this room once `agent` has entered it: the agent holds a
    /// fresh trainee state, the other trainees are untouched, the entry is
    /// logged and nothing else changed.
    pub open spec fn entered_as(self, agent: String, after: TrainingRoom) -> bool {
        &&& after.same_setting(self)
        &&& after.trainees@.contains_key(agent@)
        &&& self.fresh_trainee(agent, after.trainees@[agent@])
        &&& after.trainees@ == self.trainees@.insert(agent@, after.trainees@[agent@])
        &&& after.events@ == self.events@.push(TrainingEvent::AgentEntered(agent))
    }

    /// `after` is this room once `mentor` has been made its mentor: the
    /// room and every trainee in it have that mentor, and nothing else
    /// changed.
    pub open spec fn mentor_set(self, mentor: String, after: TrainingRoom) -> bool {
        &&& after.mentor_id == Some(mentor)
        &&& after.trainees.keys() == self.trainees.keys()
        &&& after.trainees@.dom() == self.trainees@.dom()
        &&& forall|k: Seq<char>| #[trigger]
            self.trainees@.contains_key(k) ==> after.trainees@[k] == with_mentor(
                self.trainees@[k],
                mentor,
            )
        &&& after.id == self.id
        &&& after.curriculum == self.curriculum
        &&& after.max_trainees == self.max_trainees
        &&& after.tick == self.tick
        &&& after.graduation_count == self.graduation_count
        &&& after.events@ == self.events@
    }

    /// `after` is this room once an attempt of `agent` at `skill` scored
    /// `score` has been recorded: the agent's attempt count for the skill
    /// went up by one, the skill's progress is the clamped score, and the
    /// attempt is logged. A room without the agent is unchanged.
    pub open spec fn attempt_recorded(
        self,
        agent: Seq<char>,
        skill: Seq<char>,
        score: i64,
        after: TrainingRoom,
    ) -> bool {
        &&& after.same_setting(self)
        &&& !self.trainees@.contains_key(agent) ==> after == self
        &&& self.trainees@.contains_key(agent) ==> {
            let before_t = self.trainees@[agent];
            let after_t = after.trainees@[agent];
            &&& after.trainees@ == self.trainees@.insert(agent, after_t)
            &&& after.trainees.keys() == self.trainees.keys()
            &&& after_t.skill_progress@ == before_t.skill_progress@.insert(
                skill,
                clamp_spec(score as int) as u32,
            )
            &&& after_t.attempts@ == before_t.attempts@.insert(
                skill,
                (before_t.attempt_count(skill) + 1) as u32,
            )
            &&& same_identity(after_t, before_t)
            &&& after.events@.len() == self.events@.len() + 1
            &&& after.events@.drop_last() == self.events@
            &&& after.events@.last().is_attempt(agent, skill, clamp_spec(score as int) as u32)
        }
    }

    /// `after` is this room once `observer` has watched `target` at `skill`:
    /// the observer's progress in the skill is its own plus 0.3 of the
    /// target's (rounded down), capped at one whole, and the observation is
    /// logged. Unless both are in the room, the room is unchanged.
    pub open spec fn observation_recorded(
        self,
        observer: Seq<char>,
        target: Seq<char>,
        skill: Seq<char>,
        after: TrainingRoom,
    ) -> bool {
        &&& after.same_setting(self)
        &&& !(self.trainees@.contains_key(observer) && self.trainees@.contains_key(target))
            ==> after == self
        &&& self.trainees@.contains_key(observer) && self.trainees@.contains_key(target) ==> {
            let before_t = self.trainees@[observer];
            let after_t = after.trainees@[observer];
            let watched = self.trainees@[target].progress(skill);
            &&& after.trainees@ == self.trainees@.insert(observer, after_t)
            &&& after.trainees.keys() == self.trainees.keys()
            &&& after_t.skill_progress@ == before_t.skill_progress@.insert(
                skill,
                observed_progress_spec(before_t.progress(skill), watched) as u32,
            )
            &&& after_t.attempts == before_t.attempts
            &&& same_identity(after_t, before_t)
            &&& after.events@.len() == self.events@.len() + 1
            &&& after.events@.drop_last() == self.events@
            &&& after.events@.last().is_observation(observer, target, skill)
        }
    }

    /// `agent` is in the room and has mastered every skill of the curriculum.
    pub open spec fn ready_to_graduate(self, agent: Seq<char>) -> bool {
        &&& self.trainees@.contains_key(agent)
        &&& forall|i: int|
            0 <= i < self.curriculum.skills@.len() ==> #[trigger] self.trainees@[agent].mastered(
                self.curriculum.skills@[i].skill_id@,
            )
    }

    /// The progress of `t` on each skill of the curriculum, in curriculum
    /// order; a skill `t` has not recorded counts as 0.
    pub open spec fn curriculum_progress(self, t: TraineeState) -> Seq<u32> {
        self.curriculum.skills@.map_values(|s: SkillObjective| t.progress(s.skill_id@))
    }

    /// The overall progress of `t` in this room: the mean of its progress on
    /// the curriculum's skills, rounded down; 0 for a curriculum without
    /// skills. Skills outside the curriculum do not count.
    pub open spec fn trainee_overall(self, t: TraineeState) -> int {
        mean_of(self.curriculum_progress(t))
    }

    /// The overall progress in this room of each trainee, in table order.
    pub open spec fn trainee_overalls(self) -> Seq<u32> {
        self.trainees.values().map_values(|t: TraineeState| self.trainee_overall(t) as u32)
    }

    /// The mean of the trainees' overall progress in this room, rounded
    /// down; 0 for an empty room.
    pub open spec fn overall(self) -> int {
        mean_of(self.trainee_overalls())
    }

    /// Every field but the trainees and the event log is as in `other`.
    pub open spec fn same_setting(self, other: TrainingRoom) -> bool {
        &&& self.id == other.id
        &&& self.curriculum == other.curriculum
        &&& self.mentor_id == other.mentor_id
        &&& self.max_trainees == other.max_trainees
        &&& self.tick == other.tick
        &&& self.graduation_count == other.graduation_count
    }

    /// In a well-formed room the trainee at position `i` is well formed.
    pub proof fn lemma_value_wf(self, i: int)
        requires
            self.wf(),
            0 <= i < self.trainees.size(),
        ensures
            self.trainees.values()[i].wf(),
            self.trainees@.contains_key(self.trainees.keys()[i]),
            self.trainees@[self.trainees.keys()[i]] == self.trainees.values()[i],
    {
        self.trainees.lemma_entry(i);
    }

    /// A room named `id` for `curriculum`, empty, without a mentor, holding
    /// at most `max_trainees` trainees.
    pub fn new(id: &str, curriculum: Curriculum, max_trainees: usize) -> (room: Self)
        ensures
            room.wf(),
            room.id.0@ == id@,
            room.curriculum == curriculum,
            room.trainees@ == Map::<Seq<char>, TraineeState>::empty(),
            room.trainees.size() == 0,
            room.mentor_id is None,
            room.max_trainees == max_trainees,
            room.tick == 0,
            room.events@ == Seq::<TrainingEvent>::empty(),
            room.graduation_count == 0,
            room.progress_in_range(),
            room.filed_by_agent(),
    {
        TrainingRoom {
            id: TrainingRoomId(id.to_owned()),
            curriculum,
            trainees: Table::new(),
            mentor_id: None,
            max_trainees,
            tick: 0,
            events: EventLog::new(),
            graduation_count: 0,
        }
    }

    /// Makes `mentor_id` the mentor of the room and of every trainee now in
    /// it; trainees who enter later get the same mentor.
    pub fn set_mentor(&mut self, mentor_id: String)
        requires
            old(self).wf(),
        ensures
            final(self).wf(),
            old(self).mentor_set(mentor_id, *final(self)),
            old(self).progress_in_range() ==> final(self).progress_in_range(),
            old(self).filed_by_agent() ==> final(self).filed_by_agent(),
    {
        let ghost pre = *self;
        let n = self.trainees.len();
        let mut i: usize = 0;
        while i < n
            invariant
                pre.wf(),
                self.trainees.wf(),
                n == pre.trainees.size(),
                i <= n,
                self.trainees.keys() == pre.trainees.keys(),
                self.trainees.values().len() == n,
                forall|j: int|
                    0 <= j < i ==> #[trigger] self.trainees.values()[j] == with_mentor(
                        pre.trainees.values()[j],
                        mentor_id,
                    ),
                forall|j: int| i <= j < n ==> #[trigger] self.trainees.values()[j] == pre.trainees.values()[j],
                self.id == pre.id,
                self.curriculum == pre.curriculum,
                self.max_trainees == pre.max_trainees,
                self.tick == pre.tick,
                self.graduation_count == pre.graduation_count,
                self.events == pre.events,
                self.mentor_id == pre.mentor_id,
            decreases n - i,
        {
            let ghost before = self.trainees;
            let (key, mut trainee) = self.trainees.remove_at(i);
            trainee.mentor_id = Some(mentor_id.clone());
            proof {
                assert(trainee == with_mentor(pre.trainees.values()[i as int], mentor_id));
                assert(!self.trainees.keys().contains(key.key_view()));
                self.trainees.lemma_model();
            }
            self.trainees.insert_at(i, key, trainee);
            proof {
                assert(self.trainees.keys() =~= pre.trainees.keys());
                assert(self.trainees.values() =~= before.values().update(i as int, trainee));
            }
            i = i + 1;
        }
        self.mentor_id = Some(mentor_id);
        proof {
            self.trainees.lemma_model();
            pre.trainees.lemma_model();
            assert(self.trainees@.dom() =~= pre.trainees@.dom());
            assert forall|k: Seq<char>| #[trigger]
                pre.trainees@.contains_key(k) implies self.trainees@[k] == with_mentor(
                pre.trainees@[k],
                mentor_id,
            ) && self.trainees@[k].wf() by {
                let j = pre.trainees.keys().index_of(k);
                pre.trainees.lemma_entry(j);
                self.trainees.lemma_entry(j);
            }
            assert forall|k: Seq<char>| #[trigger]
                self.trainees@.contains_key(k) implies self.trainees@[k].wf() by {
                assert(pre.trainees@.contains_key(k));
            }
            if pre.progress_in_range() {
                assert forall|k: Seq<char>| #[trigger]
                    self.trainees@.contains_key(k) implies self.trainees@[k].progress_in_range() by {
                    assert(pre.trainees@.contains_key(k));
                }
            }
        }
    }

    /// The progress table for a newly entered trainee.
    fn initial_progress_table(&self) -> (t: Table<String, u32>)
        ensures
            t.wf(),
            t@ == self.initial_progress(),
    {
        let mut t: Table<String, u32> = Table::new();
        let n = self.curriculum.skills.len();
        let mut i: usize = 0;
        while i < n
            invariant
                n == self.curriculum.skills@.len(),
                i <= n,
                t.wf(),
                t@ == Map::new(
                    |k: Seq<char>| self.curriculum.skill_ids().take(i as int).contains(k),
                    |k: Seq<char>| 0u32,
                ),
            decreases n - i,
        {
            let id = self.curriculum.skills[i].skill_id.clone();
            t.insert(id, 0);
            proof {
                let ids = self.curriculum.skill_ids();
                assert(ids.take(i + 1) =~= ids.take(i as int).push(ids[i as int]));
                assert(t@ =~= Map::new(
                    |k: Seq<char>| ids.take(i + 1).contains(k),
                    |k: Seq<char>| 0u32,
                )) by {
                    assert forall|k: Seq<char>| ids.take(i + 1).contains(k) implies #[trigger] t@.contains_key(k) by {
                        let j = ids.take(i + 1).index_of(k);
                        if j < i {
                            assert(ids.take(i as int)[j] == k);
                        }
                    }
                    assert forall|k: Seq<char>| #[trigger] t@.contains_key(k) implies ids.take(i + 1).contains(k) by {
                        if k != ids[i as int] {
                            let j = ids.take(i as int).index_of(k);
                            assert(ids.take(i + 1)[j] == k);
                        } else {
                            assert(ids.take(i + 1)[i as int] == k);
                        }
                    }
                }
            }
            i = i + 1;
        }
        proof {
            assert(self.curriculum.skill_ids().take(n as int) =~= self.curriculum.skill_ids());
            assert(t@ =~= self.initial_progress());
        }
        t
    }

    /// Enrolls `agent_id` with every curriculum skill at 0, the room's mentor
    /// and the current tick, and logs the entry. Fails, changing nothing,
    /// when the room already holds `max_trainees` trainees. An agent already
    /// in the room starts afresh.
    pub fn enter(&mut self, agent_id: String) -> (entered: bool)
        requires
            old(self).wf(),
        ensures
            final(self).wf(),
            entered == (old(self).trainees@.len() < old(self).max_trainees),
            !entered ==> *final(self) == *old(self),
            entered ==> old(self).entered_as(agent_id, *final(self)),
            old(self).trainees@.len() <= old(self).max_trainees ==> final(self).trainees@.len()
                <= final(self).max_trainees,
            old(self).progress_in_range() ==> final(self).progress_in_range(),
            old(self).filed_by_agent() ==> final(self).filed_by_agent(),
    {
        proof {
            self.trainees.lemma_model();
        }
        if self.trainees.len() >= self.max_trainees {
            return false;
        }
        let skill_progress = self.initial_progress_table();
        let mentor_id = match &self.mentor_id {
            Some(m) => Some(m.clone()),
            None => None,
        };
        let state = TraineeState {
            agent_id: agent_id.clone(),
            skill_progress,
            attempts: Table::new(),
            mentor_id,
            room_id: self.id.clone(),
            entered_tick: self.tick,
            graduated: false,
        };
        let ghost pre = *self;
        let ghost st = state;
        proof {
            assert(st.progress_in_range()) by {
                assert forall|k: Seq<char>| #[trigger] st.skill_progress@.contains_key(k) implies st.skill_progress@[k] <= PROGRESS_SCALE by {
                }
            }
        }
        self.trainees.insert(agent_id.clone(), state);
        self.events.push(TrainingEvent::AgentEntered(agent_id));
        proof {
            self.trainees.lemma_model();
            assert(self.trainees@[agent_id@] == st);
            assert forall|k: Seq<char>| #[trigger]
                self.trainees@.contains_key(k) implies self.trainees@[k].wf() by {
                if k != agent_id@ {
                    assert(pre.trainees@.contains_key(k));
                }
            }
            if pre.progress_in_range() {
                assert forall|k: Seq<char>| #[trigger]
                    self.trainees@.contains_key(k) implies self.trainees@[k].progress_in_range() by {
                    if k != agent_id@ {
                        assert(pre.trainees@.contains_key(k));
                    }
                }
            }
        }
        true
    }

    /// Removes `agent_id` from the room and returns their state, or `None`
    /// when they are not in it.
    pub fn leave(&mut self, agent_id: String) -> (left: Option<TraineeState>)
        requires
            old(self).wf(),
        ensures
            final(self).wf(),
            left == old(self).trainees.lookup(agent_id@),
            final(self).trainees@ == old(self).trainees@.remove(agent_id@),
            final(self).same_setting(*old(self)),
            final(self).events@ == old(self).events@,
            old(self).progress_in_range() ==> final(self).progress_in_range(),
            old(self).filed_by_agent() ==> final(self).filed_by_agent(),
    {
        let left = self.trainees.remove(agent_id.as_str());
        left
    }

    /// Records an attempt of `agent_id` at `skill`: counts it, sets the
    /// skill's progress to `score` clamped into `0 ..= 1.0` (the last score
    /// is the progress; scores do not add up), and logs it. Does nothing when
    /// the agent is not in the room.
    pub fn record_attempt(&mut self, agent_id: &str, skill: &str, score: i64)
        requires
            old(self).wf(),
            old(self).trainees@.contains_key(agent_id@) ==> old(self).trainees@[agent_id@].attempt_count(
                skill@,
            ) < u32::MAX,
        ensures
            final(self).wf(),
            old(self).attempt_recorded(agent_id@, skill@, score, *final(self)),
            old(self).progress_in_range() ==> final(self).progress_in_range(),
            old(self).filed_by_agent() ==> final(self).filed_by_agent(),
    {
        match self.trainees.index_of(agent_id) {
            Some(i) => {
                let ghost pre = *self;
                proof {
                    self.lemma_value_wf(i as int);
                }
                let (key, mut trainee) = self.trainees.remove_at(i);
                trainee.attempt(skill);
                let clamped = clamp_progress(score);
                trainee.update_skill(skill, clamped as i64);
                let ghost t1 = trainee;
                proof {
                    self.trainees.lemma_model();
                }
                self.trainees.insert_at(i, key, trainee);
                self.events.push(
                    TrainingEvent::SkillAttempted {
                        agent: agent_id.to_owned(),
                        skill: skill.to_owned(),
                        score: clamped,
                    },
                );
                proof {
                    let k = agent_id@;
                    assert(self.trainees.keys() =~= pre.trainees.keys());
                    assert(self.trainees@ =~= pre.trainees@.insert(k, t1));
                    assert(self.events@.drop_last() =~= pre.events@);
                    assert forall|x: Seq<char>| #[trigger]
                        self.trainees@.contains_key(x) implies self.trainees@[x].wf() by {
                        if x != k {
                            assert(pre.trainees@.contains_key(x));
                        }
                    }
                    if pre.progress_in_range() {
                        assert forall|x: Seq<char>| #[trigger]
                            self.trainees@.contains_key(x) implies self.trainees@[x].progress_in_range() by {
                            assert(pre.trainees@.contains_key(x));
                        }
                    }
                }
            },
            None => {},
        }
    }

    /// `observer` watches `target` at `learned_skill` and gains 0.3 of the
    /// target's progress in it (rounded down to a ten-thousandth), its own
    /// progress capped at one whole; the observation is logged. Does nothing
    /// unless both are in the room.
    pub fn record_observation(&mut self, observer: &str, target: &str, learned_skill: &str)
        requires
            old(self).wf(),
        ensures
            final(self).wf(),
            old(self).observation_recorded(observer@, target@, learned_skill@, *final(self)),
            old(self).progress_in_range() ==> final(self).progress_in_range(),
            old(self).filed_by_agent() ==> final(self).filed_by_agent(),
    {
        let watched = match self.trainees.get(target) {
            Some(t) => {
                proof {
                    let j = self.trainees.keys().index_of(target@);
                    self.lemma_value_wf(j);
                }
                t.progress_on(learned_skill)
            },
            None => {
                return ;
            },
        };
        match self.trainees.index_of(observer) {
            Some(i) => {
                let ghost pre = *self;
                proof {
                    self.lemma_value_wf(i as int);
                }
                let (key, mut obs) = self.trainees.remove_at(i);
                let current = obs.progress_on(learned_skill);
                let gain = observation_gain(watched);
                let sum: u64 = current as u64 + gain as u64;
                let new_val: u32 = if sum > PROGRESS_SCALE as u64 {
                    PROGRESS_SCALE
                } else {
                    sum as u32
                };
                obs.update_skill(learned_skill, new_val as i64);
                let ghost t1 = obs;
                proof {
                    self.trainees.lemma_model();
                }
                self.trainees.insert_at(i, key, obs);
                self.events.push(
                    TrainingEvent::ObservationMade {
                        observer: observer.to_owned(),
                        target: target.to_owned(),
                        learned: learned_skill.to_owned(),
                    },
                );
                proof {
                    let k = observer@;
                    assert(self.trainees.keys() =~= pre.trainees.keys());
                    assert(self.trainees@ =~= pre.trainees@.insert(k, t1));
                    assert(self.events@.drop_last() =~= pre.events@);
                    assert forall|x: Seq<char>| #[trigger]
                        self.trainees@.contains_key(x) implies self.trainees@[x].wf() by {
                        if x != k {
                            assert(pre.trainees@.contains_key(x));
                        }
                    }
                    if pre.progress_in_range() {
                        assert forall|x: Seq<char>| #[trigger]
                            self.trainees@.contains_key(x) implies self.trainees@[x].progress_in_range() by {
                            assert(pre.trainees@.contains_key(x));
                        }
                    }
                }
            },
            None => {},
        }
    }

    /// Whether `t` has mastered every skill of the curriculum.
    fn masters_all(&self, t: &TraineeState) -> (b: bool)
        requires
            t.wf(),
        ensures
            b == (forall|i: int|
                0 <= i < self.curriculum.skills@.len() ==> #[trigger] t.mastered(
                    self.curriculum.skills@[i].skill_id@,
                )),
    {
        let n = self.curriculum.skills.len();
        let mut i: usize = 0;
        while i < n
            invariant
                n == self.curriculum.skills@.len(),
                i <= n,
                t.wf(),
                forall|j: int| 0 <= j < i ==> #[trigger] t.mastered(self.curriculum.skills@[j].skill_id@),
            decreases n - i,
        {
            if !t.is_mastered(self.curriculum.skills[i].skill_id.as_str()) {
                return false;
            }
            i = i + 1;
        }
        true
    }

    /// Graduates `agent_id` if they have mastered every skill of the
    /// curriculum: marks them graduated, counts the graduation and logs it.
    /// Returns whether they graduated; changes nothing otherwise.
    pub fn check_graduation(&mut self, agent_id: &str) -> (graduated: bool)
        requires
            old(self).wf(),
            old(self).ready_to_graduate(agent_id@) ==> old(self).graduation_count < u32::MAX,
        ensures
            final(self).wf(),
            graduated == old(self).ready_to_graduate(agent_id@),
            !graduated ==> *final(self) == *old(self),
            graduated ==> {
                &&& final(self).trainees@ == old(self).trainees@.insert(
                    agent_id@,
                    as_graduated(old(self).trainees@[agent_id@]),
                )
                &&& final(self).trainees.keys() == old(self).trainees.keys()
                &&& final(self).graduation_count == old(self).graduation_count + 1
                &&& final(self).events@.len() == old(self).events@.len() + 1
                &&& final(self).events@.drop_last() == old(self).events@
                &&& final(self).events@.last().is_graduated(agent_id@)
                &&& final(self).id == old(self).id
                &&& final(self).curriculum == old(self).curriculum
                &&& final(self).mentor_id == old(self).mentor_id
                &&& final(self).max_trainees == old(self).max_trainees
                &&& final(self).tick == old(self).tick
            },
            old(self).progress_in_range() ==> final(self).progress_in_range(),
            old(self).filed_by_agent() ==> final(self).filed_by_agent(),
    {
        let mastered = match self.trainees.get(agent_id) {
            Some(t) => {
                proof {
                    let j = self.trainees.keys().index_of(agent_id@);
                    self.lemma_value_wf(j);
                }
                self.masters_all(t)
            },
            None => false,
        };
        if mastered {
            let ghost pre = *self;
            match self.trainees.index_of(agent_id) {
                Some(i) => {
                    proof {
                        self.lemma_value_wf(i as int);
                    }
                    let (key, mut t) = self.trainees.remove_at(i);
                    t.graduated = true;
                    let ghost t1 = t;
                    proof {
                        self.trainees.lemma_model();
                    }
                    self.trainees.insert_at(i, key, t);
                    proof {
                        let k = agent_id@;
                        assert(t1 == as_graduated(pre.trainees@[k]));
                        assert(self.trainees.keys() =~= pre.trainees.keys());
                        assert(self.trainees@ =~= pre.trainees@.insert(k, t1));
                        assert forall|x: Seq<char>| #[trigger]
                            self.trainees@.contains_key(x) implies self.trainees@[x].wf() by {
                            if x != k {
                                assert(pre.trainees@.contains_key(x));
                            }
                        }
                        if pre.progress_in_range() {
                            assert forall|x: Seq<char>| #[trigger]
                                self.trainees@.contains_key(x) implies self.trainees@[x].progress_in_range() by {
                                assert(pre.trainees@.contains_key(x));
                            }
                        }
                    }
                },
                None => {},
            }
            self.graduation_count = self.graduation_count + 1;
            self.events.push(TrainingEvent::AgentGraduated(agent_id.to_owned()));
            proof {
                assert(self.events@.drop_last() =~= pre.events@);
            }
        }
        mastered
    }

    /// The trainees who have graduated, in table order.
    pub fn graduated_agents(&self) -> (agents: Vec<&TraineeState>)
        ensures
            agents@.unref() == graduated_among(self.trainees.values()),
    {
        let n = self.trainees.len();
        let mut agents: Vec<&TraineeState> = Vec::new();
        let mut i: usize = 0;
        while i < n
            invariant
                n == self.trainees.size(),
                n == self.trainees.values().len(),
                i <= n,
                agents@.unref() == graduated_among(self.trainees.values().take(i as int)),
            decreases n - i,
        {
            let t = self.trainees.value_at(i);
            let ghost vals = self.trainees.values();
            proof {
                assert(vals.take(i + 1).drop_last() =~= vals.take(i as int));
                assert(vals.take(i + 1).last() == vals[i as int]);
            }
            if t.graduated {
                agents.push(t);
            }
            proof {
                assert(agents@.unref() =~= graduated_among(vals.take(i + 1)));
            }
            i = i + 1;
        }
        proof {
            assert(self.trainees.values().take(n as int) =~= self.trainees.values());
        }
        agents
    }

    /// The trainees who have not graduated, in table order.
    pub fn active_agents(&self) -> (agents: Vec<&TraineeState>)
        ensures
            agents@.unref() == active_among(self.trainees.values()),
    {
        let n = self.trainees.len();
        let mut agents: Vec<&TraineeState> = Vec::new();
        let mut i: usize = 0;
        while i < n
            invariant
                n == self.trainees.size(),
                n == self.trainees.values().len(),
                i <= n,
                agents@.unref() == active_among(self.trainees.values().take(i as int)),
            decreases n - i,
        {
            let t = self.trainees.value_at(i);
            let ghost vals = self.trainees.values();
            proof {
                assert(vals.take(i + 1).drop_last() =~= vals.take(i as int));
                assert(vals.take(i + 1).last() == vals[i as int]);
            }
            if !t.graduated {
                agents.push(t);
            }
            proof {
                assert(agents@.unref() =~= active_among(vals.take(i + 1)));
            }
            i = i + 1;
        }
        proof {
            assert(self.trainees.values().take(n as int) =~= self.trainees.values());
        }
        agents
    }

    /// The overall progress of `t` in this room: the mean of its progress on
    /// the curriculum's skills, rounded down to a ten-thousandth.
    fn trainee_progress(&self, t: &TraineeState) -> (p: u32)
        requires
            t.wf(),
        ensures
            p == self.trainee_overall(*t),
    {
        let n = self.curriculum.skills.len();
        let ghost vals = self.curriculum_progress(*t);
        let mut total: u128 = 0;
        let mut i: usize = 0;
        while i < n
            invariant
                t.wf(),
                n == self.curriculum.skills@.len(),
                vals == self.curriculum_progress(*t),
                vals.len() == n,
                i <= n,
                total == sum_of(vals.take(i as int)),
                total <= i * (u32::MAX as int),
            decreases n - i,
        {
            proof {
                lemma_sum_take_step(vals, i as int);
            }
            let p = t.progress_on(self.curriculum.skills[i].skill_id.as_str());
            total = total + p as u128;
            i = i + 1;
        }
        proof {
            assert(vals.take(n as int) =~= vals);
        }
        floor_mean(total, n)
    }

    /// The mean of the trainees' overall progress in this room (each the
    /// mean of its progress on the curriculum's skills), rounded down to a
    /// ten-thousandth; 0 for an empty room.
    pub fn room_progress(&self) -> (p: u32)
        requires
            self.wf(),
        ensures
            p == self.overall(),
    {
        let n = self.trainees.len();
        let ghost vals = self.trainee_overalls();
        let mut total: u128 = 0;
        let mut i: usize = 0;
        while i < n
            invariant
                self.wf(),
                n == self.trainees.size(),
                n == self.trainees.values().len(),
                vals == self.trainee_overalls(),
                vals.len() == n,
                i <= n,
                total == sum_of(vals.take(i as int)),
                total <= i * (u32::MAX as int),
            decreases n - i,
        {
            proof {
                lemma_sum_take_step(vals, i as int);
                self.lemma_value_wf(i as int);
            }
            let p = self.trainee_progress(self.trainees.value_at(i));
            total = total + p as u128;
            i = i + 1;
        }
        proof {
            assert(vals.take(n as int) =~= vals);
        }
        floor_mean(total, n)
    }

    /// The event log, oldest first.
    pub fn events(&self) -> (log: &[TrainingEvent])
        ensures
            log@ == self.events@,
    {
        self.events.as_slice()
    }

    /// The room's overall progress in tenths of a percent, rounded to the
    /// nearest (halves up).
    pub open spec fn progress_tenths(self) -> int {
        (self.overall() + 5) / 10
    }

    /// The one-line report of the room.
    pub open spec fn summary_spec(self) -> Seq<char> {
        let total = self.trainees.size();
        let graduated = graduated_among(self.trainees.values()).len();
        summary_text(
            self.id.0@,
            self.curriculum.name@,
            total,
            (total - graduated) as nat,
            graduated,
            (self.progress_tenths() / 10) as nat,
            (self.progress_tenths() % 10) as nat,
            match self.mentor_id {
                Some(m) => m@,
                None => "none"@,
            },
        )
    }

    /// A one-line report: the room's name, the curriculum's name, how many
    /// trainees there are and how many of them are active and graduated,
    /// the room's progress in percent to one decimal, and the mentor (or
    /// "none").
    pub fn summary(&self) -> (s: String)
        requires
            self.wf(),
        ensures
            s@ == self.summary_spec(),
    {
        let total = self.trainees.len();
        let graduated = self.graduated_agents().len();
        proof {
            lemma_partition_len(self.trainees.values());
        }
        let active = total - graduated;
        let progress = self.room_progress();
        let tenths: u64 = (progress as u64 + 5) / 10;
        let mentor: &str = match &self.mentor_id {
            Some(m) => m.as_str(),
            None => "none",
        };
        render_summary(
            self.id.0.as_str(),
            self.curriculum.name.as_str(),
            total,
            active,
            graduated,
            tenths / 10,
            tenths % 10,
            mentor,
        )
    }
}

} // verus!
