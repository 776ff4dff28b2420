//! The academy: a registry of curricula, a pool of rooms and the history of
//! which agent was enrolled where.
use vstd::prelude::*;

use crate::curriculum::{Curriculum, TrainingRoomId};
use crate::room::TrainingRoom;
use crate::table::Table;
use crate::text::{decimal, hyphenated};
use crate::trainee::TraineeState;

verus! {

/// The capacity of a room that the academy opens.
pub const ACADEMY_ROOM_CAPACITY: usize = 10;

/// Aggregate figures over an academy.
#[derive(Debug, Clone, Copy)]
pub struct AcademyStats {
    pub total_rooms: usize,
    pub total_enrollments: usize,
    pub total_graduations: usize,
    pub curricula_offered: usize,
    pub active_rooms: usize,
}

/// The number of trainees over all of `rooms`.
pub open spec fn enrollment_sum(rooms: Seq<TrainingRoom>) -> int
    decreases rooms.len(),
{
    if rooms.len() == 0 {
        0
    } else {
        enrollment_sum(rooms.drop_last()) + rooms.last().trainees@.len()
    }
}

/// The number of graduations counted over all of `rooms`.
pub open spec fn graduation_sum(rooms: Seq<TrainingRoom>) -> int
    decreases rooms.len(),
{
    if rooms.len() == 0 {
        0
    } else {
        graduation_sum(rooms.drop_last()) + rooms.last().graduation_count
    }
}

/// The number of `rooms` that hold at least one trainee.
pub open spec fn occupied_count(rooms: Seq<TrainingRoom>) -> int
    decreases rooms.len(),
{
    if rooms.len() == 0 {
        0
    } else {
        occupied_count(rooms.drop_last()) + if rooms.last().trainees@.len() > 0 {
            1int
        } else {
            0int
        }
    }
}

/// The rooms of `rooms` named by `ids`, in order, skipping names of rooms
/// that do not exist.
pub open spec fn rooms_along(
    rooms: Map<Seq<char>, TrainingRoom>,
    ids: Seq<TrainingRoomId>,
) -> Seq<TrainingRoom>
    decreases ids.len(),
{
    if ids.len() == 0 {
        Seq::empty()
    } else if rooms.contains_key(ids.last().0@) {
        rooms_along(rooms, ids.drop_last()).push(rooms[ids.last().0@])
    } else {
        rooms_along(rooms, ids.drop_last())
    }
}

/// Manages curricula, rooms and the agents' enrollment histories.
#[derive(Debug, Clone)]
pub struct TrainingAcademy {
    pub rooms: Table<TrainingRoomId, TrainingRoom>,
    pub curricula: Table<String, Curriculum>,
    pub agent_history: Table<String, Vec<TrainingRoomId>>,
}

impl Default for TrainingAcademy {
    fn default() -> (academy: Self)
        ensures
            academy.wf(),
            academy.rooms@ == Map::<Seq<char>, TrainingRoom>::empty(),
            academy.rooms.values() == Seq::<TrainingRoom>::empty(),
            academy.curricula@ == Map::<Seq<char>, Curriculum>::empty(),
            academy.agent_history@ == Map::<Seq<char>, Vec<TrainingRoomId>>::empty(),
    {
        TrainingAcademy::new()
    }
}

impl TrainingAcademy {
    /// All tables are well formed, and so is every room.
    pub open spec fn wf(self) -> bool {
        &&& self.rooms.wf()
        &&& self.curricula.wf()
        &&& self.agent_history.wf()
        &&& forall|k: Seq<char>| #[trigger] self.rooms@.contains_key(k) ==> self.rooms@[k].wf()
    }

    /// The rooms `agent` was enrolled in, in order of enrollment.
    pub open spec fn history(self, agent: Seq<char>) -> Seq<TrainingRoomId> {
        if self.agent_history@.contains_key(agent) {
            self.agent_history@[agent]@
        } else {
            Seq::empty()
        }
    }

    /// `room_id` names a room with space for one more trainee.
    pub open spec fn has_place(self, room_id: Seq<char>) -> bool {
        self.rooms@.contains_key(room_id) && self.rooms@[room_id].trainees@.len()
            < self.rooms@[room_id].max_trainees
    }

    /// `after` is this academy once `agent` has been enrolled in the room
    /// `room_id`: that room took the agent in, the agent's history ends with
    /// the room, and nothing else changed.
    pub open spec fn enrolled_as(self, room_id: TrainingRoomId, agent: String, after: Self) -> bool {
        &&& after.rooms@.contains_key(room_id.0@)
        &&& self.rooms@[room_id.0@].entered_as(agent, after.rooms@[room_id.0@])
        &&& after.rooms@ == self.rooms@.insert(room_id.0@, after.rooms@[room_id.0@])
        &&& after.rooms.keys() == self.rooms.keys()
        &&& after.rooms.values() == self.rooms.values().update(
            self.rooms.keys().index_of(room_id.0@),
            after.rooms@[room_id.0@],
        )
        &&& after.curricula == self.curricula
        &&& after.agent_history@.dom() == self.agent_history@.dom().insert(agent@)
        &&& after.history(agent@) == self.history(agent@).push(room_id)
        &&& forall|a: Seq<char>| a != agent@ ==> #[trigger] after.history(a) == self.history(a)
    }

    /// `after` is this academy once a room named `id` has been opened for
    /// the curriculum registered under `name`: the room is named after the
    /// curriculum and numbered one past the rooms open before, holds a copy
    /// of the curriculum, is empty, has no mentor and room for 10, and
    /// nothing else changed.
    pub open spec fn room_opened(self, name: Seq<char>, id: TrainingRoomId, after: Self) -> bool {
        let room = after.rooms@[id.0@];
        &&& id.0@ == name + "-"@ + decimal((self.rooms@.len() + 1) as nat)
        &&& after.rooms@ == self.rooms@.insert(id.0@, room)
        &&& !self.rooms@.contains_key(id.0@) ==> after.rooms.values() == self.rooms.values().push(
            room,
        )
        &&& self.rooms@.contains_key(id.0@) ==> after.rooms.values() == self.rooms.values().update(
            self.rooms.keys().index_of(id.0@),
            room,
        )
        &&& room.id.0@ == id.0@
        &&& room.curriculum.same_as(self.curricula@[name])
        &&& room.trainees@ == Map::<Seq<char>, TraineeState>::empty()
        &&& room.trainees.size() == 0
        &&& room.mentor_id is None
        &&& room.max_trainees == ACADEMY_ROOM_CAPACITY
        &&& room.tick == 0
        &&& room.events@.len() == 0
        &&& room.graduation_count == 0
        &&& after.curricula == self.curricula
        &&& after.agent_history == self.agent_history
    }

    /// An academy with no curricula, no rooms and no history.
    pub fn new() -> (academy: Self)
        ensures
            academy.wf(),
            academy.rooms@ == Map::<Seq<char>, TrainingRoom>::empty(),
            academy.rooms.values() == Seq::<TrainingRoom>::empty(),
            academy.curricula@ == Map::<Seq<char>, Curriculum>::empty(),
            academy.agent_history@ == Map::<Seq<char>, Vec<TrainingRoomId>>::empty(),
    {
        TrainingAcademy { rooms: Table::new(), curricula: Table::new(), agent_history: Table::new() }
    }

    /// Registers `curriculum` under its id, replacing one registered under
    /// the same id.
    pub fn add_curriculum(&mut self, curriculum: Curriculum)
        requires
            old(self).wf(),
        ensures
            final(self).wf(),
            final(self).curricula@ == old(self).curricula@.insert(curriculum.id@, curriculum),
            final(self).rooms == old(self).rooms,
            final(self).agent_history == old(self).agent_history,
    {
        let id = curriculum.id.clone();
        self.curricula.insert(id, curriculum);
    }

    /// Opens a room of capacity 10 for the curriculum registered under
    /// `curriculum_name`, named after it and numbered one past the rooms
    /// already open ("name-N"). Returns the room's name, or `None`, changing
    /// nothing, when no such curriculum is registered.
    pub fn create_room(&mut self, curriculum_name: &str) -> (room_id: Option<TrainingRoomId>)
        requires
            old(self).wf(),
            old(self).rooms@.len() < usize::MAX,
        ensures
            final(self).wf(),
            room_id is None <==> !old(self).curricula@.contains_key(curriculum_name@),
            room_id is None ==> *final(self) == *old(self),
            room_id matches Some(id) ==> old(self).room_opened(curriculum_name@, id, *final(self)),
    {
        let curriculum = match self.curricula.get(curriculum_name) {
            Some(c) => c.clone(),
            None => {
                return None;
            },
        };
        let label = hyphenated(curriculum_name, self.rooms.len() + 1);
        let room = TrainingRoom::new(label.as_str(), curriculum, ACADEMY_ROOM_CAPACITY);
        let room_id = TrainingRoomId(label);
        let ghost pre = *self;
        let ghost r = room;
        self.rooms.insert(room_id.clone(), room);
        proof {
            assert(self.rooms@[room_id.0@] == r);
            assert forall|k: Seq<char>| #[trigger]
                self.rooms@.contains_key(k) implies self.rooms@[k].wf() by {
                if k != room_id.0@ {
                    assert(pre.rooms@.contains_key(k));
                }
            }
        }
        Some(room_id)
    }

    /// Enrolls `agent_id` in the room named `room_id` and adds the room to
    /// the agent's history. Returns whether the room exists and had space;
    /// changes nothing otherwise.
    pub fn enroll(&mut self, room_id: &TrainingRoomId, agent_id: String) -> (enrolled: bool)
        requires
            old(self).wf(),
        ensures
            final(self).wf(),
            enrolled == old(self).has_place(room_id.0@),
            !enrolled ==> *final(self) == *old(self),
            enrolled ==> old(self).enrolled_as(*room_id, agent_id, *final(self)),
    {
        let i = match self.rooms.index_of(room_id.0.as_str()) {
            Some(i) => i,
            None => {
                return false;
            },
        };
        let ghost pre = *self;
        proof {
            self.rooms.lemma_entry(i as int);
            self.rooms@[room_id.0@].trainees.lemma_model();
        }
        let full = {
            let room = self.rooms.value_at(i);
            room.trainees.len() >= room.max_trainees
        };
        if full {
            return false;
        }
        let (key, mut room) = self.rooms.remove_at(i);
        let entered = room.enter(agent_id.clone());
        let ghost r1 = room;
        proof {
            self.rooms.lemma_model();
        }
        self.rooms.insert_at(i, key, room);
        proof {
            assert(entered);
            assert(self.rooms.keys() =~= pre.rooms.keys());
            assert(self.rooms@ =~= pre.rooms@.insert(room_id.0@, r1));
            assert(self.rooms.values() =~= pre.rooms.values().update(i as int, r1));
            assert forall|k: Seq<char>| #[trigger]
                self.rooms@.contains_key(k) implies self.rooms@[k].wf() by {
                if k != room_id.0@ {
                    assert(pre.rooms@.contains_key(k));
                }
            }
        }
        let ghost mid = *self;
        match self.agent_history.index_of(agent_id.as_str()) {
            Some(j) => {
                proof {
                    self.agent_history.lemma_entry(j as int);
                }
                let (k, mut ids) = self.agent_history.remove_at(j);
                ids.push(room_id.clone());
                let ghost v1 = ids;
                proof {
                    self.agent_history.lemma_model();
                }
                self.agent_history.insert_at(j, k, ids);
                proof {
                    assert(self.agent_history@ =~= mid.agent_history@.insert(agent_id@, v1));
                }
            },
            None => {
                let mut ids: Vec<TrainingRoomId> = Vec::new();
                ids.push(room_id.clone());
                proof {
                    assert(ids@ =~= Seq::<TrainingRoomId>::empty().push(*room_id));
                }
                self.agent_history.insert(agent_id, ids);
            },
        }
        proof {
            assert(self.agent_history@.dom() =~= pre.agent_history@.dom().insert(agent_id@));
        }
        true
    }

    /// The rooms `agent_id` was enrolled in, in order of enrollment, leaving
    /// out names of rooms that no longer exist.
    pub fn agent_rooms(&self, agent_id: &str) -> (rooms: Vec<&TrainingRoom>)
        requires
            self.wf(),
        ensures
            rooms@.unref() == rooms_along(self.rooms@, self.history(agent_id@)),
    {
        let mut rooms: Vec<&TrainingRoom> = Vec::new();
        match self.agent_history.get(agent_id) {
            None => {
                proof {
                    assert(rooms@.unref() =~= Seq::<TrainingRoom>::empty());
                }
            },
            Some(ids) => {
                let n = ids.len();
                let mut i: usize = 0;
                while i < n
                    invariant
                        self.wf(),
                        n == ids@.len(),
                        ids@ == self.history(agent_id@),
                        i <= n,
                        rooms@.unref() == rooms_along(self.rooms@, ids@.take(i as int)),
                    decreases n - i,
                {
                    proof {
                        assert(ids@.take(i + 1).drop_last() =~= ids@.take(i as int));
                    }
                    match self.rooms.get(ids[i].0.as_str()) {
                        Some(r) => {
                            rooms.push(r);
                        },
                        None => {},
                    }
                    proof {
                        assert(rooms@.unref() =~= rooms_along(self.rooms@, ids@.take(i + 1)));
                    }
                    i = i + 1;
                }
                proof {
                    assert(ids@.take(n as int) =~= ids@);
                }
            },
        }
        rooms
    }

    /// Aggregate figures: the number of rooms, of trainees over all rooms, of
    /// graduations over all rooms, of curricula, and of rooms with at least
    /// one trainee.
    pub fn academy_stats(&self) -> (stats: AcademyStats)
        requires
            self.wf(),
            enrollment_sum(self.rooms.values()) <= usize::MAX,
            graduation_sum(self.rooms.values()) <= u32::MAX,
        ensures
            stats.total_rooms == self.rooms@.len(),
            stats.total_enrollments == enrollment_sum(self.rooms.values()),
            stats.total_graduations == graduation_sum(self.rooms.values()),
            stats.curricula_offered == self.curricula@.len(),
            stats.active_rooms == occupied_count(self.rooms.values()),
    {
        let n = self.rooms.len();
        let ghost vals = self.rooms.values();
        let mut enrollments: usize = 0;
        let mut graduations: u32 = 0;
        let mut active: usize = 0;
        let mut i: usize = 0;
        while i < n
            invariant
                self.wf(),
                n == self.rooms.size(),
                vals == self.rooms.values(),
                vals.len() == n,
                i <= n,
                enrollment_sum(vals) <= usize::MAX,
                graduation_sum(vals) <= u32::MAX,
                enrollments == enrollment_sum(vals.take(i as int)),
                graduations == graduation_sum(vals.take(i as int)),
                active == occupied_count(vals.take(i as int)),
                active <= i,
            decreases n - i,
        {
            proof {
                assert(vals.take(i + 1).drop_last() =~= vals.take(i as int));
                lemma_sums_grow(vals, i as int + 1);
            }
            let room = self.rooms.value_at(i);
            proof {
                self.rooms.lemma_entry(i as int);
                room.trainees.lemma_model();
            }
            let size = room.trainees.len();
            enrollments = enrollments + size;
            graduations = graduations + room.graduation_count;
            if size > 0 {
                active = active + 1;
            }
            i = i + 1;
        }
        proof {
            assert(vals.take(n as int) =~= vals);
        }
        AcademyStats {
            total_rooms: n,
            total_enrollments: enrollments,
            total_graduations: graduations as usize,
            curricula_offered: self.curricula.len(),
            active_rooms: active,
        }
    }
}

/// Sums over a prefix never exceed the sums over the whole.
pub proof fn lemma_sums_grow(rooms: Seq<TrainingRoom>, i: int)
    requires
        0 <= i <= rooms.len(),
    ensures
        enrollment_sum(rooms.take(i)) <= enrollment_sum(rooms),
        graduation_sum(rooms.take(i)) <= graduation_sum(rooms),
    decreases rooms.len() - i,
{
    if i < rooms.len() {
        lemma_sums_grow(rooms, i + 1);
        assert(rooms.take(i + 1).drop_last() =~= rooms.take(i));
    } else {
        assert(rooms.take(i) =~= rooms);
    }
}

} // verus!
