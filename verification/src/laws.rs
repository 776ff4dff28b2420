//! Properties of the library that span several operations.
use vstd::prelude::*;

use crate::academy::{
    enrollment_sum, graduation_sum, occupied_count, rooms_along, TrainingAcademy,
};
use crate::curriculum::TrainingRoomId;
use crate::progress::{clamp_spec as clamp_of, observed_progress_spec};
use crate::progress::{
    clamp_spec, lemma_sum_take_step, mean_of, observation_gain_spec, sum_of, PROGRESS_SCALE,
};
use crate::room::{active_among, graduated_among, lemma_partition_len, TrainingRoom};
use crate::text::{decimal, digit_char, summary_text};
use crate::trainee::TraineeState;

verus! {

/// Scores are not accumulated: after two recorded attempts of an agent at a
/// skill, the skill's progress is the second score, clamped into one whole.
pub proof fn law_last_score_is_progress(
    r0: TrainingRoom,
    r1: TrainingRoom,
    r2: TrainingRoom,
    agent: Seq<char>,
    skill: Seq<char>,
    first: i64,
    second: i64,
)
    requires
        r0.trainees@.contains_key(agent),
        r0.attempt_recorded(agent, skill, first, r1),
        r1.attempt_recorded(agent, skill, second, r2),
    ensures
        r2.trainees@[agent].progress(skill) == clamp_spec(second as int),
        r2.trainees@[agent].attempt_count(skill) == (r1.trainees@[agent].attempt_count(skill)
            + 1) as u32,
{
}

/// Watching a peer leaves the peer as it was, and gives the observer exactly
/// 0.3 of the peer's progress (rounded down), capped at one whole; so, with
/// progress values within one whole, an observer never loses progress.
pub proof fn law_observation_only_adds(
    r0: TrainingRoom,
    r1: TrainingRoom,
    observer: Seq<char>,
    target: Seq<char>,
    skill: Seq<char>,
)
    requires
        r0.progress_in_range(),
        r0.trainees@.contains_key(observer),
        r0.trainees@.contains_key(target),
        observer != target,
        r0.observation_recorded(observer, target, skill, r1),
    ensures
        r1.trainees@[target] == r0.trainees@[target],
        r1.trainees@[observer].progress(skill) == if r0.trainees@[observer].progress(skill)
            + observation_gain_spec(r0.trainees@[target].progress(skill)) > PROGRESS_SCALE {
            PROGRESS_SCALE as int
        } else {
            r0.trainees@[observer].progress(skill) + observation_gain_spec(
                r0.trainees@[target].progress(skill),
            )
        },
        r1.trainees@[observer].progress(skill) >= r0.trainees@[observer].progress(skill),
{
    let p = r0.trainees@[observer].progress(skill);
    assert(p <= PROGRESS_SCALE) by {
        if r0.trainees@[observer].skill_progress@.contains_key(skill) {
            assert(r0.trainees@[observer].progress_in_range());
        }
    }
}

/// A mentor set on a room is the mentor of every trainee in it, also of
/// those who enter afterwards.
pub proof fn law_mentor_reaches_all_trainees(
    r0: TrainingRoom,
    mentor: String,
    r1: TrainingRoom,
    agent: String,
    r2: TrainingRoom,
)
    requires
        r0.mentor_set(mentor, r1),
        r1.entered_as(agent, r2),
    ensures
        forall|k: Seq<char>| #[trigger]
            r2.trainees@.contains_key(k) ==> r2.trainees@[k].mentor_id == Some(mentor),
{
    assert forall|k: Seq<char>| #[trigger]
        r2.trainees@.contains_key(k) implies r2.trainees@[k].mentor_id == Some(mentor) by {
        if k != agent@ {
            assert(r1.trainees@.contains_key(k));
            assert(r0.trainees@.contains_key(k));
        }
    }
}

/// Leaving right after entering hands back the fresh state that entering
/// created, and leaves the other trainees as they were.
pub proof fn law_leave_returns_entered_state(
    r0: TrainingRoom,
    agent: String,
    r1: TrainingRoom,
    left: Option<TraineeState>,
    r2: TrainingRoom,
)
    requires
        r0.entered_as(agent, r1),
        left == r1.trainees.lookup(agent@),
        r2.trainees@ == r1.trainees@.remove(agent@),
    ensures
        left matches Some(t) && r0.fresh_trainee(agent, t),
        r2.trainees@ == r0.trainees@.remove(agent@),
{
    assert(r2.trainees@ =~= r0.trainees@.remove(agent@));
}

/// A room whose trainees' progress lies within one whole has each trainee's
/// overall progress in the room, and its own, within one whole.
pub proof fn law_room_progress_in_range(r: TrainingRoom)
    requires
        r.wf(),
        r.progress_in_range(),
    ensures
        forall|k: Seq<char>| #[trigger]
            r.trainees@.contains_key(k) ==> 0 <= r.trainee_overall(r.trainees@[k])
                <= PROGRESS_SCALE,
        0 <= r.overall() <= PROGRESS_SCALE,
{
    assert forall|k: Seq<char>| #[trigger]
        r.trainees@.contains_key(k) implies 0 <= r.trainee_overall(r.trainees@[k])
        <= PROGRESS_SCALE by {
        lemma_room_trainee_in_range(r, r.trainees@[k]);
    }
    r.trainees.lemma_model();
    let vals = r.trainee_overalls();
    assert forall|i: int| 0 <= i < vals.len() implies #[trigger] vals[i] <= PROGRESS_SCALE by {
        r.trainees.lemma_entry(i);
        lemma_room_trainee_in_range(r, r.trainees.values()[i]);
    }
    lemma_mean_at_most_scale(vals);
}

/// A trainee whose progress lies within one whole has overall progress in a
/// room within one whole.
pub proof fn lemma_room_trainee_in_range(r: TrainingRoom, t: TraineeState)
    requires
        t.progress_in_range(),
    ensures
        0 <= r.trainee_overall(t) <= PROGRESS_SCALE,
{
    let vals = r.curriculum_progress(t);
    assert forall|i: int| 0 <= i < vals.len() implies #[trigger] vals[i] <= PROGRESS_SCALE by {
        let id = r.curriculum.skills@[i].skill_id@;
        if t.skill_progress@.contains_key(id) {
            assert(t.skill_progress@[id] <= PROGRESS_SCALE);
        }
    }
    lemma_mean_at_most_scale(vals);
}

/// A trainee whose progress lies within one whole has overall progress
/// within one whole.
pub proof fn law_trainee_overall_in_range(t: TraineeState)
    requires
        t.wf(),
        t.progress_in_range(),
    ensures
        0 <= t.overall() <= PROGRESS_SCALE,
{
    t.skill_progress.lemma_model();
    let vals = t.skill_progress.values();
    assert forall|i: int| 0 <= i < vals.len() implies #[trigger] vals[i] <= PROGRESS_SCALE by {
        t.skill_progress.lemma_entry(i);
    }
    lemma_mean_at_most_scale(vals);
}

/// The mean of values that are all within one whole is within one whole.
pub proof fn lemma_mean_at_most_scale(s: Seq<u32>)
    requires
        forall|i: int| 0 <= i < s.len() ==> #[trigger] s[i] <= PROGRESS_SCALE,
    ensures
        0 <= mean_of(s) <= PROGRESS_SCALE,
{
    lemma_sum_at_most(s, s.len() as int);
    assert(s.take(s.len() as int) =~= s);
    if s.len() > 0 {
        let n = s.len() as int;
        let t = sum_of(s);
        assert(0 <= t / n <= PROGRESS_SCALE) by (nonlinear_arith)
            requires
                n > 0,
                0 <= t <= n * 10000,
        ;
    }
}

/// The first `i` values, each within one whole, add up to at most `i`
/// wholes.
proof fn lemma_sum_at_most(s: Seq<u32>, i: int)
    requires
        0 <= i <= s.len(),
        forall|j: int| 0 <= j < s.len() ==> #[trigger] s[j] <= PROGRESS_SCALE,
    ensures
        0 <= sum_of(s.take(i)) <= i * PROGRESS_SCALE,
    decreases i,
{
    if i > 0 {
        lemma_sum_at_most(s, i - 1);
        lemma_sum_take_step(s, i - 1);
    } else {
        assert(s.take(0) =~= Seq::<u32>::empty());
    }
}

/// Each trainee that `graduated_among` lists stands somewhere in `s`, and
/// has graduated.
pub proof fn lemma_graduated_index(s: Seq<TraineeState>, i: int) -> (j: int)
    requires
        0 <= i < graduated_among(s).len(),
    ensures
        0 <= j < s.len(),
        graduated_among(s)[i] == s[j],
        s[j].graduated,
    decreases s.len(),
{
    let rest = graduated_among(s.drop_last());
    if s.last().graduated && i == rest.len() {
        s.len() - 1
    } else {
        lemma_graduated_index(s.drop_last(), i)
    }
}

/// Each trainee that `active_among` lists stands somewhere in `s`, and has
/// not graduated.
pub proof fn lemma_active_index(s: Seq<TraineeState>, i: int) -> (j: int)
    requires
        0 <= i < active_among(s).len(),
    ensures
        0 <= j < s.len(),
        active_among(s)[i] == s[j],
        !s[j].graduated,
    decreases s.len(),
{
    let rest = active_among(s.drop_last());
    if !s.last().graduated && i == rest.len() {
        s.len() - 1
    } else {
        lemma_active_index(s.drop_last(), i)
    }
}

/// The graduated and the active trainees of a room together number all its
/// trainees, and no agent is among both.
pub proof fn law_graduated_and_active_partition(r: TrainingRoom)
    requires
        r.wf(),
        r.filed_by_agent(),
    ensures
        graduated_among(r.trainees.values()).len() + active_among(r.trainees.values()).len()
            == r.trainees@.len(),
        forall|i: int, j: int|
            0 <= i < graduated_among(r.trainees.values()).len() && 0 <= j < active_among(
                r.trainees.values(),
            ).len() ==> #[trigger] graduated_among(r.trainees.values())[i].agent_id@
                != #[trigger] active_among(r.trainees.values())[j].agent_id@,
{
    let vals = r.trainees.values();
    r.trainees.lemma_model();
    lemma_partition_len(vals);
    assert forall|i: int, j: int|
        0 <= i < graduated_among(vals).len() && 0 <= j < active_among(vals).len()
            implies #[trigger] graduated_among(vals)[i].agent_id@
        != #[trigger] active_among(vals)[j].agent_id@ by {
        let gi = lemma_graduated_index(vals, i);
        let aj = lemma_active_index(vals, j);
        r.trainees.lemma_entry(gi);
        r.trainees.lemma_entry(aj);
        assert(r.trainees.keys()[gi] != r.trainees.keys()[aj]);
    }
}

/// An agent enrolled in a room finds it at the end of the rooms listed for
/// them.
pub proof fn law_enrolled_room_is_listed(
    a0: TrainingAcademy,
    room_id: TrainingRoomId,
    agent: String,
    a1: TrainingAcademy,
)
    requires
        a0.enrolled_as(room_id, agent, a1),
    ensures
        rooms_along(a1.rooms@, a1.history(agent@)) == rooms_along(
            a1.rooms@,
            a0.history(agent@),
        ).push(a1.rooms@[room_id.0@]),
{
    assert(a1.history(agent@).drop_last() =~= a0.history(agent@));
}

/// A room opened by the academy takes an enrollment.
pub proof fn law_opened_room_has_place(
    a0: TrainingAcademy,
    name: Seq<char>,
    id: TrainingRoomId,
    a1: TrainingAcademy,
)
    requires
        a0.room_opened(name, id, a1),
    ensures
        a1.has_place(id.0@),
{
}

/// Replacing one room changes the academy's sums by that room's share.
pub proof fn lemma_sums_update(s: Seq<TrainingRoom>, i: int, r: TrainingRoom)
    requires
        0 <= i < s.len(),
    ensures
        enrollment_sum(s.update(i, r)) == enrollment_sum(s) - s[i].trainees@.len()
            + r.trainees@.len(),
        graduation_sum(s.update(i, r)) == graduation_sum(s) - s[i].graduation_count
            + r.graduation_count,
        occupied_count(s.update(i, r)) == occupied_count(s) - (if s[i].trainees@.len() > 0 {
            1int
        } else {
            0int
        }) + (if r.trainees@.len() > 0 {
            1int
        } else {
            0int
        }),
    decreases s.len(),
{
    let u = s.update(i, r);
    if i == s.len() - 1 {
        assert(u.drop_last() =~= s.drop_last());
    } else {
        assert(u.drop_last() =~= s.drop_last().update(i, r));
        lemma_sums_update(s.drop_last(), i, r);
    }
}

/// Enrolling an agent who was not yet in the room adds one to the
/// academy's enrollments, and leaves its graduations as they were.
pub proof fn law_enrollment_counted(
    a0: TrainingAcademy,
    room_id: TrainingRoomId,
    agent: String,
    a1: TrainingAcademy,
)
    requires
        a0.wf(),
        a1.wf(),
        a0.enrolled_as(room_id, agent, a1),
        !a0.rooms@[room_id.0@].trainees@.contains_key(agent@),
    ensures
        enrollment_sum(a1.rooms.values()) == enrollment_sum(a0.rooms.values()) + 1,
        graduation_sum(a1.rooms.values()) == graduation_sum(a0.rooms.values()),
        occupied_count(a1.rooms.values()) >= occupied_count(a0.rooms.values()),
{
    let k = room_id.0@;
    a0.rooms.lemma_model();
    a1.rooms.lemma_model();
    let i = a0.rooms.keys().index_of(k);
    a0.rooms.lemma_entry(i);
    let r0 = a0.rooms@[k];
    let r1 = a1.rooms@[k];
    assert(a1.rooms.values() =~= a0.rooms.values().update(i, r1)) by {
        assert forall|j: int| 0 <= j < a1.rooms.size() implies #[trigger] a1.rooms.values()[j]
            == a0.rooms.values().update(i, r1)[j] by {
            a1.rooms.lemma_entry(j);
            a0.rooms.lemma_entry(j);
        }
    }
    lemma_sums_update(a0.rooms.values(), i, r1);
    assert(r0.wf());
    assert(r1.wf());
    r0.trainees.lemma_model();
    r1.trainees.lemma_model();
    assert(r1.trainees@.dom() =~= r0.trainees@.dom().insert(agent@));
}

/// Two rooms opened one after the other get different names, provided the
/// first name was not taken before.
pub proof fn law_opened_rooms_differ(
    a0: TrainingAcademy,
    first_name: Seq<char>,
    first: TrainingRoomId,
    a1: TrainingAcademy,
    second_name: Seq<char>,
    second: TrainingRoomId,
    a2: TrainingAcademy,
)
    requires
        a0.wf(),
        a1.wf(),
        !a0.rooms@.contains_key(first.0@),
        a0.room_opened(first_name, first, a1),
        a1.room_opened(second_name, second, a2),
    ensures
        first.0@ != second.0@,
{
    a0.rooms.lemma_model();
    a1.rooms.lemma_model();
    let n = a0.rooms@.len();
    assert(a1.rooms@.dom() =~= a0.rooms@.dom().insert(first.0@));
    assert(a1.rooms@.len() == n + 1);
    let d1 = decimal((n + 1) as nat);
    let d2 = decimal((n + 2) as nat);
    lemma_decimal_has_no_hyphen((n + 1) as nat);
    lemma_decimal_has_no_hyphen((n + 2) as nat);
    if first.0@ == second.0@ {
        lemma_last_segment(first_name, d1, second_name, d2);
        lemma_decimal_injective((n + 1) as nat, (n + 2) as nat);
    }
}

/// No decimal numeral holds a hyphen.
pub proof fn lemma_decimal_has_no_hyphen(n: nat)
    ensures
        forall|i: int| 0 <= i < decimal(n).len() ==> #[trigger] decimal(n)[i] != '-',
        decimal(n).len() >= 1,
    decreases n,
{
    if n >= 10 {
        lemma_decimal_has_no_hyphen(n / 10);
    }
}

/// Different numbers have different decimal numerals.
pub proof fn lemma_decimal_injective(a: nat, b: nat)
    requires
        decimal(a) == decimal(b),
    ensures
        a == b,
    decreases a,
{
    lemma_decimal_has_no_hyphen(a / 10);
    lemma_decimal_has_no_hyphen(b / 10);
    if a < 10 && b < 10 {
        assert(decimal(a)[0] == decimal(b)[0]);
        assert(decimal(a)[0] == digit_char(a));
        assert(decimal(b)[0] == digit_char(b));
        lemma_digit_injective(a, b);
    } else if a < 10 {
        assert(decimal(b).len() >= 2);
    } else if b < 10 {
        assert(decimal(a).len() >= 2);
    } else {
        let da = decimal(a);
        let db = decimal(b);
        assert(da.last() == db.last());
        assert(da.drop_last() =~= decimal(a / 10));
        assert(db.drop_last() =~= decimal(b / 10));
        lemma_decimal_injective(a / 10, b / 10);
        assert(digit_char(a % 10) == digit_char(b % 10));
        lemma_digit_injective(a % 10, b % 10);
    }
}

/// Different digits are different characters.
pub proof fn lemma_digit_injective(a: nat, b: nat)
    requires
        a < 10,
        b < 10,
        digit_char(a) == digit_char(b),
    ensures
        a == b,
{
}

/// Two texts that each end in a hyphen and a hyphen-free tail agree on the
/// tail when they are equal.
pub proof fn lemma_last_segment(x: Seq<char>, d1: Seq<char>, y: Seq<char>, d2: Seq<char>)
    requires
        x + "-"@ + d1 == y + "-"@ + d2,
        forall|i: int| 0 <= i < d1.len() ==> #[trigger] d1[i] != '-',
        forall|i: int| 0 <= i < d2.len() ==> #[trigger] d2[i] != '-',
    ensures
        d1 == d2,
{
    reveal_strlit("-");
    let s = x + "-"@ + d1;
    let t = y + "-"@ + d2;
    let n = s.len();
    assert(s[n - d1.len() - 1] == '-');
    assert(t[n - d2.len() - 1] == '-');
    if d1.len() < d2.len() {
        let p = n - d1.len() - 1;
        assert(t[p] == d2[p - (n - d2.len())]);
        assert(false);
    } else if d2.len() < d1.len() {
        let p = n - d2.len() - 1;
        assert(s[p] == d1[p - (n - d1.len())]);
        assert(false);
    }
    assert(d1 =~= d2) by {
        assert forall|i: int| 0 <= i < d1.len() implies d1[i] == d2[i] by {
            assert(s[n - d1.len() + i] == d1[i]);
            assert(t[n - d2.len() + i] == d2[i]);
        }
    }
}

/// A skill is mastered exactly when a progress of at least 0.99 is recorded
/// for it; a skill with no recorded progress has progress 0 and is not
/// mastered.
pub proof fn law_mastered_iff_recorded_at_least_mastery(t: TraineeState, skill: Seq<char>)
    ensures
        t.mastered(skill) <==> (t.skill_progress@.contains_key(skill)
            && t.skill_progress@[skill] >= 9900),
        t.skill_progress@.contains_key(skill) ==> t.progress(skill) == t.skill_progress@[skill],
        !t.skill_progress@.contains_key(skill) ==> t.progress(skill) == 0 && !t.mastered(skill),
        t.attempts@.contains_key(skill) ==> t.attempt_count(skill) == t.attempts@[skill],
        !t.attempts@.contains_key(skill) ==> t.attempt_count(skill) == 0,
{
}

/// An agent is ready to graduate exactly when it is in the room and the
/// progress it has recorded on every skill of the curriculum, the last one
/// included, is at least 0.99. So `check_graduation` answers `true` exactly
/// then, and a trainee with any curriculum skill below 0.99 does not
/// graduate.
pub proof fn law_graduation_means_every_skill_mastered(r: TrainingRoom, agent: Seq<char>)
    ensures
        r.ready_to_graduate(agent) <==> (r.trainees@.contains_key(agent) && forall|i: int|
            0 <= i < r.curriculum.skills@.len() ==> r.trainees@[agent].skill_progress@.contains_key(
                #[trigger] r.curriculum.skills@[i].skill_id@,
            ) && r.trainees@[agent].skill_progress@[r.curriculum.skills@[i].skill_id@] >= 9900),
{
    if r.trainees@.contains_key(agent) {
        let t = r.trainees@[agent];
        assert forall|i: int| 0 <= i < r.curriculum.skills@.len() implies (t.mastered(
            r.curriculum.skills@[i].skill_id@,
        ) <==> (t.skill_progress@.contains_key(#[trigger] r.curriculum.skills@[i].skill_id@)
            && t.skill_progress@[r.curriculum.skills@[i].skill_id@] >= 9900)) by {
            law_mastered_iff_recorded_at_least_mastery(t, r.curriculum.skills@[i].skill_id@);
        }
    }
}

/// Every trainee `graduated_among` lists has graduated and stands in `s`,
/// every graduated trainee of `s` is listed, and likewise for
/// `active_among` and the trainees that have not graduated; the two lists
/// together are as long as `s`.
pub proof fn law_graduated_and_active_lists(s: Seq<TraineeState>)
    ensures
        forall|i: int|
            0 <= i < graduated_among(s).len() ==> #[trigger] graduated_among(s)[i].graduated
                && s.contains(graduated_among(s)[i]),
        forall|i: int|
            0 <= i < active_among(s).len() ==> !#[trigger] active_among(s)[i].graduated
                && s.contains(active_among(s)[i]),
        forall|j: int| 0 <= j < s.len() && s[j].graduated ==> graduated_among(s).contains(#[trigger] s[j]),
        forall|j: int| 0 <= j < s.len() && !s[j].graduated ==> active_among(s).contains(#[trigger] s[j]),
        graduated_among(s).len() + active_among(s).len() == s.len(),
{
    lemma_partition_len(s);
    assert forall|i: int| 0 <= i < graduated_among(s).len() implies #[trigger] graduated_among(
        s,
    )[i].graduated && s.contains(graduated_among(s)[i]) by {
        let j = lemma_graduated_index(s, i);
    }
    assert forall|i: int| 0 <= i < active_among(s).len() implies !#[trigger] active_among(
        s,
    )[i].graduated && s.contains(active_among(s)[i]) by {
        let j = lemma_active_index(s, i);
    }
    assert forall|j: int| 0 <= j < s.len() && s[j].graduated implies graduated_among(s).contains(
        #[trigger] s[j],
    ) by {
        lemma_graduated_listed(s, j);
    }
    assert forall|j: int| 0 <= j < s.len() && !s[j].graduated implies active_among(s).contains(
        #[trigger] s[j],
    ) by {
        lemma_active_listed(s, j);
    }
}

/// A graduated trainee of `s` is listed by `graduated_among`.
proof fn lemma_graduated_listed(s: Seq<TraineeState>, j: int)
    requires
        0 <= j < s.len(),
        s[j].graduated,
    ensures
        graduated_among(s).contains(s[j]),
    decreases s.len(),
{
    let rest = graduated_among(s.drop_last());
    if j == s.len() - 1 {
        assert(graduated_among(s)[rest.len() as int] == s[j]);
    } else {
        lemma_graduated_listed(s.drop_last(), j);
        let k = rest.index_of(s[j]);
        assert(s.drop_last()[j] == s[j]);
        assert(graduated_among(s)[k] == s[j]);
    }
}

/// A trainee of `s` that has not graduated is listed by `active_among`.
proof fn lemma_active_listed(s: Seq<TraineeState>, j: int)
    requires
        0 <= j < s.len(),
        !s[j].graduated,
    ensures
        active_among(s).contains(s[j]),
    decreases s.len(),
{
    let rest = active_among(s.drop_last());
    if j == s.len() - 1 {
        assert(active_among(s)[rest.len() as int] == s[j]);
    } else {
        lemma_active_listed(s.drop_last(), j);
        let k = rest.index_of(s[j]);
        assert(s.drop_last()[j] == s[j]);
        assert(active_among(s)[k] == s[j]);
    }
}

/// The report counts as graduated the trainees now in the room whose flag
/// is set, and as active those whose flag is not; its progress figure is
/// the room's overall progress in tenths of a percent, rounded halves up.
pub proof fn law_summary_counts_trainees_by_flag(r: TrainingRoom)
    requires
        r.wf(),
    ensures
        r.summary_spec() == summary_text(
            r.id.0@,
            r.curriculum.name@,
            r.trainees@.len(),
            active_among(r.trainees.values()).len(),
            graduated_among(r.trainees.values()).len(),
            ((r.overall() + 5) / 10 / 10) as nat,
            ((r.overall() + 5) / 10 % 10) as nat,
            match r.mentor_id {
                Some(m) => m@,
                None => "none"@,
            },
        ),
{
    r.trainees.lemma_model();
    lemma_partition_len(r.trainees.values());
}

/// Each digit is the character whose code is that of '0' plus the digit.
pub proof fn law_digit_codes(d: nat)
    requires
        d < 10,
    ensures
        digit_char(d) as int == 48 + d,
{
}

/// The number that a text of decimal digits stands for.
pub open spec fn numeral_value(s: Seq<char>) -> int
    decreases s.len(),
{
    if s.len() == 0 {
        0
    } else {
        numeral_value(s.drop_last()) * 10 + (s.last() as int - 48)
    }
}

/// `decimal(n)` is the ordinary base-ten numeral of `n`: a non-empty text of
/// digits that reads back as `n`, with no leading zero.
pub proof fn law_decimal_reads_back(n: nat)
    ensures
        numeral_value(decimal(n)) == n,
        decimal(n).len() >= 1,
        forall|i: int| 0 <= i < decimal(n).len() ==> 48 <= #[trigger] (decimal(n)[i] as int) <= 57,
        decimal(n).len() > 1 ==> decimal(n)[0] != '0',
        n >= 10 ==> decimal(n).len() >= 2,
    decreases n,
{
    if n < 10 {
        law_digit_codes(n);
        assert(decimal(n).drop_last() =~= Seq::<char>::empty());
        assert(numeral_value(Seq::<char>::empty()) == 0);
        assert(numeral_value(decimal(n)) == numeral_value(decimal(n).drop_last()) * 10 + (
        decimal(n).last() as int - 48));
    } else {
        law_decimal_reads_back(n / 10);
        law_digit_codes(n % 10);
        let d = decimal(n);
        assert(d.drop_last() =~= decimal(n / 10));
        assert(d.last() == digit_char(n % 10));
        assert(n == (n / 10) * 10 + n % 10);
        assert(numeral_value(d) == numeral_value(d.drop_last()) * 10 + (d.last() as int - 48));
        assert forall|i: int| 0 <= i < d.len() implies 48 <= #[trigger] (d[i] as int) <= 57 by {
            if i < d.len() - 1 {
                assert(d[i] == decimal(n / 10)[i]);
            }
        }
        assert(d[0] == decimal(n / 10)[0]);
        if n / 10 < 10 {
            law_digit_codes(n / 10);
        }
    }
}

/// The name of a room the academy opens is the curriculum's name, a
/// hyphen, and a numeral that reads back as one more than the number of
/// rooms open before.
pub proof fn law_room_number_reads_back(
    a0: TrainingAcademy,
    name: Seq<char>,
    id: TrainingRoomId,
    a1: TrainingAcademy,
)
    requires
        a0.room_opened(name, id, a1),
    ensures
        id.0@.subrange(0, name.len() as int) == name,
        id.0@[name.len() as int] == '-',
        numeral_value(id.0@.subrange(name.len() as int + 1, id.0@.len() as int)) == a0.rooms@.len() + 1,
{
    reveal_strlit("-");
    let d = decimal((a0.rooms@.len() + 1) as nat);
    assert(id.0@ == name + "-"@ + d);
    assert(id.0@.subrange(0, name.len() as int) =~= name);
    assert(id.0@.subrange(name.len() as int + 1, id.0@.len() as int) =~= d);
    law_decimal_reads_back((a0.rooms@.len() + 1) as nat);
}

/// The academy's figures add up room by room: over no rooms they are 0,
/// and one more room adds its trainees, its graduations, and one occupied
/// room if it holds a trainee.
pub proof fn law_academy_sums_add_up(s: Seq<TrainingRoom>, r: TrainingRoom)
    ensures
        enrollment_sum(Seq::<TrainingRoom>::empty()) == 0,
        graduation_sum(Seq::<TrainingRoom>::empty()) == 0,
        occupied_count(Seq::<TrainingRoom>::empty()) == 0,
        enrollment_sum(s.push(r)) == enrollment_sum(s) + r.trainees@.len(),
        graduation_sum(s.push(r)) == graduation_sum(s) + r.graduation_count,
        occupied_count(s.push(r)) == occupied_count(s) + if r.trainees@.len() > 0 {
            1int
        } else {
            0int
        },
{
    assert(s.push(r).drop_last() =~= s);
}

/// Sums of progress values add up value by value, and a mean is the sum
/// divided by the count, rounded down: at most the sum when multiplied back,
/// and more than it once one is added.
pub proof fn law_sum_and_mean(s: Seq<u32>, x: u32)
    ensures
        sum_of(Seq::<u32>::empty()) == 0,
        sum_of(s.push(x)) == sum_of(s) + x,
        s.len() == 0 ==> mean_of(s) == 0,
        s.len() > 0 ==> mean_of(s) * s.len() <= sum_of(s) < (mean_of(s) + 1) * s.len(),
{
    assert(s.push(x).drop_last() =~= s);
    if s.len() > 0 {
        let n = s.len() as int;
        let t = sum_of(s);
        assert((t / n) * n <= t < (t / n + 1) * n) by (nonlinear_arith)
            requires
                n > 0,
        ;
    }
}

/// Clamping keeps values within one whole and leaves values already within
/// it alone; an observer's new progress is its own plus 0.3 of the target's,
/// rounded down to a ten-thousandth and capped at one whole.
pub proof fn law_clamp_and_observation(x: int, current: u32, target: u32)
    ensures
        0 <= clamp_of(x) <= 10000,
        0 <= x <= 10000 ==> clamp_of(x) == x,
        x < 0 ==> clamp_of(x) == 0,
        x > 10000 ==> clamp_of(x) == 10000,
        observation_gain_spec(target) * 10000 <= target * 3000 < (observation_gain_spec(target)
            + 1) * 10000,
        observed_progress_spec(current, target) == if current + observation_gain_spec(target)
            > 10000 {
            10000
        } else {
            current + observation_gain_spec(target)
        },
{
    let p = target * 3000;
    assert((p / 10000) * 10000 <= p < (p / 10000 + 1) * 10000) by (nonlinear_arith)
        requires
            p >= 0,
    ;
}

/// The rooms listed along a history are the existing rooms it names: each
/// listed room is a room of the academy, a named room that exists is listed,
/// and there are never more listed rooms than names.
pub proof fn law_rooms_along_lists_existing(
    rooms: Map<Seq<char>, TrainingRoom>,
    ids: Seq<TrainingRoomId>,
)
    ensures
        rooms_along(rooms, ids).len() <= ids.len(),
        forall|i: int|
            0 <= i < ids.len() && rooms.contains_key(#[trigger] ids[i].0@) ==> rooms_along(
                rooms,
                ids,
            ).contains(rooms[ids[i].0@]),
        (forall|i: int| 0 <= i < ids.len() ==> rooms.contains_key(#[trigger] ids[i].0@))
            ==> rooms_along(rooms, ids).len() == ids.len(),
    decreases ids.len(),
{
    if ids.len() > 0 {
        let rest = ids.drop_last();
        law_rooms_along_lists_existing(rooms, rest);
        let out = rooms_along(rooms, ids);
        let prev = rooms_along(rooms, rest);
        assert forall|i: int|
            0 <= i < ids.len() && rooms.contains_key(#[trigger] ids[i].0@) implies out.contains(
            rooms[ids[i].0@],
        ) by {
            if i == ids.len() - 1 {
                assert(out[prev.len() as int] == rooms[ids[i].0@]);
            } else {
                assert(rest[i] == ids[i]);
                assert(rooms.contains_key(rest[i].0@));
                let k = prev.index_of(rooms[ids[i].0@]);
                assert(out[k] == rooms[ids[i].0@]);
            }
        }
        if forall|i: int| 0 <= i < ids.len() ==> rooms.contains_key(#[trigger] ids[i].0@) {
            assert forall|i: int| 0 <= i < rest.len() implies rooms.contains_key(
                #[trigger] rest[i].0@,
            ) by {
                assert(rest[i] == ids[i]);
            }
            assert(rooms.contains_key(ids[ids.len() - 1].0@));
        }
    }
}

/// A trainee's overall progress in a room is the floored mean of its
/// progress on the curriculum's skills, taken in curriculum order, an
/// unrecorded skill counting as 0.
pub proof fn law_trainee_overall_is_curriculum_mean(r: TrainingRoom, t: TraineeState)
    ensures
        r.curriculum_progress(t).len() == r.curriculum.skills@.len(),
        forall|i: int|
            0 <= i < r.curriculum.skills@.len() ==> #[trigger] r.curriculum_progress(t)[i] == (
            if t.skill_progress@.contains_key(r.curriculum.skills@[i].skill_id@) {
                t.skill_progress@[r.curriculum.skills@[i].skill_id@]
            } else {
                0u32
            }),
        r.trainee_overall(t) == mean_of(r.curriculum_progress(t)),
        r.curriculum.skills@.len() == 0 ==> r.trainee_overall(t) == 0,
{
}

} // verus!
