use lau_training_room::{
    advanced_farming, agent_composition_101, builder_fundamentals, conservation_basics,
    leadership_training, EvalMethod, Table, TraineeState, TrainingAcademy, TrainingCategory,
    TrainingRoom, TrainingRoomId,
};

/// A fraction of one whole, in the library's ten-thousandths.
fn bp(x: f64) -> i64 {
    (x * 10000.0).round() as i64
}

/// A progress value in ten-thousandths, as a fraction of one whole.
fn frac(p: u32) -> f64 {
    p as f64 / 10000.0
}

// --- TrainingRoomId ---

#[test]
fn test_training_room_id_newtype() {
    let id1 = TrainingRoomId("r1".to_string());
    let id2 = TrainingRoomId("r1".to_string());
    let id3 = TrainingRoomId("r2".to_string());
    assert_eq!(id1, id2);
    assert_ne!(id1, id3);
    assert_eq!(id1.to_string(), "r1");
}

#[test]
fn test_training_room_id_hash() {
    let mut set = std::collections::HashSet::new();
    set.insert(TrainingRoomId("a".to_string()));
    set.insert(TrainingRoomId("a".to_string()));
    set.insert(TrainingRoomId("b".to_string()));
    assert_eq!(set.len(), 2);
}

#[test]
fn test_training_room_id_clone() {
    let id = TrainingRoomId("test-room".to_string());
    let cloned = id.clone();
    assert_eq!(id, cloned);
}

// --- TraineeState ---

#[test]
fn test_trainee_progress_on() {
    let room_id = TrainingRoomId("r1".to_string());
    let mut progress = Table::new();
    progress.insert("crop_rotation".to_string(), bp(0.75) as u32);
    let trainee = TraineeState {
        agent_id: "agent1".to_string(),
        skill_progress: progress,
        attempts: Table::new(),
        mentor_id: None,
        room_id,
        entered_tick: 0,
        graduated: false,
    };
    assert_eq!(frac(trainee.progress_on("crop_rotation")), 0.75);
    assert_eq!(frac(trainee.progress_on("unknown")), 0.0);
}

#[test]
fn test_trainee_is_mastered() {
    let room_id = TrainingRoomId("r1".to_string());
    let mut progress = Table::new();
    progress.insert("skill_a".to_string(), bp(1.0) as u32);
    progress.insert("skill_b".to_string(), bp(0.5) as u32);
    let trainee = TraineeState {
        agent_id: "agent2".to_string(),
        skill_progress: progress,
        attempts: Table::new(),
        mentor_id: None,
        room_id,
        entered_tick: 0,
        graduated: false,
    };
    assert!(trainee.is_mastered("skill_a"));
    assert!(!trainee.is_mastered("skill_b"));
}

#[test]
fn test_trainee_overall_progress() {
    let room_id = TrainingRoomId("r1".to_string());
    let mut progress = Table::new();
    progress.insert("x".to_string(), bp(1.0) as u32);
    progress.insert("y".to_string(), bp(0.5) as u32);
    let trainee = TraineeState {
        agent_id: "agent3".to_string(),
        skill_progress: progress,
        attempts: Table::new(),
        mentor_id: None,
        room_id,
        entered_tick: 0,
        graduated: false,
    };
    assert!((frac(trainee.overall_progress()) - 0.75).abs() < 1e-9);
}

#[test]
fn test_trainee_overall_progress_empty() {
    let room_id = TrainingRoomId("r1".to_string());
    let trainee = TraineeState {
        agent_id: "empty".to_string(),
        skill_progress: Table::new(),
        attempts: Table::new(),
        mentor_id: None,
        room_id,
        entered_tick: 0,
        graduated: false,
    };
    assert_eq!(frac(trainee.overall_progress()), 0.0);
}

#[test]
fn test_trainee_attempt_increments() {
    let room_id = TrainingRoomId("r1".to_string());
    let mut trainee = TraineeState {
        agent_id: "agent5".to_string(),
        skill_progress: Table::new(),
        attempts: Table::new(),
        mentor_id: None,
        room_id,
        entered_tick: 0,
        graduated: false,
    };
    trainee.attempt("mining");
    trainee.attempt("mining");
    trainee.attempt("crafting");
    assert_eq!(trainee.attempts.get("mining"), Some(&2));
    assert_eq!(trainee.attempts.get("crafting"), Some(&1));
}

#[test]
fn test_trainee_update_skill_clamps() {
    let room_id = TrainingRoomId("r1".to_string());
    let mut trainee = TraineeState {
        agent_id: "agent6".to_string(),
        skill_progress: Table::new(),
        attempts: Table::new(),
        mentor_id: None,
        room_id,
        entered_tick: 0,
        graduated: false,
    };
    trainee.update_skill("over", bp(1.5));
    trainee.update_skill("under", bp(-0.5));
    assert!((frac(trainee.progress_on("over")) - 1.0).abs() < 1e-9);
    assert!((frac(trainee.progress_on("under")) - 0.0).abs() < 1e-9);
}

// --- TrainingRoom ---

#[test]
fn test_training_room_new() {
    let room = TrainingRoom::new("room1", builder_fundamentals(), 5);
    assert_eq!(room.id.to_string(), "room1");
    assert_eq!(room.max_trainees, 5);
    assert!(room.mentor_id.is_none());
    assert!(room.trainees.is_empty());
}

#[test]
fn test_set_mentor() {
    let mut room = TrainingRoom::new("r2", conservation_basics(), 3);
    room.set_mentor("mentor-prime".to_string());
    assert_eq!(room.mentor_id, Some("mentor-prime".to_string()));
}

#[test]
fn test_enter_and_leave() {
    let mut room = TrainingRoom::new("r3", builder_fundamentals(), 5);
    assert!(room.enter("alice".to_string()));
    assert!(room.enter("bob".to_string()));
    assert_eq!(room.trainees.len(), 2);

    let left = room.leave("alice".to_string());
    assert!(left.is_some());
    assert_eq!(left.unwrap().agent_id, "alice");
    assert_eq!(room.trainees.len(), 1);
}

#[test]
fn test_enter_when_full() {
    let mut room = TrainingRoom::new("r4", builder_fundamentals(), 1);
    assert!(room.enter("alice".to_string()));
    assert!(!room.enter("bob".to_string()));
    assert_eq!(room.trainees.len(), 1);
}

#[test]
fn test_leave_nonexistent() {
    let mut room = TrainingRoom::new("r5", builder_fundamentals(), 5);
    assert!(room.leave("ghost".to_string()).is_none());
}

#[test]
fn test_record_attempt_updates_progress() {
    let mut room = TrainingRoom::new("r6", builder_fundamentals(), 5);
    room.enter("alice".to_string());
    room.record_attempt("alice", "place_blocks", bp(0.85));
    let alice = room.trainees.get("alice").unwrap();
    assert!((frac(alice.progress_on("place_blocks")) - 0.85).abs() < 1e-9);
    assert_eq!(alice.attempts.get("place_blocks"), Some(&1));
}

#[test]
fn test_record_attempt_ignores_missing_agent() {
    let mut room = TrainingRoom::new("r7", builder_fundamentals(), 5);
    room.record_attempt("ghost", "place_blocks", bp(0.5));
}

#[test]
fn test_record_observation_a2a_learning() {
    let mut room = TrainingRoom::new("r8", builder_fundamentals(), 5);
    room.enter("mentee".to_string());
    room.enter("mentor".to_string());
    room.record_attempt("mentor", "place_blocks", bp(1.0));
    room.record_observation("mentee", "mentor", "place_blocks");
    let mentee = room.trainees.get("mentee").unwrap();
    assert!((frac(mentee.progress_on("place_blocks")) - 0.30).abs() < 1e-9);
}

#[test]
fn test_observation_ignores_missing_target() {
    let mut room = TrainingRoom::new("r8b", builder_fundamentals(), 5);
    room.enter("observer".to_string());
    room.record_observation("observer", "nobody", "place_blocks");
    // Should not panic, progress unchanged
    assert!(
        (frac(room.trainees.get("observer").unwrap().progress_on("place_blocks")) - 0.0).abs()
            < 1e-9
    );
}

#[test]
fn test_check_graduation_all_mastered() {
    let mut room = TrainingRoom::new("r9", builder_fundamentals(), 5);
    room.enter("alice".to_string());
    room.record_attempt("alice", "place_blocks", bp(1.0));
    room.record_attempt("alice", "read_blueprint", bp(1.0));
    room.record_attempt("alice", "conserve_materials", bp(1.0));
    room.record_attempt("alice", "structural_integrity", bp(1.0));
    assert!(room.check_graduation("alice"));
    assert_eq!(room.graduation_count, 1);
}

#[test]
fn test_check_graduation_not_all_mastered() {
    let mut room = TrainingRoom::new("r10", builder_fundamentals(), 5);
    room.enter("alice".to_string());
    room.record_attempt("alice", "place_blocks", bp(1.0));
    assert!(!room.check_graduation("alice"));
    assert_eq!(room.graduation_count, 0);
}

#[test]
fn test_check_graduation_missing_agent() {
    let mut room = TrainingRoom::new("r10b", builder_fundamentals(), 5);
    assert!(!room.check_graduation("nobody"));
    assert_eq!(room.graduation_count, 0);
}

#[test]
fn test_graduated_and_active_agents() {
    let mut room = TrainingRoom::new("r11", conservation_basics(), 5);
    room.enter("alice".to_string());
    room.enter("bob".to_string());
    room.record_attempt("alice", "check_balance", bp(1.0));
    room.record_attempt("alice", "verify_total", bp(1.0));
    room.record_attempt("alice", "correct_error", bp(1.0));
    room.check_graduation("alice");

    let graduated = room.graduated_agents();
    let active = room.active_agents();
    assert_eq!(graduated.len(), 1);
    assert_eq!(active.len(), 1);
    assert_eq!(graduated[0].agent_id, "alice");
    assert_eq!(active[0].agent_id, "bob");
}

#[test]
fn test_room_progress() {
    let mut room = TrainingRoom::new("r12", conservation_basics(), 5);
    room.enter("alice".to_string());
    room.enter("bob".to_string());
    room.record_attempt("alice", "check_balance", bp(1.0));
    room.record_attempt("alice", "verify_total", bp(0.5));
    room.record_attempt("alice", "correct_error", bp(0.0));
    let expected = ((1.0 + 0.5 + 0.0) / 3.0 + 0.0) / 2.0;
    assert!((frac(room.room_progress()) - expected).abs() < 1e-9);
}

#[test]
fn test_room_progress_empty() {
    let room = TrainingRoom::new("r13", conservation_basics(), 5);
    assert_eq!(frac(room.room_progress()), 0.0);
}

#[test]
fn test_events() {
    let mut room = TrainingRoom::new("r14", conservation_basics(), 5);
    room.enter("alice".to_string());
    room.record_attempt("alice", "check_balance", bp(0.9));
    assert_eq!(room.events().len(), 2);
}

#[test]
fn test_summary() {
    let mut room = TrainingRoom::new("r15", conservation_basics(), 5);
    room.enter("alice".to_string());
    room.set_mentor("mentor1".to_string());
    let s = room.summary();
    assert!(s.contains("r15"));
    assert!(s.contains("Conservation Basics"));
    assert!(s.contains("mentor1"));
}

#[test]
fn test_entered_tick_tracking() {
    let mut room = TrainingRoom::new("r16", conservation_basics(), 5);
    room.tick = 42;
    room.enter("alice".to_string());
    assert_eq!(room.trainees.get("alice").unwrap().entered_tick, 42);
}

#[test]
fn test_mentor_id_propagated_on_enter() {
    let mut room = TrainingRoom::new("r17", conservation_basics(), 5);
    room.set_mentor("guru".to_string());
    room.enter("alice".to_string());
    assert_eq!(
        room.trainees.get("alice").unwrap().mentor_id,
        Some("guru".to_string())
    );
}

// --- TrainingAcademy ---

#[test]
fn test_academy_new() {
    let academy = TrainingAcademy::new();
    assert!(academy.rooms.is_empty());
    assert!(academy.curricula.is_empty());
}

#[test]
fn test_add_curriculum() {
    let mut academy = TrainingAcademy::new();
    academy.add_curriculum(conservation_basics());
    assert_eq!(academy.curricula.len(), 1);
}

#[test]
fn test_create_room_from_curriculum() {
    let mut academy = TrainingAcademy::new();
    academy.add_curriculum(conservation_basics());
    let room_id = academy.create_room("conservation-basics");
    assert!(room_id.is_some());
    assert_eq!(academy.rooms.len(), 1);
}

#[test]
fn test_create_room_unknown_curriculum() {
    let mut academy = TrainingAcademy::new();
    let room_id = academy.create_room("nonexistent");
    assert!(room_id.is_none());
    assert!(academy.rooms.is_empty());
}

#[test]
fn test_enroll_and_track_history() {
    let mut academy = TrainingAcademy::new();
    academy.add_curriculum(conservation_basics());
    let room_id = academy.create_room("conservation-basics").unwrap();
    assert!(academy.enroll(&room_id, "alice".to_string()));
    assert!(academy.enroll(&room_id, "bob".to_string()));
    let rooms = academy.agent_rooms("alice");
    assert_eq!(rooms.len(), 1);
    assert_eq!(rooms[0].id.to_string(), room_id.to_string());
}

#[test]
fn test_enroll_when_full() {
    let mut academy = TrainingAcademy::new();
    academy.add_curriculum(conservation_basics());
    let mut tight = TrainingRoom::new("tight", conservation_basics(), 1);
    let tid = TrainingRoomId("tight-room".to_string());
    tight.enter("alice".to_string());
    academy.rooms.insert(tid.clone(), tight);
    academy
        .agent_history
        .insert("alice".to_string(), vec![tid.clone()]);
    // Second enroll should fail
    assert!(!academy.enroll(&tid, "bob".to_string()));
}

#[test]
fn test_enroll_nonexistent_room() {
    let mut academy = TrainingAcademy::new();
    assert!(!academy.enroll(&TrainingRoomId("ghost".to_string()), "alice".to_string()));
}

#[test]
fn test_agent_rooms_unknown() {
    let academy = TrainingAcademy::new();
    assert!(academy.agent_rooms("nobody").is_empty());
}

#[test]
fn test_academy_create_multiple_rooms() {
    let mut academy = TrainingAcademy::new();
    academy.add_curriculum(conservation_basics());
    let r1 = academy.create_room("conservation-basics").unwrap();
    let r2 = academy.create_room("conservation-basics").unwrap();
    assert_ne!(r1, r2);
    assert_eq!(academy.rooms.len(), 2);
}

#[test]
fn test_academy_stats_empty() {
    let academy = TrainingAcademy::new();
    let stats = academy.academy_stats();
    assert_eq!(stats.total_rooms, 0);
    assert_eq!(stats.total_enrollments, 0);
    assert_eq!(stats.total_graduations, 0);
    assert_eq!(stats.curricula_offered, 0);
    assert_eq!(stats.active_rooms, 0);
}

#[test]
fn test_academy_stats_populated() {
    let mut academy = TrainingAcademy::new();
    academy.add_curriculum(conservation_basics());
    academy.add_curriculum(builder_fundamentals());
    let r1 = academy.create_room("conservation-basics").unwrap();
    academy.enroll(&r1, "alice".to_string());
    let stats = academy.academy_stats();
    assert_eq!(stats.total_rooms, 1);
    assert_eq!(stats.total_enrollments, 1);
    assert_eq!(stats.curricula_offered, 2);
    assert_eq!(stats.active_rooms, 1);
}

// --- Pre-built curricula ---

#[test]
fn test_conservation_basics() {
    let c = conservation_basics();
    assert_eq!(c.id, "conservation-basics");
    assert_eq!(c.skills.len(), 3);
    assert!((frac(c.difficulty) - 0.2).abs() < 1e-9);
}

#[test]
fn test_builder_fundamentals() {
    let c = builder_fundamentals();
    assert_eq!(c.skills.len(), 4);
    assert!((frac(c.difficulty) - 0.3).abs() < 1e-9);
}

#[test]
fn test_agent_composition_101() {
    let c = agent_composition_101();
    assert_eq!(c.skills.len(), 3);
    assert!((frac(c.difficulty) - 0.5).abs() < 1e-9);
    assert_eq!(c.prerequisites, vec!["builder-fundamentals"]);
}

#[test]
fn test_advanced_farming() {
    let c = advanced_farming();
    assert_eq!(c.skills.len(), 5);
    assert!((frac(c.difficulty) - 0.7).abs() < 1e-9);
}

#[test]
fn test_leadership_training() {
    let c = leadership_training();
    assert_eq!(c.skills.len(), 4);
    assert!((frac(c.difficulty) - 0.9).abs() < 1e-9);
    assert_eq!(c.prerequisites.len(), 2);
}

#[test]
fn test_eval_method_name() {
    let acc = EvalMethod::ConservationAccuracy { error: bp(0.1) as u32, threshold: bp(0.2) as u32 };
    let comp = EvalMethod::TaskCompletion { time_limit_secs: 30 };
    assert_eq!(acc.name(), "conservation_accuracy");
    assert_eq!(comp.name(), "task_completion");
}

#[test]
fn test_training_category_display() {
    assert_eq!(TrainingCategory::Leadership.to_string(), "Leadership");
    assert_eq!(TrainingCategory::Adaptation.to_string(), "Adaptation");
}

#[test]
fn test_full_room_lifecycle() {
    let mut room = TrainingRoom::new("lifecycle", conservation_basics(), 5);
    room.set_mentor("professor_x".to_string());
    room.enter("student1".to_string());
    room.enter("student2".to_string());

    // student1 learns through attempts
    room.record_attempt("student1", "check_balance", bp(0.5));
    room.record_attempt("student1", "check_balance", bp(0.8));
    room.record_attempt("student1", "check_balance", bp(1.0));
    room.record_attempt("student1", "verify_total", bp(1.0));
    room.record_attempt("student1", "correct_error", bp(1.0));

    // student2 observes student1
    room.record_observation("student2", "student1", "check_balance");

    // student1 should graduate
    assert!(room.check_graduation("student1"));
    assert_eq!(room.graduated_agents().len(), 1);
    assert_eq!(room.active_agents().len(), 1);

    // student2 should have some progress from observation
    assert!(frac(room.trainees.get("student2").unwrap().progress_on("check_balance")) > 0.0);

    // Summary should not panic
    let summary = room.summary();
    assert!(!summary.is_empty());
}

#[test]
fn test_graduation_count_tracks_multiple() {
    let mut room = TrainingRoom::new("multi", conservation_basics(), 5);
    room.enter("a".to_string());
    room.enter("b".to_string());
    room.record_attempt("a", "check_balance", bp(1.0));
    room.record_attempt("a", "verify_total", bp(1.0));
    room.record_attempt("a", "correct_error", bp(1.0));
    room.record_attempt("b", "check_balance", bp(1.0));
    room.record_attempt("b", "verify_total", bp(1.0));
    room.record_attempt("b", "correct_error", bp(1.0));
    room.check_graduation("a");
    room.check_graduation("b");
    assert_eq!(room.graduation_count, 2);
}

#[test]
fn test_agent_history_multiple_rooms() {
    let mut academy = TrainingAcademy::new();
    academy.add_curriculum(conservation_basics());
    academy.add_curriculum(leadership_training());
    let r1 = academy.create_room("conservation-basics").unwrap();
    let r2 = academy.create_room("leadership-training").unwrap();
    academy.enroll(&r1, "alice".to_string());
    academy.enroll(&r2, "alice".to_string());
    assert_eq!(academy.agent_rooms("alice").len(), 2);
}
