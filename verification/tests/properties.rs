use lau_training_room::{
    advanced_farming, agent_composition_101, builder_fundamentals, conservation_basics,
    leadership_training, EvalMethod, TrainingAcademy, TrainingCategory, TrainingEvent,
    TrainingRoom, TrainingRoomId, ACADEMY_ROOM_CAPACITY, MASTERY_LEVEL, OBSERVATION_SHARE,
    PROGRESS_SCALE,
};

#[test]
fn scale_constants() {
    assert_eq!(PROGRESS_SCALE, 10000);
    assert_eq!(MASTERY_LEVEL, 9900);
    assert_eq!(OBSERVATION_SHARE, 3000);
    assert_eq!(ACADEMY_ROOM_CAPACITY, 10);
}

#[test]
fn last_score_is_the_progress() {
    let mut room = TrainingRoom::new("r", conservation_basics(), 5);
    room.enter("a".to_string());
    room.record_attempt("a", "check_balance", 9000);
    room.record_attempt("a", "check_balance", 4000);
    let a = room.trainees.get("a").unwrap();
    assert_eq!(a.progress_on("check_balance"), 4000);
    assert_eq!(a.attempts.get("check_balance"), Some(&2));
}

#[test]
fn scores_are_clamped() {
    let mut room = TrainingRoom::new("r", conservation_basics(), 5);
    room.enter("a".to_string());
    room.record_attempt("a", "check_balance", -250);
    room.record_attempt("a", "verify_total", 12345);
    let a = room.trainees.get("a").unwrap();
    assert_eq!(a.progress_on("check_balance"), 0);
    assert_eq!(a.progress_on("verify_total"), 10000);
    match &room.events()[2] {
        TrainingEvent::SkillAttempted { agent, skill, score } => {
            assert_eq!(agent, "a");
            assert_eq!(skill, "verify_total");
            assert_eq!(*score, 10000);
        }
        _ => panic!("wrong event"),
    }
}

#[test]
fn mastery_threshold_edges() {
    let mut room = TrainingRoom::new("r", conservation_basics(), 5);
    room.enter("a".to_string());
    room.record_attempt("a", "check_balance", 9900);
    room.record_attempt("a", "verify_total", 9899);
    let a = room.trainees.get("a").unwrap();
    assert!(a.is_mastered("check_balance"));
    assert!(!a.is_mastered("verify_total"));
    assert!(!a.is_mastered("correct_error"));
}

#[test]
fn observation_gain_is_thirty_percent_rounded_down() {
    let mut room = TrainingRoom::new("r", conservation_basics(), 5);
    room.enter("watcher".to_string());
    room.enter("expert".to_string());
    room.record_attempt("expert", "check_balance", 3333);
    room.record_attempt("watcher", "check_balance", 1000);
    room.record_observation("watcher", "expert", "check_balance");
    assert_eq!(room.trainees.get("watcher").unwrap().progress_on("check_balance"), 1999);
    // the target is untouched
    assert_eq!(room.trainees.get("expert").unwrap().progress_on("check_balance"), 3333);
    match room.events().last().unwrap() {
        TrainingEvent::ObservationMade { observer, target, learned } => {
            assert_eq!(observer, "watcher");
            assert_eq!(target, "expert");
            assert_eq!(learned, "check_balance");
        }
        _ => panic!("wrong event"),
    }
}

#[test]
fn observation_caps_at_one_whole() {
    let mut room = TrainingRoom::new("r", conservation_basics(), 5);
    room.enter("watcher".to_string());
    room.enter("expert".to_string());
    room.record_attempt("expert", "verify_total", 8500);
    room.record_attempt("watcher", "verify_total", 9000);
    room.record_observation("watcher", "expert", "verify_total");
    assert_eq!(room.trainees.get("watcher").unwrap().progress_on("verify_total"), 10000);
}

#[test]
fn observation_needs_both_agents() {
    let mut room = TrainingRoom::new("r", conservation_basics(), 5);
    room.enter("expert".to_string());
    room.record_attempt("expert", "verify_total", 8500);
    let before = room.events().len();
    room.record_observation("nobody", "expert", "verify_total");
    assert_eq!(room.events().len(), before);
    assert!(room.trainees.get("nobody").is_none());
}

#[test]
fn set_mentor_reaches_current_and_later_trainees() {
    let mut room = TrainingRoom::new("r", conservation_basics(), 5);
    room.enter("early".to_string());
    room.set_mentor("guide".to_string());
    room.enter("late".to_string());
    assert_eq!(room.trainees.get("early").unwrap().mentor_id, Some("guide".to_string()));
    assert_eq!(room.trainees.get("late").unwrap().mentor_id, Some("guide".to_string()));
    assert_eq!(room.mentor_id, Some("guide".to_string()));
}

#[test]
fn leave_returns_the_entered_state() {
    let mut room = TrainingRoom::new("r", builder_fundamentals(), 5);
    room.tick = 7;
    room.enter("a".to_string());
    let t = room.leave("a".to_string()).unwrap();
    assert_eq!(t.agent_id, "a");
    assert_eq!(t.entered_tick, 7);
    assert_eq!(t.room_id, TrainingRoomId("r".to_string()));
    assert_eq!(t.skill_progress.len(), 4);
    assert_eq!(t.progress_on("place_blocks"), 0);
    assert!(t.attempts.is_empty());
    assert!(!t.graduated);
    assert!(room.trainees.is_empty());
}

#[test]
fn capacity_is_never_exceeded() {
    let mut room = TrainingRoom::new("r", conservation_basics(), 2);
    assert!(room.enter("a".to_string()));
    assert!(room.enter("b".to_string()));
    assert!(!room.enter("c".to_string()));
    // a full room refuses even an agent already in it
    assert!(!room.enter("a".to_string()));
    assert_eq!(room.trainees.len(), 2);
    assert_eq!(room.events().len(), 2);
}

#[test]
fn entering_again_starts_afresh() {
    let mut room = TrainingRoom::new("r", conservation_basics(), 5);
    room.enter("a".to_string());
    room.record_attempt("a", "check_balance", 10000);
    assert!(room.enter("a".to_string()));
    assert_eq!(room.trainees.len(), 1);
    assert_eq!(room.trainees.get("a").unwrap().progress_on("check_balance"), 0);
}

#[test]
fn graduation_is_logged_and_counted_each_time() {
    let mut room = TrainingRoom::new("r", conservation_basics(), 5);
    room.enter("a".to_string());
    room.record_attempt("a", "check_balance", 10000);
    room.record_attempt("a", "verify_total", 9950);
    room.record_attempt("a", "correct_error", 9900);
    assert!(room.check_graduation("a"));
    assert!(room.trainees.get("a").unwrap().graduated);
    match room.events().last().unwrap() {
        TrainingEvent::AgentGraduated(a) => assert_eq!(a, "a"),
        _ => panic!("wrong event"),
    }
    assert!(room.check_graduation("a"));
    assert_eq!(room.graduation_count, 2);
}

#[test]
fn room_progress_counts_only_curriculum_skills() {
    let mut room = TrainingRoom::new("r", conservation_basics(), 5);
    room.enter("alice".to_string());
    room.record_attempt("alice", "extra_skill", 10000);
    let alice = room.trainees.get("alice").unwrap();
    // the trainee's own mean covers every skill it has recorded
    assert_eq!(alice.skill_progress.len(), 4);
    assert_eq!(alice.overall_progress(), 2500);
    // the room's mean covers only the curriculum's skills
    assert_eq!(room.room_progress(), 0);
    room.record_attempt("alice", "verify_total", 6000);
    assert_eq!(room.room_progress(), 2000);
}

#[test]
fn state_clones_keep_their_contents() {
    let mut room = TrainingRoom::new("r", conservation_basics(), 5);
    room.enter("alice".to_string());
    room.record_attempt("alice", "check_balance", 7000);
    let copy = room.clone();
    assert_eq!(copy.trainees.get("alice").unwrap().progress_on("check_balance"), 7000);
    assert_eq!(copy.events().len(), 2);
    let t = copy.trainees.get("alice").unwrap().clone();
    assert_eq!(t.agent_id, "alice");
    let mut academy = TrainingAcademy::new();
    academy.add_curriculum(conservation_basics());
    let a2 = academy.clone();
    assert_eq!(a2.curricula.len(), 1);
    let e = copy.events()[0].clone();
    assert!(matches!(e, TrainingEvent::AgentEntered(ref a) if a == "alice"));
}

#[test]
fn overall_progress_rounds_down() {
    let mut room = TrainingRoom::new("r", conservation_basics(), 5);
    room.enter("a".to_string());
    room.record_attempt("a", "check_balance", 10000);
    assert_eq!(room.trainees.get("a").unwrap().overall_progress(), 3333);
    assert_eq!(room.room_progress(), 3333);
}

#[test]
fn summary_exact_text() {
    let mut room = TrainingRoom::new("r15", conservation_basics(), 5);
    room.enter("alice".to_string());
    room.record_attempt("alice", "check_balance", 10000);
    assert_eq!(
        room.summary(),
        "Room r15 | Curriculum: Conservation Basics | Trainees: 1 total (1 active, 0 graduated) | Room progress: 33.3% | Mentor: none"
    );
    room.record_attempt("alice", "verify_total", 10000);
    room.record_attempt("alice", "correct_error", 10000);
    room.check_graduation("alice");
    room.set_mentor("m".to_string());
    assert_eq!(
        room.summary(),
        "Room r15 | Curriculum: Conservation Basics | Trainees: 1 total (0 active, 1 graduated) | Room progress: 100.0% | Mentor: m"
    );
}

#[test]
fn room_names_count_up() {
    let mut academy = TrainingAcademy::default();
    academy.add_curriculum(conservation_basics());
    academy.add_curriculum(leadership_training());
    let r1 = academy.create_room("conservation-basics").unwrap();
    let r2 = academy.create_room("leadership-training").unwrap();
    assert_eq!(r1.to_string(), "conservation-basics-1");
    assert_eq!(r2.to_string(), "leadership-training-2");
    let room = academy.rooms.get("leadership-training-2").unwrap();
    assert_eq!(room.max_trainees, 10);
    assert_eq!(room.curriculum.id, "leadership-training");
    assert!(room.trainees.is_empty());
}

#[test]
fn enrollment_is_listed_and_counted() {
    let mut academy = TrainingAcademy::new();
    academy.add_curriculum(conservation_basics());
    let r1 = academy.create_room("conservation-basics").unwrap();
    assert!(academy.enroll(&r1, "alice".to_string()));
    assert_eq!(academy.academy_stats().total_enrollments, 1);
    // enrolling the same agent again re-enters them: the history grows, the
    // room does not
    assert!(academy.enroll(&r1, "alice".to_string()));
    assert_eq!(academy.academy_stats().total_enrollments, 1);
    assert_eq!(academy.agent_rooms("alice").len(), 2);
    assert_eq!(academy.agent_rooms("alice")[1].id, r1);
}

#[test]
fn failed_enrollment_changes_nothing() {
    let mut academy = TrainingAcademy::new();
    assert!(!academy.enroll(&TrainingRoomId("ghost".to_string()), "a".to_string()));
    assert!(academy.agent_history.is_empty());
    assert!(academy.agent_rooms("a").is_empty());
}

#[test]
fn stats_count_graduations_and_occupied_rooms() {
    let mut academy = TrainingAcademy::new();
    academy.add_curriculum(conservation_basics());
    let r1 = academy.create_room("conservation-basics").unwrap();
    let _r2 = academy.create_room("conservation-basics").unwrap();
    academy.enroll(&r1, "a".to_string());
    let mut room = academy.rooms.remove("conservation-basics-1").unwrap();
    room.record_attempt("a", "check_balance", 10000);
    room.record_attempt("a", "verify_total", 10000);
    room.record_attempt("a", "correct_error", 10000);
    assert!(room.check_graduation("a"));
    academy.rooms.insert(r1.clone(), room);
    let stats = academy.academy_stats();
    assert_eq!(stats.total_rooms, 2);
    assert_eq!(stats.total_enrollments, 1);
    assert_eq!(stats.total_graduations, 1);
    assert_eq!(stats.curricula_offered, 1);
    assert_eq!(stats.active_rooms, 1);
}

#[test]
fn add_curriculum_replaces_same_id() {
    let mut academy = TrainingAcademy::new();
    academy.add_curriculum(conservation_basics());
    let mut other = builder_fundamentals();
    other.id = "conservation-basics".to_string();
    academy.add_curriculum(other);
    assert_eq!(academy.curricula.len(), 1);
    assert_eq!(academy.curricula.get("conservation-basics").unwrap().skills.len(), 4);
}

#[test]
fn eval_method_names() {
    assert_eq!(EvalMethod::PeerComparison.name(), "peer_comparison");
    assert_eq!(
        EvalMethod::BehavioralMatch { mentor_pattern: "x".to_string() }.name(),
        "behavioral_match"
    );
}

#[test]
fn category_names() {
    let all = [
        (TrainingCategory::Building, "Building"),
        (TrainingCategory::Farming, "Farming"),
        (TrainingCategory::AgentComposition, "AgentComposition"),
        (TrainingCategory::ResourceManagement, "ResourceManagement"),
        (TrainingCategory::Scouting, "Scouting"),
        (TrainingCategory::Trading, "Trading"),
        (TrainingCategory::Conservation, "Conservation"),
        (TrainingCategory::Leadership, "Leadership"),
        (TrainingCategory::Adaptation, "Adaptation"),
    ];
    for (c, n) in all.iter() {
        assert_eq!(c.to_string(), *n);
    }
}

#[test]
fn catalog_contents() {
    let ids = |c: &lau_training_room::Curriculum| -> Vec<String> {
        c.skills.iter().map(|s| s.skill_id.clone()).collect()
    };
    assert_eq!(ids(&conservation_basics()), vec!["check_balance", "verify_total", "correct_error"]);
    assert_eq!(
        ids(&builder_fundamentals()),
        vec!["place_blocks", "read_blueprint", "conserve_materials", "structural_integrity"]
    );
    assert_eq!(
        ids(&agent_composition_101()),
        vec!["identify_capabilities", "compose_masks", "verify_composition"]
    );
    assert_eq!(
        ids(&advanced_farming()),
        vec!["soil_chemistry", "crop_rotation", "water_management", "pest_control", "yield_optimization"]
    );
    assert_eq!(
        ids(&leadership_training()),
        vec!["assign_tasks", "evaluate_performance", "compose_teams", "handle_failure"]
    );
    let c = conservation_basics();
    assert_eq!(c.skills[0].mastery_threshold, 9900);
    assert!(matches!(
        c.skills[0].evaluation_method,
        EvalMethod::ConservationAccuracy { error: 500, threshold: 1000 }
    ));
    assert!(matches!(c.skills[2].evaluation_method, EvalMethod::TaskCompletion { time_limit_secs: 60 }));
    assert_eq!(c.category.to_string(), "Conservation");
    assert_eq!(leadership_training().prerequisites, vec!["agent-composition-101", "builder-fundamentals"]);
    assert_eq!(advanced_farming().prerequisites, vec!["conservation-basics"]);
}

#[test]
fn curriculum_clone_is_equal() {
    let c = leadership_training();
    let d = c.clone();
    assert_eq!(c.id, d.id);
    assert_eq!(c.name, d.name);
    assert_eq!(c.skills.len(), d.skills.len());
    assert_eq!(c.difficulty, d.difficulty);
    assert_eq!(c.prerequisites, d.prerequisites);
}

#[test]
fn readme_quick_start() {
    let mut academy = TrainingAcademy::new();
    academy.add_curriculum(conservation_basics());
    academy.add_curriculum(builder_fundamentals());
    let room_id = academy.create_room("conservation-basics").unwrap();
    assert!(academy.enroll(&room_id, "alice".to_string()));
    assert!(academy.enroll(&room_id, "bob".to_string()));
    let mut room = academy.rooms.remove(&room_id.0).unwrap();
    room.set_mentor("professor_x".to_string());
    room.record_attempt("alice", "check_balance", 8500);
    room.record_attempt("alice", "check_balance", 10000);
    room.record_attempt("alice", "verify_total", 10000);
    room.record_attempt("alice", "correct_error", 10000);
    room.record_observation("bob", "alice", "check_balance");
    assert_eq!(room.trainees.get("bob").unwrap().progress_on("check_balance"), 3000);
    assert!(room.check_graduation("alice"));
    academy.rooms.insert(room_id.clone(), room);
    let stats = academy.academy_stats();
    assert_eq!(stats.total_rooms, 1);
    assert_eq!(stats.total_enrollments, 2);
    assert_eq!(stats.total_graduations, 1);
    assert_eq!(stats.curricula_offered, 2);
    assert_eq!(stats.active_rooms, 1);
    assert!(academy.rooms.get("nope").is_none());
}

#[test]
fn room_progress_stays_within_one_whole() {
    let mut room = TrainingRoom::new("r", advanced_farming(), 5);
    room.enter("a".to_string());
    room.enter("b".to_string());
    room.enter("c".to_string());
    for skill in ["soil_chemistry", "crop_rotation", "water_management", "pest_control", "yield_optimization"].iter() {
        room.record_attempt("a", skill, 20000);
        room.record_attempt("b", skill, 10000);
    }
    room.record_observation("c", "a", "soil_chemistry");
    room.record_observation("c", "a", "soil_chemistry");
    room.record_observation("c", "a", "soil_chemistry");
    room.record_observation("c", "a", "soil_chemistry");
    let c = room.trainees.get("c").unwrap();
    assert_eq!(c.progress_on("soil_chemistry"), 10000);
    assert_eq!(c.overall_progress(), 2000);
    assert_eq!(room.room_progress(), (10000 + 10000 + 2000) / 3);
    assert!(room.room_progress() <= 10000);
}
