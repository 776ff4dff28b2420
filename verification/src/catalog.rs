//! The curricula that ship with the library.
use vstd::prelude::*;

use crate::curriculum::{Curriculum, EvalMethod, SkillObjective, TrainingCategory};
use crate::progress::MASTERY_LEVEL;

verus! {

/// `s` is the skill `id`, described by `description`, mastered at 0.99.
pub open spec fn skill_is(s: SkillObjective, id: Seq<char>, description: Seq<char>) -> bool {
    &&& s.skill_id@ == id
    &&& s.description@ == description
    &&& s.mastery_threshold == MASTERY_LEVEL
}

/// `m` is behavioural matching against the mentor pattern `pattern`.
pub open spec fn behavioral_match_of(m: EvalMethod, pattern: Seq<char>) -> bool {
    m matches EvalMethod::BehavioralMatch { mentor_pattern: p } && p@ == pattern
}

/// A skill mastered at 0.99.
fn skill(id: &str, description: &str, method: EvalMethod) -> (s: SkillObjective)
    ensures
        s.skill_id@ == id@,
        s.description@ == description@,
        s.mastery_threshold == MASTERY_LEVEL,
        s.evaluation_method == method,
{
    SkillObjective {
        skill_id: id.to_owned(),
        description: description.to_owned(),
        mastery_threshold: MASTERY_LEVEL,
        evaluation_method: method,
    }
}

/// Conservation Basics: Checking, verifying and correcting inventory balances.
pub fn conservation_basics() -> (c: Curriculum)
    ensures
        c.id@ == "conservation-basics"@,
        c.name@ == "Conservation Basics"@,
        c.skills@.len() == 3,
        skill_is(c.skills@[0], "check_balance"@, "Check item balance in inventories"@),
        c.skills@[0].evaluation_method == (EvalMethod::ConservationAccuracy { error: 500, threshold: 1000 }),
        skill_is(c.skills@[1], "verify_total"@, "Verify total item counts"@),
        c.skills@[1].evaluation_method == (EvalMethod::ConservationAccuracy { error: 300, threshold: 1000 }),
        skill_is(c.skills@[2], "correct_error"@, "Detect and correct inventory discrepancies"@),
        c.skills@[2].evaluation_method == (EvalMethod::TaskCompletion { time_limit_secs: 60 }),
        c.difficulty == 2000,
        c.category == TrainingCategory::Conservation,
        c.prerequisites@.len() == 0,
{
    let mut skills: Vec<SkillObjective> = Vec::new();
    skills.push(skill("check_balance", "Check item balance in inventories", EvalMethod::ConservationAccuracy { error: 500, threshold: 1000 }));
    skills.push(skill("verify_total", "Verify total item counts", EvalMethod::ConservationAccuracy { error: 300, threshold: 1000 }));
    skills.push(skill("correct_error", "Detect and correct inventory discrepancies", EvalMethod::TaskCompletion { time_limit_secs: 60 }));
    let mut prerequisites: Vec<String> = Vec::new();
    Curriculum {
        id: "conservation-basics".to_owned(),
        name: "Conservation Basics".to_owned(),
        skills,
        difficulty: 2000,
        category: TrainingCategory::Conservation,
        prerequisites,
    }
}

/// Builder Fundamentals: Placing blocks, reading blueprints, saving material and building soundly.
pub fn builder_fundamentals() -> (c: Curriculum)
    ensures
        c.id@ == "builder-fundamentals"@,
        c.name@ == "Builder Fundamentals"@,
        c.skills@.len() == 4,
        skill_is(c.skills@[0], "place_blocks"@, "Place blocks accurately according to plan"@),
        c.skills@[0].evaluation_method == (EvalMethod::TaskCompletion { time_limit_secs: 30 }),
        skill_is(c.skills@[1], "read_blueprint"@, "Read and interpret building blueprints"@),
        behavioral_match_of(c.skills@[1].evaluation_method, "blueprint_reader"@),
        skill_is(c.skills@[2], "conserve_materials"@, "Minimize material waste during construction"@),
        c.skills@[2].evaluation_method == (EvalMethod::TaskCompletion { time_limit_secs: 45 }),
        skill_is(c.skills@[3], "structural_integrity"@, "Ensure structures meet stability requirements"@),
        c.skills@[3].evaluation_method == (EvalMethod::PeerComparison),
        c.difficulty == 3000,
        c.category == TrainingCategory::Building,
        c.prerequisites@.len() == 0,
{
    let mut skills: Vec<SkillObjective> = Vec::new();
    skills.push(skill("place_blocks", "Place blocks accurately according to plan", EvalMethod::TaskCompletion { time_limit_secs: 30 }));
    skills.push(skill("read_blueprint", "Read and interpret building blueprints", EvalMethod::BehavioralMatch { mentor_pattern: "blueprint_reader".to_owned() }));
    skills.push(skill("conserve_materials", "Minimize material waste during construction", EvalMethod::TaskCompletion { time_limit_secs: 45 }));
    skills.push(skill("structural_integrity", "Ensure structures meet stability requirements", EvalMethod::PeerComparison));
    let mut prerequisites: Vec<String> = Vec::new();
    Curriculum {
        id: "builder-fundamentals".to_owned(),
        name: "Builder Fundamentals".to_owned(),
        skills,
        difficulty: 3000,
        category: TrainingCategory::Building,
        prerequisites,
    }
}

/// Agent Composition 101: Identifying capabilities and composing agents; follows builder fundamentals.
pub fn agent_composition_101() -> (c: Curriculum)
    ensures
        c.id@ == "agent-composition-101"@,
        c.name@ == "Agent Composition 101"@,
        c.skills@.len() == 3,
        skill_is(c.skills@[0], "identify_capabilities"@, "Identify agent capabilities from their configuration"@),
        c.skills@[0].evaluation_method == (EvalMethod::ConservationAccuracy { error: 1000, threshold: 1500 }),
        skill_is(c.skills@[1], "compose_masks"@, "Compose capability masks for complex tasks"@),
        behavioral_match_of(c.skills@[1].evaluation_method, "mask_composer"@),
        skill_is(c.skills@[2], "verify_composition"@, "Verify that agent compositions are valid"@),
        c.skills@[2].evaluation_method == (EvalMethod::TaskCompletion { time_limit_secs: 90 }),
        c.difficulty == 5000,
        c.category == TrainingCategory::AgentComposition,
        c.prerequisites@.len() == 1,
        c.prerequisites@[0]@ == "builder-fundamentals"@,
{
    let mut skills: Vec<SkillObjective> = Vec::new();
    skills.push(skill("identify_capabilities", "Identify agent capabilities from their configuration", EvalMethod::ConservationAccuracy { error: 1000, threshold: 1500 }));
    skills.push(skill("compose_masks", "Compose capability masks for complex tasks", EvalMethod::BehavioralMatch { mentor_pattern: "mask_composer".to_owned() }));
    skills.push(skill("verify_composition", "Verify that agent compositions are valid", EvalMethod::TaskCompletion { time_limit_secs: 90 }));
    let mut prerequisites: Vec<String> = Vec::new();
    prerequisites.push("builder-fundamentals".to_owned());
    Curriculum {
        id: "agent-composition-101".to_owned(),
        name: "Agent Composition 101".to_owned(),
        skills,
        difficulty: 5000,
        category: TrainingCategory::AgentComposition,
        prerequisites,
    }
}

/// Advanced Farming: Soil, rotation, water, pests and yield; follows conservation basics.
pub fn advanced_farming() -> (c: Curriculum)
    ensures
        c.id@ == "advanced-farming"@,
        c.name@ == "Advanced Farming"@,
        c.skills@.len() == 5,
        skill_is(c.skills@[0], "soil_chemistry"@, "Analyze and adjust soil chemistry for optimal growth"@),
        c.skills@[0].evaluation_method == (EvalMethod::ConservationAccuracy { error: 200, threshold: 500 }),
        skill_is(c.skills@[1], "crop_rotation"@, "Plan and execute crop rotation schedules"@),
        c.skills@[1].evaluation_method == (EvalMethod::TaskCompletion { time_limit_secs: 120 }),
        skill_is(c.skills@[2], "water_management"@, "Manage irrigation and water distribution"@),
        c.skills@[2].evaluation_method == (EvalMethod::PeerComparison),
        skill_is(c.skills@[3], "pest_control"@, "Identify and control pests without damaging crops"@),
        c.skills@[3].evaluation_method == (EvalMethod::ConservationAccuracy { error: 500, threshold: 1000 }),
        skill_is(c.skills@[4], "yield_optimization"@, "Optimize crop yield through integrated techniques"@),
        behavioral_match_of(c.skills@[4].evaluation_method, "master_farmer"@),
        c.difficulty == 7000,
        c.category == TrainingCategory::Farming,
        c.prerequisites@.len() == 1,
        c.prerequisites@[0]@ == "conservation-basics"@,
{
    let mut skills: Vec<SkillObjective> = Vec::new();
    skills.push(skill("soil_chemistry", "Analyze and adjust soil chemistry for optimal growth", EvalMethod::ConservationAccuracy { error: 200, threshold: 500 }));
    skills.push(skill("crop_rotation", "Plan and execute crop rotation schedules", EvalMethod::TaskCompletion { time_limit_secs: 120 }));
    skills.push(skill("water_management", "Manage irrigation and water distribution", EvalMethod::PeerComparison));
    skills.push(skill("pest_control", "Identify and control pests without damaging crops", EvalMethod::ConservationAccuracy { error: 500, threshold: 1000 }));
    skills.push(skill("yield_optimization", "Optimize crop yield through integrated techniques", EvalMethod::BehavioralMatch { mentor_pattern: "master_farmer".to_owned() }));
    let mut prerequisites: Vec<String> = Vec::new();
    prerequisites.push("conservation-basics".to_owned());
    Curriculum {
        id: "advanced-farming".to_owned(),
        name: "Advanced Farming".to_owned(),
        skills,
        difficulty: 7000,
        category: TrainingCategory::Farming,
        prerequisites,
    }
}

/// Leadership Training: Assigning tasks, evaluating, composing teams and handling failure; follows agent composition and builder fundamentals.
pub fn leadership_training() -> (c: Curriculum)
    ensures
        c.id@ == "leadership-training"@,
        c.name@ == "Leadership Training"@,
        c.skills@.len() == 4,
        skill_is(c.skills@[0], "assign_tasks"@, "Assign tasks optimally to team members"@),
        c.skills@[0].evaluation_method == (EvalMethod::PeerComparison),
        skill_is(c.skills@[1], "evaluate_performance"@, "Evaluate agent performance and give feedback"@),
        c.skills@[1].evaluation_method == (EvalMethod::ConservationAccuracy { error: 1000, threshold: 1500 }),
        skill_is(c.skills@[2], "compose_teams"@, "Compose effective teams from available agents"@),
        behavioral_match_of(c.skills@[2].evaluation_method, "team_lead"@),
        skill_is(c.skills@[3], "handle_failure"@, "Respond to and recover from team failures"@),
        c.skills@[3].evaluation_method == (EvalMethod::TaskCompletion { time_limit_secs: 180 }),
        c.difficulty == 9000,
        c.category == TrainingCategory::Leadership,
        c.prerequisites@.len() == 2,
        c.prerequisites@[0]@ == "agent-composition-101"@,
        c.prerequisites@[1]@ == "builder-fundamentals"@,
{
    let mut skills: Vec<SkillObjective> = Vec::new();
    skills.push(skill("assign_tasks", "Assign tasks optimally to team members", EvalMethod::PeerComparison));
    skills.push(skill("evaluate_performance", "Evaluate agent performance and give feedback", EvalMethod::ConservationAccuracy { error: 1000, threshold: 1500 }));
    skills.push(skill("compose_teams", "Compose effective teams from available agents", EvalMethod::BehavioralMatch { mentor_pattern: "team_lead".to_owned() }));
    skills.push(skill("handle_failure", "Respond to and recover from team failures", EvalMethod::TaskCompletion { time_limit_secs: 180 }));
    let mut prerequisites: Vec<String> = Vec::new();
    prerequisites.push("agent-composition-101".to_owned());
    prerequisites.push("builder-fundamentals".to_owned());
    Curriculum {
        id: "leadership-training".to_owned(),
        name: "Leadership Training".to_owned(),
        skills,
        difficulty: 9000,
        category: TrainingCategory::Leadership,
        prerequisites,
    }
}

} // verus!
