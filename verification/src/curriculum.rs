//! Room identifiers, skill objectives and curricula.
use vstd::prelude::*;

use crate::table::TableKey;

verus! {

/// The name of a training room.
#[derive(Debug, Hash, PartialEq, Eq)]
pub struct TrainingRoomId(pub String);

impl TrainingRoomId {
    /// The room's name as text.
    pub fn to_string(&self) -> (s: String)
        ensures
            s@ == self.0@,
    {
        self.0.clone()
    }
}

impl Clone for TrainingRoomId {
    fn clone(&self) -> (c: Self)
        ensures
            c == *self,
    {
        TrainingRoomId(self.0.clone())
    }
}

impl TableKey for TrainingRoomId {
    open spec fn key_view(&self) -> Seq<char> {
        self.0@
    }

    fn key_string(&self) -> (s: &String) {
        &self.0
    }
}

/// How a skill is evaluated. Error margins and thresholds are fractions of
/// one whole in ten-thousandths; time limits are in whole seconds.
#[derive(Debug)]
pub enum EvalMethod {
    ConservationAccuracy { error: u32, threshold: u32 },
    TaskCompletion { time_limit_secs: u32 },
    PeerComparison,
    BehavioralMatch { mentor_pattern: String },
}

impl EvalMethod {
    /// The method's name as text.
    pub open spec fn name_spec(self) -> Seq<char> {
        match self {
            EvalMethod::ConservationAccuracy { .. } => "conservation_accuracy"@,
            EvalMethod::TaskCompletion { .. } => "task_completion"@,
            EvalMethod::PeerComparison => "peer_comparison"@,
            EvalMethod::BehavioralMatch { .. } => "behavioral_match"@,
        }
    }

    /// The method's name.
    pub fn name(&self) -> (n: &str)
        ensures
            n@ == self.name_spec(),
    {
        match self {
            EvalMethod::ConservationAccuracy { .. } => "conservation_accuracy",
            EvalMethod::TaskCompletion { .. } => "task_completion",
            EvalMethod::PeerComparison => "peer_comparison",
            EvalMethod::BehavioralMatch { .. } => "behavioral_match",
        }
    }
}

impl Clone for EvalMethod {
    fn clone(&self) -> (c: Self)
        ensures
            c == *self,
    {
        match self {
            EvalMethod::ConservationAccuracy { error, threshold } => EvalMethod::ConservationAccuracy {
                error: *error,
                threshold: *threshold,
            },
            EvalMethod::TaskCompletion { time_limit_secs } => EvalMethod::TaskCompletion {
                time_limit_secs: *time_limit_secs,
            },
            EvalMethod::PeerComparison => EvalMethod::PeerComparison,
            EvalMethod::BehavioralMatch { mentor_pattern } => EvalMethod::BehavioralMatch {
                mentor_pattern: mentor_pattern.clone(),
            },
        }
    }
}

/// One skill of a curriculum. The mastery threshold is a fraction of one
/// whole in ten-thousandths.
#[derive(Debug)]
pub struct SkillObjective {
    pub skill_id: String,
    pub description: String,
    pub mastery_threshold: u32,
    pub evaluation_method: EvalMethod,
}

impl Clone for SkillObjective {
    fn clone(&self) -> (c: Self)
        ensures
            c == *self,
    {
        SkillObjective {
            skill_id: self.skill_id.clone(),
            description: self.description.clone(),
            mastery_threshold: self.mastery_threshold,
            evaluation_method: self.evaluation_method.clone(),
        }
    }
}

/// The field a curriculum trains.
#[derive(Debug, Clone, Copy, PartialEq, Eq)]
pub enum TrainingCategory {
    Building,
    Farming,
    AgentComposition,
    ResourceManagement,
    Scouting,
    Trading,
    Conservation,
    Leadership,
    Adaptation,
}

impl TrainingCategory {
    /// The category's name as text.
    pub open spec fn name_spec(self) -> Seq<char> {
        match self {
            TrainingCategory::Building => "Building"@,
            TrainingCategory::Farming => "Farming"@,
            TrainingCategory::AgentComposition => "AgentComposition"@,
            TrainingCategory::ResourceManagement => "ResourceManagement"@,
            TrainingCategory::Scouting => "Scouting"@,
            TrainingCategory::Trading => "Trading"@,
            TrainingCategory::Conservation => "Conservation"@,
            TrainingCategory::Leadership => "Leadership"@,
            TrainingCategory::Adaptation => "Adaptation"@,
        }
    }

    /// The category's name.
    pub fn to_string(&self) -> (s: String)
        ensures
            s@ == self.name_spec(),
    {
        let name: &str = match self {
            TrainingCategory::Building => "Building",
            TrainingCategory::Farming => "Farming",
            TrainingCategory::AgentComposition => "AgentComposition",
            TrainingCategory::ResourceManagement => "ResourceManagement",
            TrainingCategory::Scouting => "Scouting",
            TrainingCategory::Trading => "Trading",
            TrainingCategory::Conservation => "Conservation",
            TrainingCategory::Leadership => "Leadership",
            TrainingCategory::Adaptation => "Adaptation",
        };
        name.to_owned()
    }
}

/// A named collection of skill objectives. The difficulty is a fraction of
/// one whole in ten-thousandths.
#[derive(Debug)]
pub struct Curriculum {
    pub id: String,
    pub name: String,
    pub skills: Vec<SkillObjective>,
    pub difficulty: u32,
    pub category: TrainingCategory,
    pub prerequisites: Vec<String>,
}

impl Curriculum {
    /// The ids of the curriculum's skills, in order.
    pub open spec fn skill_ids(self) -> Seq<Seq<char>> {
        self.skills@.map_values(|s: SkillObjective| s.skill_id@)
    }

    /// Whether `other` holds the same curriculum as `self`.
    pub open spec fn same_as(self, other: Curriculum) -> bool {
        &&& self.id == other.id
        &&& self.name == other.name
        &&& self.skills@ == other.skills@
        &&& self.difficulty == other.difficulty
        &&& self.category == other.category
        &&& self.prerequisites@ == other.prerequisites@
    }
}

impl Clone for Curriculum {
    fn clone(&self) -> (c: Self)
        ensures
            c.same_as(*self),
    {
        let c = Curriculum {
            id: self.id.clone(),
            name: self.name.clone(),
            skills: self.skills.clone(),
            difficulty: self.difficulty,
            category: self.category,
            prerequisites: self.prerequisites.clone(),
        };
        assert(c.skills@ =~= self.skills@);
        assert(c.prerequisites@ =~= self.prerequisites@);
        c
    }
}

} // verus!
