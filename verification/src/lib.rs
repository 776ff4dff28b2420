//! Curriculum-driven training rooms: skill tracking, mentorship, peer
//! observation and graduation, with an academy that manages many rooms.
//!
//! Progress, scores, thresholds and difficulties are fractions of one whole
//! counted in ten-thousandths (see [`PROGRESS_SCALE`]).
pub mod academy;
pub mod catalog;
pub mod curriculum;
pub mod laws;
pub mod progress;
pub mod room;
pub mod table;
pub mod text;
pub mod trainee;

pub use academy::{AcademyStats, TrainingAcademy, ACADEMY_ROOM_CAPACITY};
pub use catalog::{
    advanced_farming, agent_composition_101, builder_fundamentals, conservation_basics,
    leadership_training,
};
pub use curriculum::{Curriculum, EvalMethod, SkillObjective, TrainingCategory, TrainingRoomId};
pub use progress::{MASTERY_LEVEL, OBSERVATION_SHARE, PROGRESS_SCALE};
pub use room::{EventLog, TrainingEvent, TrainingRoom};
pub use table::{Table, TableKey};
pub use trainee::TraineeState;
