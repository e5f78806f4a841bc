pub mod builder;
pub mod log;
pub mod quest;

pub use log::QuestLog;
pub use quest::{quest_type_name, MapBuilderArgs, Quest, QuestType};
