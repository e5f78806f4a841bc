pub mod drunk_walk;

pub use drunk_walk::{DrunkSpawnMode, DrunkardSettings};
