pub mod cache;
pub mod engine;
pub mod mode;
pub mod move_tracker;

pub use cache::{StretchedCache, get_stretched_cached, insert_stretched_cache};
pub use engine::{solve, solve_internal, solve_internal_impl};
pub use mode::{BasicInput, Mode, StructureMode};
pub use move_tracker::MoveTracker;
