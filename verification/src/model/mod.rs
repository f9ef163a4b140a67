//! The domain model: the stimulus that wakes the agent, the baton handed between states, the
//! agent's own output, and the runlog entry that records what happened.

pub mod baton;
pub mod proposal;
pub mod runlog;
pub mod stimulus;
