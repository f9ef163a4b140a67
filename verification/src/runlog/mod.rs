//! The runlog: one file a day, written by the harness alone. How an entry is rendered, how entries
//! are read back, and what of them is safe to show.

pub mod days;
pub mod laws;
pub mod notes;
pub mod reader;
pub mod render;
pub mod stats;
pub mod writer;
