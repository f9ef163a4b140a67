//! A deterministic harness under a language-model agent: how events wake it, what each state may
//! see and do, how trust ratchets down a chain, and what is written down of it.

pub mod classify;
pub mod cli;
pub mod clock;
pub mod config;
pub mod error;
pub mod harness;
pub mod health;
pub mod identity;
pub mod json;
pub mod logging;
pub mod model;
pub mod prompt;
pub mod runlog;
pub mod state;
pub mod text;
pub mod text_map;
pub mod trust;
