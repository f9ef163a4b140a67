//! Stimuli: inert event data owned by the harness.

use serde_json::Value;
use vstd::prelude::*;

use crate::json;
use crate::text;
use crate::trust::TrustTier;

verus! {

/// When a stimulus is taken up, relative to others.
#[derive(Clone, Copy, Debug, PartialEq, Eq, Structural)]
pub enum Priority {
    Low,
    Normal,
    High,
    Urgent,
}

/// Where a stimulus stands in the queue.
#[derive(Clone, Copy, Debug, PartialEq, Eq, Structural)]
pub enum StimulusStatus {
    Pending,
    Dispatched,
    Done,
    Failed,
}

#[derive(Debug)]
pub struct StimulusId(pub String);

#[derive(Debug)]
pub struct StimulusType(pub String);

/// One event that wakes the agent: a standing directive and the payload it came with, each with
/// its own trust.
pub struct Stimulus {
    pub id: StimulusId,
    pub source: String,
    pub type_: StimulusType,
    pub directive_tier: TrustTier,
    pub payload_tier: TrustTier,
    pub payload: Value,
    pub provenance: Option<String>,
    pub received_at: i64,
    /// The conversation this belongs to.
    pub dedup_key: Option<String>,
    pub pop_after: Option<i64>,
    pub priority: Priority,
    pub status: StimulusStatus,
    pub attempts: u32,
    pub directive_body: String,
    /// The state-prompt that the wake opens.
    pub entry: String,
}

/// The contents of a stimulus.
#[verifier::ext_equal]
pub struct StimulusView {
    pub id: Seq<char>,
    pub source: Seq<char>,
    pub type_: Seq<char>,
    pub directive_tier: Seq<char>,
    pub payload_tier: Seq<char>,
    pub payload: json::Tree,
    pub provenance: Option<Seq<char>>,
    pub received_at: i64,
    pub dedup_key: Option<Seq<char>>,
    pub pop_after: Option<i64>,
    pub priority: Priority,
    pub status: StimulusStatus,
    pub attempts: u32,
    pub directive_body: Seq<char>,
    pub entry: Seq<char>,
}

impl View for Stimulus {
    type V = StimulusView;

    open spec fn view(&self) -> StimulusView {
        StimulusView {
            id: self.id.0@,
            source: self.source@,
            type_: self.type_.0@,
            directive_tier: self.directive_tier@,
            payload_tier: self.payload_tier@,
            payload: json::tree(self.payload),
            provenance: text::opt(self.provenance),
            received_at: self.received_at,
            dedup_key: text::opt(self.dedup_key),
            pop_after: self.pop_after,
            priority: self.priority,
            status: self.status,
            attempts: self.attempts,
            directive_body: self.directive_body@,
            entry: self.entry@,
        }
    }
}

} // verus!
