//! The runlog entry: the harness's own record of one step.

use vstd::prelude::*;

use crate::model::baton::Baton;
use crate::model::baton::BatonView;
use crate::model::proposal::AgentOutput;
use crate::model::proposal::OutputView;
use crate::model::stimulus::StimulusId;
use crate::state::ConsciousnessState;
use crate::text;

verus! {

/// One tool call that the wall decided.
#[derive(Debug)]
pub struct ToolCallRecord {
    pub tool: String,
    /// `allow`, or `deny: ` and the reason.
    pub decision: String,
    /// A short rendering of what the tool was asked to do.
    pub input: Option<String>,
}

/// How a step ended.
#[derive(Debug)]
pub enum Outcome {
    Done,
    Error(String),
}

/// The record of one step.
pub struct RunLogEntry {
    pub run_id: String,
    pub stimulus_id: StimulusId,
    /// The duty that emitted the stimulus.
    pub source: String,
    pub state: ConsciousnessState,
    pub context_summary: String,
    pub baton: Option<Baton>,
    /// The raw payload, which the writer fences as untrusted.
    pub raw_stimulus: String,
    pub tool_calls: Vec<ToolCallRecord>,
    pub output: Option<AgentOutput>,
    pub outcome: Outcome,
    pub timestamp: i64,
    /// The conversations and topics this step belongs to.
    pub tags: Vec<String>,
}

/// The contents of a tool call.
#[verifier::ext_equal]
pub struct CallView {
    pub tool: Seq<char>,
    pub decision: Seq<char>,
    pub input: Option<Seq<char>>,
}

impl View for ToolCallRecord {
    type V = CallView;

    open spec fn view(&self) -> CallView {
        CallView { tool: self.tool@, decision: self.decision@, input: text::opt(self.input) }
    }
}

/// The contents of several tool calls.
pub open spec fn call_views(v: Seq<ToolCallRecord>) -> Seq<CallView> {
    v.map_values(|c: ToolCallRecord| c@)
}

/// The contents of an outcome: none for a clean end, else what went wrong.
pub open spec fn outcome_view(o: Outcome) -> Option<Seq<char>> {
    match o {
        Outcome::Done => None,
        Outcome::Error(d) => Some(d@),
    }
}

/// The contents of a runlog entry, as far as they are written down.
#[verifier::ext_equal]
pub struct EntryView {
    pub run_id: Seq<char>,
    pub stimulus_id: Seq<char>,
    pub source: Seq<char>,
    pub state: ConsciousnessState,
    pub context_summary: Seq<char>,
    pub baton: Option<BatonView>,
    pub raw_stimulus: Seq<char>,
    pub tool_calls: Seq<CallView>,
    pub output: Option<OutputView>,
    pub outcome: Option<Seq<char>>,
    pub timestamp: int,
    pub tags: Seq<Seq<char>>,
}

impl View for RunLogEntry {
    type V = EntryView;

    open spec fn view(&self) -> EntryView {
        EntryView {
            run_id: self.run_id@,
            stimulus_id: self.stimulus_id.0@,
            source: self.source@,
            state: self.state,
            context_summary: self.context_summary@,
            baton: match self.baton {
                Some(b) => Some(b@),
                None => None,
            },
            raw_stimulus: self.raw_stimulus@,
            tool_calls: call_views(self.tool_calls@),
            output: match self.output {
                Some(o) => Some(o@),
                None => None,
            },
            outcome: outcome_view(self.outcome),
            timestamp: self.timestamp as int,
            tags: text::views(self.tags@),
        }
    }
}

} // verus!
