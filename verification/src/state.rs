//! The states of consciousness and the classes of tools they may reach.

use vstd::prelude::*;

verus! {

/// The states, from the least to the most privileged.
#[derive(Clone, Copy, Debug, PartialEq, Eq, Structural)]
pub enum ConsciousnessState {
    Perceive,
    Express,
    Settle,
    Reflect,
}

/// What a tool call does.
#[derive(Clone, Copy, Debug, PartialEq, Eq, Structural)]
pub enum ToolClass {
    Read,
    FileWrite,
    Post,
    SettleTx,
    Shell,
    Net,
    Other,
}

/// The position of a state on the ladder of privilege.
pub open spec fn height(s: ConsciousnessState) -> int {
    match s {
        ConsciousnessState::Perceive => 0,
        ConsciousnessState::Express => 1,
        ConsciousnessState::Settle => 2,
        ConsciousnessState::Reflect => 3,
    }
}

/// Whether `state` stands at or below `ceiling`.
pub open spec fn within(state: ConsciousnessState, ceiling: ConsciousnessState) -> bool {
    height(state) <= height(ceiling)
}

fn height_of(s: ConsciousnessState) -> (r: u8)
    ensures
        r == height(s),
{
    match s {
        ConsciousnessState::Perceive => 0,
        ConsciousnessState::Express => 1,
        ConsciousnessState::Settle => 2,
        ConsciousnessState::Reflect => 3,
    }
}

/// Whether `state` stands at or below `ceiling`.
pub fn within_ceiling(state: ConsciousnessState, ceiling: ConsciousnessState) -> (r: bool)
    ensures
        r == within(state, ceiling),
{
    height_of(state) <= height_of(ceiling)
}

/// The name of a state, as shown to the model and in the runlog.
pub open spec fn name(s: ConsciousnessState) -> Seq<char> {
    match s {
        ConsciousnessState::Perceive => "Perceive"@,
        ConsciousnessState::Express => "Express"@,
        ConsciousnessState::Settle => "Settle"@,
        ConsciousnessState::Reflect => "Reflect"@,
    }
}

/// The lowercase tag of a state, as it stands in a run id.
pub open spec fn tag(s: ConsciousnessState) -> Seq<char> {
    match s {
        ConsciousnessState::Perceive => "perceive"@,
        ConsciousnessState::Express => "express"@,
        ConsciousnessState::Settle => "settle"@,
        ConsciousnessState::Reflect => "reflect"@,
    }
}

/// The name of a state.
pub fn state_name(s: ConsciousnessState) -> (r: &'static str)
    ensures
        r@ == name(s),
{
    match s {
        ConsciousnessState::Perceive => "Perceive",
        ConsciousnessState::Express => "Express",
        ConsciousnessState::Settle => "Settle",
        ConsciousnessState::Reflect => "Reflect",
    }
}

/// The lowercase tag of a state.
pub fn state_tag(s: ConsciousnessState) -> (r: &'static str)
    ensures
        r@ == tag(s),
{
    match s {
        ConsciousnessState::Perceive => "perceive",
        ConsciousnessState::Express => "express",
        ConsciousnessState::Settle => "settle",
        ConsciousnessState::Reflect => "reflect",
    }
}

/// The ladder: Perceive, Express, Settle, Reflect, each state within itself and those behind it alone.
pub proof fn the_ladder_has_four_rungs(s: ConsciousnessState, ceiling: ConsciousnessState)
    ensures
        within(s, ceiling) <==> match ceiling {
            ConsciousnessState::Perceive => s is Perceive,
            ConsciousnessState::Express => s is Perceive || s is Express,
            ConsciousnessState::Settle => !(s is Reflect),
            ConsciousnessState::Reflect => true,
        },
{
}

/// Each state has its name, and in small letters its tag.
pub proof fn each_state_has_its_name()
    ensures
        name(ConsciousnessState::Perceive) == "Perceive"@,
        name(ConsciousnessState::Express) == "Express"@,
        name(ConsciousnessState::Settle) == "Settle"@,
        name(ConsciousnessState::Reflect) == "Reflect"@,
        tag(ConsciousnessState::Perceive) == "perceive"@,
        tag(ConsciousnessState::Express) == "express"@,
        tag(ConsciousnessState::Settle) == "settle"@,
        tag(ConsciousnessState::Reflect) == "reflect"@,
{
}

} // verus!
