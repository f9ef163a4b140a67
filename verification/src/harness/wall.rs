//! The wall around a step: what its tools are sorted by, and the record of every call it decided.

use serde_json::Value;
use vstd::prelude::*;

use crate::config;
use crate::config::CapabilityPrefix;
use crate::config::DackConfig;
use crate::json;
use crate::json::Tree;
use crate::model::runlog;
use crate::model::runlog::CallView;
use crate::model::runlog::ToolCallRecord;
use crate::state::ToolClass;
use crate::text;
use crate::trust;
use crate::trust::TrustTier;

verus! {

/// The most bytes that are kept of what a tool was asked to do.
pub const MAX_INPUT_BYTES: usize = 240;

/// What the wall of a step goes by.
pub struct Wall {
    pub read: Vec<CapabilityPrefix>,
    pub post: Vec<CapabilityPrefix>,
    pub settle: Vec<CapabilityPrefix>,
    /// Whether long-term memory may be written.
    pub long_term_writable: bool,
    /// Tools that are denied in a dry run.
    pub dry_run_block: Vec<String>,
}

/// The contents of a wall.
#[verifier::ext_equal]
pub struct WallView {
    pub read: Seq<(Seq<char>, Seq<Seq<char>>)>,
    pub post: Seq<(Seq<char>, Seq<Seq<char>>)>,
    pub settle: Seq<(Seq<char>, Seq<Seq<char>>)>,
    pub long_term_writable: bool,
    pub dry_run_block: Seq<Seq<char>>,
}

impl View for Wall {
    type V = WallView;

    open spec fn view(&self) -> WallView {
        WallView {
            read: config::prefix_views(self.read@),
            post: config::prefix_views(self.post@),
            settle: config::prefix_views(self.settle@),
            long_term_writable: self.long_term_writable,
            dry_run_block: text::views(self.dry_run_block@),
        }
    }
}

/// The wall of a step: the operator's capabilities, to which servers declared in place add tools
/// that read; and long-term memory for a cycle whose trust clears the floor.
pub open spec fn wall(c: DackConfig, inline: Seq<(Seq<char>, Seq<Seq<char>>)>, trust: Seq<char>) -> WallView {
    WallView {
        read: config::prefix_views(c.capabilities.read@) + inline,
        post: config::prefix_views(c.capabilities.post@),
        settle: config::prefix_views(c.capabilities.settle@),
        long_term_writable: trust::permits(c.lattice@, trust, c.memory_write_min_trust@),
        dry_run_block: text::views(c.dry_run_block@),
    }
}

fn copy_prefixes(v: &[CapabilityPrefix]) -> (r: Vec<CapabilityPrefix>)
    ensures
        config::prefix_views(r@) == config::prefix_views(v@),
{
    let ghost all = config::prefix_views(v@);
    let mut r: Vec<CapabilityPrefix> = Vec::new();
    let mut i: usize = 0;
    while i < v.len()
        invariant
            i <= v.len(),
            all == config::prefix_views(v@),
            config::prefix_views(r@) == all.take(i as int),
        decreases v.len() - i,
    {
        let ghost before = r@;
        let p = v[i].clone();
        assert(config::prefix_view(p) == all[i as int]);
        r.push(p);
        assert(config::prefix_views(r@) == config::prefix_views(before).push(config::prefix_view(p)));
        i += 1;
        assert(config::prefix_views(r@) == all.take(i as int));
    }
    assert(all.take(i as int) == all);
    r
}

/// The trust that a cycle needs to write long-term memory.
pub fn long_term_floor(c: &DackConfig) -> (r: TrustTier)
    ensures
        r@ == c.memory_write_min_trust@,
{
    TrustTier::named(&c.memory_write_min_trust)
}

/// The wall of a step.
pub fn wall_for(c: &DackConfig, inline_read: Vec<CapabilityPrefix>, cycle_trust: &TrustTier) -> (r: Wall)
    ensures
        r@ == wall(*c, config::prefix_views(inline_read@), cycle_trust@),
{
    let mut read = copy_prefixes(&c.capabilities.read);
    let ghost a = read@;
    let ghost b = inline_read@;
    let mut inline_read = inline_read;
    read.append(&mut inline_read);
    assert(config::prefix_views(read@) == config::prefix_views(a) + config::prefix_views(b));
    let floor = long_term_floor(c);
    Wall {
        read,
        post: copy_prefixes(&c.capabilities.post),
        settle: copy_prefixes(&c.capabilities.settle),
        long_term_writable: c.lattice.permits(cycle_trust, &floor),
        dry_run_block: text::copy_all(&c.dry_run_block),
    }
}

/// A server declared in place only ever adds tools that read: it changes neither what posts nor what
/// settles, and opens no long-term memory.
pub proof fn an_inline_server_only_reads(
    c: DackConfig,
    inline: Seq<(Seq<char>, Seq<Seq<char>>)>,
    trust: Seq<char>,
)
    ensures
        wall(c, inline, trust) == (WallView {
            read: wall(c, Seq::empty(), trust).read + inline,
            ..wall(c, Seq::empty(), trust)
        }),
{
    assert(config::prefix_views(c.capabilities.read@) + Seq::empty() == config::prefix_views(c.capabilities.read@));
}

/// What the wall decided on a call.
#[derive(Debug)]
pub enum ActionDecision {
    Allow,
    Deny(String),
}

/// A decision as it stands in the runlog.
pub open spec fn decision_text(d: ActionDecision) -> Seq<char> {
    match d {
        ActionDecision::Allow => "allow"@,
        ActionDecision::Deny(why) => "deny: "@ + why@,
    }
}

/// What is kept of a call's input: as much as fits, with a mark where it was cut.
pub open spec fn shortened(s: Seq<char>) -> Seq<char> {
    let f = text::fitting(s, MAX_INPUT_BYTES as int);
    if f == s {
        s
    } else {
        f + "…"@
    }
}

/// What is kept of a call's input, cut between characters.
pub fn shorten(input: &str) -> (r: String)
    ensures
        r@ == shortened(input@),
{
    let (mut t, cut) = text::cut_bytes(input, MAX_INPUT_BYTES);
    if cut {
        t.append("…");
    }
    t
}

/// The record of one call.
pub open spec fn call_record(tool: Seq<char>, input: Tree, d: ActionDecision) -> CallView {
    CallView { tool, decision: decision_text(d), input: Some(shortened(json::rendered(input))) }
}

/// Whether a call reached outward: an allowed post or settlement.
pub open spec fn outward(class: ToolClass, d: ActionDecision) -> bool {
    d is Allow && (class is Post || class is SettleTx)
}

/// The record of what a step did: every call with its decision, and whether one reached outward. It
/// is filled as the wall decides, so it stands even where the step later hangs.
pub struct RecordingResponder {
    calls: Vec<ToolCallRecord>,
    outward: bool,
}

impl View for RecordingResponder {
    type V = (Seq<CallView>, bool);

    closed spec fn view(&self) -> (Seq<CallView>, bool) {
        (runlog::call_views(self.calls@), self.outward)
    }
}

impl RecordingResponder {
    /// An empty record.
    pub fn wrap() -> (r: Self)
        ensures
            r@ == (Seq::<CallView>::empty(), false),
    {
        let r = RecordingResponder { calls: Vec::new(), outward: false };
        assert(r@.0 == Seq::<CallView>::empty());
        r
    }

    /// Records one decided call.
    pub fn record(&mut self, tool: &str, class: ToolClass, input: &Value, decision: &ActionDecision)
        ensures
            final(self)@.0 == old(self)@.0.push(call_record(tool@, json::tree(*input), *decision)),
            final(self)@.1 == (old(self)@.1 || outward(class, *decision)),
    {
        let rendered = match decision {
            ActionDecision::Allow => "allow".to_owned(),
            ActionDecision::Deny(why) => {
                let mut d = "deny: ".to_owned();
                d.append(why);
                d
            },
        };
        let text = json::render(input);
        let c = ToolCallRecord { tool: tool.to_owned(), decision: rendered, input: Some(shorten(&text)) };
        let ghost before = self.calls@;
        let ghost cv = c@;
        self.calls.push(c);
        assert(runlog::call_views(self.calls@) == runlog::call_views(before).push(cv));
        if matches!(decision, ActionDecision::Allow) && (class == ToolClass::Post || class == ToolClass::SettleTx) {
            self.outward = true;
        }
    }

    /// Takes the records out.
    pub fn take(&mut self) -> (r: Vec<ToolCallRecord>)
        ensures
            runlog::call_views(r@) == old(self)@.0,
            final(self)@ == (Seq::<CallView>::empty(), old(self)@.1),
    {
        let mut r: Vec<ToolCallRecord> = Vec::new();
        std::mem::swap(&mut r, &mut self.calls);
        assert(runlog::call_views(self.calls@) == Seq::<CallView>::empty());
        r
    }

    /// Whether a call reached outward.
    pub fn acted_outward(&self) -> (r: bool)
        ensures
            r == self@.1,
    {
        self.outward
    }
}

/// The wall of a step: what the operator lets it read, post and settle, each in its own place, what a
/// dry run denies, and long-term memory exactly where the trust of the cycle clears the floor for it.
pub proof fn a_wall_is_the_operators(c: DackConfig, inline: Seq<(Seq<char>, Seq<Seq<char>>)>, trust: Seq<char>)
    ensures
        ({
            let w = wall(c, inline, trust);
            &&& w.read == config::prefix_views(c.capabilities.read@) + inline
            &&& w.post == config::prefix_views(c.capabilities.post@)
            &&& w.settle == config::prefix_views(c.capabilities.settle@)
            &&& w.dry_run_block == text::views(c.dry_run_block@)
            &&& w.long_term_writable <==> 0 < trust::rank(c.lattice@, c.memory_write_min_trust@) <= trust::rank(
                c.lattice@,
                trust,
            )
        }),
{
}

/// The record of a call: the tool, what was decided and why, and as much of its input as two hundred and
/// forty bytes hold, with a mark where there was more.
pub proof fn a_call_is_recorded_as_decided(tool: Seq<char>, input: Tree, d: ActionDecision)
    ensures
        ({
            let r = call_record(tool, input, d);
            let s = json::rendered(input);
            &&& r.tool == tool
            &&& d is Allow ==> r.decision == "allow"@
            &&& d matches ActionDecision::Deny(why) ==> r.decision == "deny: "@ + why@
            &&& text::bytes_of(s) <= 240 ==> r.input == Some(s)
            &&& text::bytes_of(s) > 240 ==> (r.input matches Some(x) && "…"@.is_suffix_of(x) && x.take(
                x.len() - "…"@.len(),
            ) == text::fitting(s, 240))
        }),
{
    let s = json::rendered(input);
    text::what_fits_is_the_longest_start(s, 240);
    let f = text::fitting(s, 240);
    let x = f + "…"@;
    assert(x.take(x.len() - "…"@.len()) == f);
    assert(x.subrange(x.len() - "…"@.len(), x.len() as int) == "…"@);
}

/// A call reached outward where it was allowed and posts or settles; one that was denied, or that does
/// neither, did not.
pub proof fn only_what_is_allowed_reaches_outward(class: ToolClass, d: ActionDecision)
    ensures
        outward(ToolClass::Post, ActionDecision::Allow),
        outward(ToolClass::SettleTx, ActionDecision::Allow),
        !(d is Allow) ==> !outward(class, d),
        !(class is Post) && !(class is SettleTx) ==> !outward(class, d),
{
}

} // verus!
