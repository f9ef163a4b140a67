//! One step: the request it makes of the model's runtime, and what is written down once it has run.

use serde_json::Value;
use vstd::prelude::*;

use crate::config::DackConfig;
use crate::config::TierPolicy;
use crate::harness::context;
use crate::harness::context::ContextBlock;
use crate::harness::context::ContextView;
use crate::harness::context::Ground;
use crate::harness::context::History;
use crate::harness::context::Scene;
use crate::harness::context::SceneView;
use crate::harness::dispatch::StepInput;
use crate::harness::dispatch::StepView;
use crate::harness::mcp;
use crate::harness::mcp::McpConfig;
use crate::harness::mcp::McpView;
use crate::harness::sessions;
use crate::harness::sessions::Session;
use crate::harness::Harness;
use crate::json;
use crate::json::Tree;
use crate::model::proposal;
use crate::model::proposal::AgentOutput;
use crate::model::proposal::OutputView;
use crate::model::runlog;
use crate::model::runlog::CallView;
use crate::model::runlog::EntryView;
use crate::model::runlog::Outcome;
use crate::model::runlog::RunLogEntry;
use crate::model::runlog::ToolCallRecord;
use crate::model::stimulus::Stimulus;
use crate::model::stimulus::StimulusId;
use crate::model::stimulus::StimulusView;
use crate::prompt::StatePrompt;
use crate::runlog::notes;
use crate::runlog::notes::NoteView;
use crate::state;
use crate::state::ConsciousnessState;
use crate::text;
use crate::text_map::TextMap;
use crate::trust;
use crate::trust::TrustTier;

verus! {

/// Whose tools a request is scoped to.
#[derive(Clone, Copy, Debug, PartialEq, Eq, Structural)]
pub enum Scope {
    State(ConsciousnessState),
    Worker,
}

/// A host directory that a contained worker sees.
#[derive(Debug)]
pub struct Mount {
    pub host: String,
    pub guest: String,
    pub writable: bool,
}

/// The contents of several mounts.
pub open spec fn mount_views(v: Seq<Mount>) -> Seq<(Seq<char>, Seq<char>, bool)> {
    v.map_values(|m: Mount| (m.host@, m.guest@, m.writable))
}

/// What the model's runtime is asked to run.
pub struct InvocationRequest {
    pub system_prompt: String,
    pub scope: Scope,
    pub blocks: Vec<ContextBlock>,
    /// The session to go on in; a fresh one if none.
    pub session: Option<String>,
    pub workdir: String,
    /// Secrets in the agent's own environment: always empty.
    pub secret_env: TextMap<String>,
    pub mcp_servers: TextMap<McpConfig>,
    /// The model, where it is not the client's default.
    pub model: Option<String>,
    /// The helpers that may be called, by id.
    pub agents: TextMap<Value>,
    pub isolate: bool,
    pub mounts: Vec<Mount>,
    /// The tools offered, where they are not the engine's default.
    pub allowed_tools: Option<Vec<String>>,
    /// The time allowed in seconds, where it is not the client's default.
    pub timeout_secs: Option<u64>,
}

/// The contents of a request.
#[verifier::ext_equal]
pub struct RequestView {
    pub system_prompt: Seq<char>,
    pub scope: Scope,
    pub blocks: Seq<ContextView>,
    pub session: Option<Seq<char>>,
    pub workdir: Seq<char>,
    pub secret_env: Map<Seq<char>, String>,
    pub mcp_servers: Map<Seq<char>, McpView>,
    pub model: Option<Seq<char>>,
    pub agents: Map<Seq<char>, Tree>,
    pub isolate: bool,
    pub mounts: Seq<(Seq<char>, Seq<char>, bool)>,
    pub allowed_tools: Option<Seq<Seq<char>>>,
    pub timeout_secs: Option<u64>,
}

/// The contents of helpers.
pub open spec fn agent_views(m: TextMap<Value>) -> Map<Seq<char>, Tree> {
    m@.map_values(|v: Value| json::tree(v))
}

/// The contents of an optional list.
pub open spec fn opt_views(v: Option<Vec<String>>) -> Option<Seq<Seq<char>>> {
    match v {
        Some(l) => Some(text::views(l@)),
        None => None,
    }
}

impl View for InvocationRequest {
    type V = RequestView;

    open spec fn view(&self) -> RequestView {
        RequestView {
            system_prompt: self.system_prompt@,
            scope: self.scope,
            blocks: context::block_views(self.blocks@),
            session: text::opt(self.session),
            workdir: self.workdir@,
            secret_env: self.secret_env@,
            mcp_servers: mcp::mcp_views(self.mcp_servers),
            model: text::opt(self.model),
            agents: agent_views(self.agents),
            isolate: self.isolate,
            mounts: mount_views(self.mounts@),
            allowed_tools: opt_views(self.allowed_tools),
            timeout_secs: self.timeout_secs,
        }
    }
}

/// The system message: the soul and the prompt's own rules, the same on every wake. Where both are
/// missing, a short header.
pub open spec fn system_prompt(state: ConsciousnessState, id: Seq<char>, frame: Seq<char>, soul: Seq<char>) -> Seq<char> {
    if text::blank(soul) && text::blank(frame) {
        "You are a DACK actor in the "@ + state::name(state) + " state ("@ + id + ")."@
    } else if text::blank(frame) {
        text::trimmed_end(soul)
    } else if text::blank(soul) {
        text::trimmed(frame)
    } else {
        text::trimmed_end(soul) + "\n\n---\n\n"@ + text::trimmed(frame)
    }
}

/// The system message of a prompt under the text of the soul.
pub fn system_prompt_for_prompt(prompt: &StatePrompt, soul: &str) -> (r: String)
    ensures
        r@ == system_prompt(prompt.state, prompt.id@, prompt.system_frame@, soul@),
{
    let s = text::trim(soul);
    let frame = text::trim(&prompt.system_frame);
    let no_soul = s.as_str().is_empty();
    let no_frame = frame.as_str().is_empty();
    if no_soul && no_frame {
        let mut r = "You are a DACK actor in the ".to_owned();
        r.append(state::state_name(prompt.state));
        r.append(" state (");
        r.append(&prompt.id);
        r.append(").");
        r
    } else if no_frame {
        text::trim_end(soul)
    } else if no_soul {
        frame
    } else {
        let mut r = text::trim_end(soul);
        r.append("\n\n---\n\n");
        r.append(&frame);
        r
    }
}

/// The model of a step: the prompt's own where the operator lets it choose, else the operator's for
/// the state.
pub open spec fn effective_model(policy: TierPolicy, own: Option<Seq<char>>) -> Option<Seq<char>> {
    if policy.allow_model_override && own is Some {
        own
    } else {
        text::opt(policy.model)
    }
}

/// The model of a step.
pub fn model_for(config: &DackConfig, prompt: &StatePrompt) -> (r: Option<String>)
    ensures
        text::opt(r) == effective_model(config.tier_policy.at(prompt.state), text::opt(prompt.model)),
{
    let policy = config.tier_policy.get(prompt.state);
    if policy.allow_model_override {
        if let Some(m) = &prompt.model {
            return Some(m.clone());
        }
    }
    text::opt_copy(&policy.model)
}

/// A prompt names its own model only where the operator allows it for the state.
pub proof fn a_model_is_the_operators_to_give(policy: TierPolicy, own: Option<Seq<char>>, other: Option<Seq<char>>)
    requires
        !policy.allow_model_override,
    ensures
        effective_model(policy, own) == effective_model(policy, other),
{
}

/// The time a step is allowed: Reflect may have its own.
pub open spec fn time_allowed(config: DackConfig, state: ConsciousnessState) -> Option<u64> {
    if state is Reflect {
        config.reflect_invoke_timeout_secs
    } else {
        None
    }
}

/// The time that a step is allowed in seconds, where it is not the client's default.
pub fn invoke_timeout_override(config: &DackConfig, state: ConsciousnessState) -> (r: Option<u64>)
    ensures
        r == time_allowed(*config, state),
{
    match state {
        ConsciousnessState::Reflect => config.reflect_invoke_timeout_secs,
        _ => None,
    }
}

/// The transitions that lead to a state within the ceiling. A target whose prompt does not resolve
/// has no state.
pub open spec fn offered(
    ids: Seq<Seq<char>>,
    states: Seq<Option<ConsciousnessState>>,
    ceiling: ConsciousnessState,
) -> Seq<Seq<char>>
    decreases ids.len(),
{
    if ids.len() == 0 {
        ids
    } else {
        let rest = offered(ids.drop_last(), states, ceiling);
        let i = ids.len() - 1;
        if i < states.len() && (states[i] matches Some(s) && state::within(s, ceiling)) {
            rest.push(ids.last())
        } else {
            rest
        }
    }
}

/// The transitions of a prompt that the trust still permits, given the state of each target's prompt.
pub fn reachable_transitions(
    prompt: &StatePrompt,
    states: &[Option<ConsciousnessState>],
    ceiling: ConsciousnessState,
) -> (r: Vec<String>)
    ensures
        text::views(r@) == offered(text::views(prompt.transitions@), states@, ceiling),
{
    let ghost ids = text::views(prompt.transitions@);
    let mut r: Vec<String> = Vec::new();
    let mut i: usize = 0;
    assert(text::views(r@) == offered(ids.take(0), states@, ceiling));
    while i < prompt.transitions.len()
        invariant
            i <= prompt.transitions.len(),
            ids == text::views(prompt.transitions@),
            text::views(r@) == offered(ids.take(i as int), states@, ceiling),
        decreases prompt.transitions.len() - i,
    {
        assert(ids.take(i + 1).drop_last() == ids.take(i as int));
        assert(ids.take(i + 1).last() == prompt.transitions@[i as int]@);
        if i < states.len() {
            if let Some(s) = states[i] {
                if state::within_ceiling(s, ceiling) {
                    let ghost before = r@;
                    let id = prompt.transitions[i].clone();
                    r.push(id);
                    assert(text::views(r@) == text::views(before).push(id@));
                }
            }
        }
        i += 1;
    }
    assert(ids.take(i as int) == ids);
    r
}

/// What a step is made of before it runs.
pub struct Cast<'a> {
    pub prompt: &'a StatePrompt,
    pub step: &'a StepInput,
    pub stimulus: &'a Stimulus,
    pub trust: &'a TrustTier,
    pub ceiling: ConsciousnessState,
    pub soul_root: &'a str,
    /// The text of the soul.
    pub soul: &'a str,
    pub reachable: &'a [String],
    pub ground: &'a Ground<'a>,
    pub history: &'a History<'a>,
}

/// What a step is shown, given the session it goes on in.
pub open spec fn scene(c: Cast, servers: Set<Seq<char>>, resume: Option<Session>, now: i64) -> SceneView {
    SceneView {
        prompt: *c.prompt,
        step: c.step@,
        stimulus: c.stimulus@,
        trust: c.trust@,
        ceiling: c.ceiling,
        soul_root: c.soul_root@,
        servers,
        reachable: text::views(c.reachable@),
        resume: match resume {
            Some(s) => Some(s.last_used),
            None => None,
        },
        ground: c.ground@,
        history: c.history@,
        now,
    }
}

/// The request of a step of one of the agent's own states: no secrets in its environment, no
/// helpers, no container.
pub open spec fn step_request(
    config: DackConfig,
    c: Cast,
    servers: Map<Seq<char>, McpView>,
    resume: Option<Session>,
    now: i64,
) -> RequestView {
    RequestView {
        system_prompt: system_prompt(c.prompt.state, c.prompt.id@, c.prompt.system_frame@, c.soul@),
        scope: Scope::State(c.prompt.state),
        blocks: context::message(scene(c, servers.dom(), resume, now)),
        session: match resume {
            Some(s) => Some(s.id@),
            None => None,
        },
        workdir: c.soul_root@,
        secret_env: Map::empty(),
        mcp_servers: servers,
        model: effective_model(config.tier_policy.at(c.prompt.state), text::opt(c.prompt.model)),
        agents: Map::empty(),
        isolate: false,
        mounts: Seq::empty(),
        allowed_tools: None,
        timeout_secs: time_allowed(config, c.prompt.state),
    }
}

/// A step about to run: its request, and the key that its session is kept under.
pub struct Plan {
    pub request: InvocationRequest,
    pub session_key: Option<String>,
}

/// The session that a step goes on in.
pub open spec fn resumed(h: Harness, c: Cast, now: i64) -> Option<Session> {
    match sessions::kept_key(*c.prompt, c.trust@, c.stimulus@) {
        Some(k) => sessions::resumable(h.sessions@, k, h.config.session_ttl_secs, now),
        None => None,
    }
}

impl Harness {
    /// Plans a step: finds the session that it goes on in, assembles its message, and puts the
    /// request together.
    pub fn plan_step(&mut self, c: &Cast, servers: TextMap<McpConfig>, now: i64) -> (r: Plan)
        ensures
            r.request@ == step_request(
                old(self).config,
                *c,
                mcp::mcp_views(servers),
                resumed(*old(self), *c, now),
                now,
            ),
            text::opt(r.session_key) == sessions::kept_key(*c.prompt, c.trust@, c.stimulus@),
            final(self).sessions@ == (match sessions::kept_key(*c.prompt, c.trust@, c.stimulus@) {
                Some(k) => sessions::swept(old(self).sessions@, k, old(self).config.session_ttl_secs, now),
                None => old(self).sessions@,
            }),
            final(self).config == old(self).config,
            final(self).soul_did == old(self).soul_did,
    {
        let key = sessions::key_of_step(c.prompt, c.trust, c.stimulus);
        let resume = match &key {
            Some(k) => self.sticky_resume(k, now),
            None => None,
        };
        let watermark = match &resume {
            Some(s) => Some(s.last_used),
            None => None,
        };
        let v = Scene {
            prompt: c.prompt,
            step: c.step,
            stimulus: c.stimulus,
            trust: c.trust,
            ceiling: c.ceiling,
            soul_root: c.soul_root,
            servers: &servers,
            reachable: c.reachable,
            resume: watermark,
            ground: c.ground,
            history: c.history,
            now,
        };
        assert(mcp::mcp_views(servers).dom() == servers@.dom());
        assert(v@ == scene(*c, mcp::mcp_views(servers).dom(), resume, now));
        let blocks = context::step_blocks(&v);
        let session = match &resume {
            Some(s) => Some(s.id.clone()),
            None => None,
        };
        let agents: TextMap<Value> = TextMap::new();
        assert(agent_views(agents) == Map::<Seq<char>, Tree>::empty());
        let mounts: Vec<Mount> = Vec::new();
        assert(mount_views(mounts@) == Seq::<(Seq<char>, Seq<char>, bool)>::empty());
        let request = InvocationRequest {
            system_prompt: system_prompt_for_prompt(c.prompt, c.soul),
            scope: Scope::State(c.prompt.state),
            blocks,
            session,
            workdir: c.soul_root.to_owned(),
            secret_env: TextMap::new(),
            mcp_servers: servers,
            model: model_for(&self.config, c.prompt),
            agents,
            isolate: false,
            mounts,
            allowed_tools: None,
            timeout_secs: invoke_timeout_override(&self.config, c.prompt.state),
        };
        Plan { request, session_key: key }
    }
}

/// A wake on which a step reached outward, or which modified the agent itself, must not be run again;
/// what an earlier step did is not undone by a later one.
pub open spec fn spent(already: bool, acted_outward: bool, state: ConsciousnessState) -> bool {
    already || acted_outward || state is Reflect
}

/// Whether running a wake again after this step would be unsafe, given whether it already was. It holds
/// however the step ended.
pub fn unretryable(already: bool, acted_outward: bool, state: ConsciousnessState) -> (r: bool)
    ensures
        r == (already || acted_outward || state is Reflect),
        r == spent(already, acted_outward, state),
{
    already || acted_outward || state == ConsciousnessState::Reflect
}

/// Whether a wake is spent after its first `n` steps, each with whether it reached outward and its
/// state.
pub open spec fn spent_after(steps: Seq<(bool, ConsciousnessState)>, n: int) -> bool
    decreases n,
{
    n > 0 && spent(spent_after(steps, n - 1), steps[n - 1].0, steps[n - 1].1)
}

/// A spent wake stays spent: it is spent exactly where one of its steps reached outward or reflected,
/// and no later step clears that.
pub proof fn a_spent_wake_stays_spent(steps: Seq<(bool, ConsciousnessState)>, n: int, m: int)
    requires
        0 <= n <= m <= steps.len(),
    ensures
        spent_after(steps, n) ==> spent_after(steps, m),
        spent_after(steps, m) == exists|i: int| 0 <= i < m && ((#[trigger] steps[i]).0 || steps[i].1 is Reflect),
    decreases m,
{
    if m > 0 {
        a_spent_wake_stays_spent(steps, if n < m { n } else { m - 1 }, m - 1);
        if spent_after(steps, m - 1) {
            let i = choose|i: int| 0 <= i < m - 1 && ((#[trigger] steps[i]).0 || steps[i].1 is Reflect);
            assert(steps[i].0 || steps[i].1 is Reflect);
        } else if spent_after(steps, m) {
            assert(steps[m - 1].0 || steps[m - 1].1 is Reflect);
        }
    }
}

/// What came back from a step.
pub struct Reply {
    pub output: AgentOutput,
    /// The session it ran in.
    pub session: Option<String>,
    /// How large its context has grown; 0 where that is not known.
    pub context_tokens: u64,
}

/// The tags of a step: the conversation where the prompt asks for it, and those that its baton carries.
pub open spec fn step_tags(tag_key: bool, dedup_key: Option<Seq<char>>, step: StepView) -> Seq<Seq<char>> {
    let own = if tag_key {
        match dedup_key {
            Some(k) => seq![k],
            None => Seq::empty(),
        }
    } else {
        Seq::empty()
    };
    match step {
        StepView::Entry => own,
        StepView::Act(b) => text::merged(own, b.tags),
    }
}

/// The tags under which a step is written down.
pub fn runlog_tags(prompt: &StatePrompt, stimulus: &Stimulus, step: &StepInput) -> (r: Vec<String>)
    ensures
        text::views(r@) == step_tags(prompt.context.tag_key, stimulus@.dedup_key, step@),
{
    let mut tags: Vec<String> = Vec::new();
    assert(text::views(tags@) == Seq::<Seq<char>>::empty());
    if prompt.context.tag_key {
        if let Some(k) = &stimulus.dedup_key {
            let t = k.clone();
            tags.push(t);
            assert(text::views(tags@) == seq![t@]);
        }
    }
    if let StepInput::Act(b) = step {
        text::merge(&mut tags, &b.tags);
    }
    tags
}

/// The id of a run: the stimulus and the state, and from the second step on its number.
pub open spec fn run_id(stimulus: Seq<char>, state: ConsciousnessState, seq: int) -> Seq<char> {
    if seq > 1 {
        "run-"@ + stimulus + "-"@ + state::tag(state) + "-b"@ + text::decimal(seq)
    } else {
        "run-"@ + stimulus + "-"@ + state::tag(state)
    }
}

/// The id of a run.
pub fn run_id_of(stimulus: &Stimulus, state: ConsciousnessState, step_seq: usize) -> (r: String)
    ensures
        r@ == run_id(stimulus@.id, state, step_seq as int),
{
    let mut r = "run-".to_owned();
    r.append(&stimulus.id.0);
    r.append("-");
    r.append(state::state_tag(state));
    if step_seq > 1 {
        r.append("-b");
        let n = text::nat_text(step_seq as u128);
        r.append(&n);
    }
    r
}

/// No two steps of one wake have the same run id, in whichever states they run.
pub proof fn run_ids_do_not_collide(
    stimulus: Seq<char>,
    x: ConsciousnessState,
    a: int,
    y: ConsciousnessState,
    b: int,
)
    requires
        1 <= a < b,
    ensures
        run_id(stimulus, x, a) != run_id(stimulus, y, b),
{
    reveal_strlit("perceive");
    reveal_strlit("express");
    reveal_strlit("settle");
    reveal_strlit("reflect");
    reveal_strlit("-b");
    let ia = run_id(stimulus, x, a);
    let ib = run_id(stimulus, y, b);
    let front = "run-"@ + stimulus + "-"@;
    if x != y {
        assert(ia[front.len() as int] == state::tag(x)[0]);
        assert(ib[front.len() as int] == state::tag(y)[0]);
    } else {
        let head = front + state::tag(x);
        assert(ib == head + "-b"@ + text::decimal(b));
        if a > 1 {
            let k = head.len() + 2;
            assert(ia.skip(k as int) == text::decimal(a));
            assert(ib.skip(k as int) == text::decimal(b));
            text::lemma_digits_roundtrip(a as nat);
            text::lemma_digits_roundtrip(b as nat);
        } else {
            assert(ia == head);
            assert(ib.len() >= head.len() + 2);
        }
    }
}

/// A line on what a stimulus was.
pub open spec fn summary(s: StimulusView) -> Seq<char> {
    "source="@ + s.source + " type="@ + s.type_ + " directive_tier="@ + trust::debug_form(s.directive_tier)
        + " payload_tier="@ + trust::debug_form(s.payload_tier)
}

/// The record of a step.
pub open spec fn step_entry(
    s: StimulusView,
    state: ConsciousnessState,
    out: OutputView,
    calls: Seq<CallView>,
    seq: int,
    tags: Seq<Seq<char>>,
) -> EntryView {
    EntryView {
        run_id: run_id(s.id, state, seq),
        stimulus_id: s.id,
        source: s.source,
        state,
        context_summary: summary(s),
        baton: None,
        raw_stimulus: json::rendered(s.payload),
        tool_calls: calls,
        output: Some(out),
        outcome: None,
        timestamp: s.received_at as int,
        tags,
    }
}

/// The record of a step, for the runlog.
pub fn write_runlog(
    state: ConsciousnessState,
    stimulus: &Stimulus,
    out: &AgentOutput,
    tool_calls: Vec<ToolCallRecord>,
    step_seq: usize,
    tags: Vec<String>,
) -> (r: RunLogEntry)
    ensures
        r@ == step_entry(
            stimulus@,
            state,
            out@,
            runlog::call_views(tool_calls@),
            step_seq as int,
            text::views(tags@),
        ),
{
    let raw = json::render(&stimulus.payload);
    let mut s = "source=".to_owned();
    s.append(&stimulus.source);
    s.append(" type=");
    s.append(&stimulus.type_.0);
    s.append(" directive_tier=");
    s.append(&stimulus.directive_tier.debug());
    s.append(" payload_tier=");
    s.append(&stimulus.payload_tier.debug());
    RunLogEntry {
        run_id: run_id_of(stimulus, state, step_seq),
        stimulus_id: StimulusId(stimulus.id.0.clone()),
        source: stimulus.source.clone(),
        state,
        context_summary: s,
        baton: None,
        raw_stimulus: raw,
        tool_calls,
        output: Some(out.clone()),
        outcome: Outcome::Done,
        timestamp: stimulus.received_at,
        tags,
    }
}

/// A note to be appended to the catalogue, on its own: what it says of which tag, the trust it is
/// stamped with, when, and how many lines the catalogue keeps.
#[derive(Debug)]
pub struct NoteAppend {
    pub tag: String,
    pub note: String,
    pub trust: String,
    pub timestamp: i64,
    pub max: usize,
}

/// The contents of a note to be appended.
#[verifier::ext_equal]
pub struct AppendView {
    pub tag: Seq<char>,
    pub note: Seq<char>,
    pub trust: Seq<char>,
    pub timestamp: int,
    pub max: int,
}

impl View for NoteAppend {
    type V = AppendView;

    open spec fn view(&self) -> AppendView {
        AppendView {
            tag: self.tag@,
            note: self.note@,
            trust: self.trust@,
            timestamp: self.timestamp as int,
            max: self.max as int,
        }
    }
}

/// The contents of several notes to be appended.
pub open spec fn append_views(v: Seq<NoteAppend>) -> Seq<AppendView> {
    v.map_values(|n: NoteAppend| n@)
}

/// The appends of a step's notes: one for each that has a tag and a text, in order, trimmed, and
/// stamped with the trust of the cycle.
pub open spec fn honored(all: Seq<(Seq<char>, Seq<char>)>, trust: Seq<char>, now: i64, max: int) -> Seq<AppendView>
    decreases all.len(),
{
    if all.len() == 0 {
        Seq::empty()
    } else {
        let before = honored(all.drop_last(), trust, now, max);
        let (tag, note) = all.last();
        if text::blank(tag) || text::blank(note) {
            before
        } else {
            before.push(
                AppendView {
                    tag: text::trimmed(tag),
                    note: text::trimmed(note),
                    trust,
                    timestamp: now as int,
                    max,
                },
            )
        }
    }
}

/// The notes of an output.
pub open spec fn notes_of(out: OutputView) -> Seq<(Seq<char>, Seq<char>)> {
    match out.tag_notes {
        Some(n) => n,
        None => Seq::empty(),
    }
}

/// The notes that a step leaves, to be appended one by one: one that fails does not stop the rest. Any
/// state and any trust may leave notes; the trust they bear is the cycle's, never one that the model
/// names.
pub fn honor_tag_notes(cycle_trust: &TrustTier, out: &AgentOutput, now: i64, max: usize) -> (r: Vec<NoteAppend>)
    ensures
        append_views(r@) == honored(notes_of(out@), cycle_trust@, now, max as int),
{
    let mut r: Vec<NoteAppend> = Vec::new();
    assert(append_views(r@) == Seq::<AppendView>::empty());
    if let Some(v) = &out.tag_notes {
        let ghost all = proposal::note_views(v@);
        let mut i: usize = 0;
        assert(all.take(0) == Seq::<(Seq<char>, Seq<char>)>::empty());
        while i < v.len()
            invariant
                i <= v.len(),
                all == proposal::note_views(v@),
                append_views(r@) == honored(all.take(i as int), cycle_trust@, now, max as int),
            decreases v.len() - i,
        {
            assert(all.take(i + 1).drop_last() == all.take(i as int));
            assert(all.take(i + 1).last() == v@[i as int]@);
            let tag = text::trim(&v[i].tag);
            let note = text::trim(&v[i].note);
            if !tag.as_str().is_empty() && !note.as_str().is_empty() {
                let ghost before = r@;
                let n = NoteAppend { tag, note, trust: cycle_trust.name().to_owned(), timestamp: now, max };
                let ghost nv = n@;
                r.push(n);
                assert(append_views(r@) == append_views(before).push(nv));
            }
            i += 1;
        }
        assert(all.take(i as int) == all);
    }
    r
}

impl NoteAppend {
    /// The catalogue with this note.
    pub fn append_to(&self, catalogue: &str) -> (r: String)
        ensures
            r@ == text::joined(
                notes::with_line(
                    catalogue@,
                    json::rendered(notes::note_tree(self@.tag, self@.note, self@.trust, self@.timestamp)),
                    self@.max,
                ),
                "\n"@,
            ) + "\n"@,
            notes::clean(catalogue@) ==> notes::clean(r@) && notes::grown(
                notes::all_notes(catalogue@),
                notes::fresh_note(self@.tag, self@.note, self@.trust, self@.timestamp),
                notes::all_notes(r@),
            ),
    {
        notes::append_tag_note(catalogue, &self.tag, &self.note, &self.trust, self.timestamp, self.max)
    }

    /// The message of the commit that writes this note.
    pub fn message(&self) -> (r: String)
        ensures
            r@ == "tag-note: "@ + self@.tag,
    {
        let mut r = "tag-note: ".to_owned();
        r.append(&self.tag);
        r
    }
}

/// Whether every note of `after` was there before or bears that trust.
pub open spec fn stamped(before: Seq<NoteView>, trust: Seq<char>, after: Seq<NoteView>) -> bool {
    forall|i: int| 0 <= i < after.len() ==> before.contains(#[trigger] after[i]) || after[i].trust == trust
}

/// Whether the notes went from `before` to `after` by an append: grown by the note where it succeeded,
/// else as they were.
pub open spec fn one_append(before: Seq<NoteView>, n: AppendView, succeeded: bool, after: Seq<NoteView>) -> bool {
    if succeeded {
        notes::grown(before, notes::fresh_note(n.tag, n.note, n.trust, n.timestamp), after)
    } else {
        after == before
    }
}

/// Provenance cannot be faked: whichever of a step's appends succeed, every note that then stands in
/// the catalogue was there before or bears the trust of the cycle.
pub proof fn notes_bear_the_trust_of_the_cycle(
    all: Seq<(Seq<char>, Seq<char>)>,
    trust: Seq<char>,
    now: i64,
    max: int,
    succeeded: Seq<bool>,
    states: Seq<Seq<NoteView>>,
)
    requires
        states.len() == honored(all, trust, now, max).len() + 1,
        forall|i: int|
            0 <= i < honored(all, trust, now, max).len() ==> #[trigger] one_append(
                states[i],
                honored(all, trust, now, max)[i],
                succeeded[i],
                states[i + 1],
            ),
    ensures
        stamped(states[0], trust, states.last()),
{
    lemma_honored_trust(all, trust, now, max);
    lemma_stamped_so_far(honored(all, trust, now, max), trust, succeeded, states, states.len() - 1);
}

proof fn lemma_honored_trust(all: Seq<(Seq<char>, Seq<char>)>, trust: Seq<char>, now: i64, max: int)
    ensures
        forall|i: int|
            0 <= i < honored(all, trust, now, max).len() ==> (#[trigger] honored(all, trust, now, max)[i]).trust
                == trust,
    decreases all.len(),
{
    if all.len() > 0 {
        lemma_honored_trust(all.drop_last(), trust, now, max);
        let (h, d) = (honored(all, trust, now, max), honored(all.drop_last(), trust, now, max));
        assert forall|i: int| 0 <= i < h.len() implies (#[trigger] h[i]).trust == trust by {
            if i < d.len() {
                assert(h[i] == d[i]);
            }
        }
    }
}

proof fn lemma_stamped_so_far(
    appends: Seq<AppendView>,
    trust: Seq<char>,
    succeeded: Seq<bool>,
    states: Seq<Seq<NoteView>>,
    n: int,
)
    requires
        0 <= n <= appends.len(),
        states.len() == appends.len() + 1,
        forall|i: int| 0 <= i < appends.len() ==> (#[trigger] appends[i]).trust == trust,
        forall|i: int|
            0 <= i < appends.len() ==> #[trigger] one_append(
                states[i],
                appends[i],
                succeeded[i],
                states[i + 1],
            ),
    ensures
        stamped(states[0], trust, states[n]),
    decreases n,
{
    let before = states[0];
    if n == 0 {
        assert forall|i: int| 0 <= i < before.len() implies before.contains(#[trigger] before[i]) by {}
    } else {
        lemma_stamped_so_far(appends, trust, succeeded, states, n - 1);
        let earlier = states[n - 1];
        let after = states[n];
        assert(one_append(earlier, appends[n - 1], succeeded[n - 1], states[n - 1 + 1]));
        assert(appends[n - 1].trust == trust);
        if succeeded[n - 1] {
            let new = notes::fresh_note(
                appends[n - 1].tag,
                appends[n - 1].note,
                appends[n - 1].trust,
                appends[n - 1].timestamp,
            );
            let k = choose|k: int| 0 <= k <= earlier.len() && after == #[trigger] earlier.push(new).skip(k);
            assert forall|i: int| 0 <= i < after.len() implies before.contains(#[trigger] after[i])
                || after[i].trust == trust by {
                assert(after[i] == earlier.push(new)[i + k]);
                if i + k < earlier.len() {
                    assert(after[i] == earlier[i + k]);
                }
            }
        }
    }
}

/// What a step leaves behind.
pub struct Finished {
    /// The trust of what it touched.
    pub accessed: Option<TrustTier>,
    /// The notes it leaves, each to be appended on its own.
    pub notes: Vec<NoteAppend>,
    pub entry: RunLogEntry,
}

/// The contents of an optional tier.
pub open spec fn opt_tier(t: Option<TrustTier>) -> Option<Seq<char>> {
    match t {
        Some(x) => Some(x@),
        None => None,
    }
}

impl Harness {
    /// Settles a step that has run: its session, the trust of what it touched, its notes, and its
    /// record for the runlog.
    pub fn finish_step(
        &mut self,
        c: &Cast,
        session_key: Option<&str>,
        reply: &Reply,
        tool_calls: Vec<ToolCallRecord>,
        step_seq: usize,
        now: i64,
    ) -> (r: Finished)
        ensures
            opt_tier(r.accessed) == mcp::touched(
                old(self).config.lattice@,
                old(self).config.mcp_servers@,
                runlog::call_views(tool_calls@),
            ),
            append_views(r.notes@) == honored(
                notes_of(reply.output@),
                c.trust@,
                now,
                old(self).config.tag_notes_max as int,
            ),
            r.entry@ == step_entry(
                c.stimulus@,
                c.prompt.state,
                reply.output@,
                runlog::call_views(tool_calls@),
                step_seq as int,
                step_tags(c.prompt.context.tag_key, c.stimulus@.dedup_key, c.step@),
            ),
            sessions::session_views(final(self).sessions@) == sessions::settled(
                sessions::session_views(old(self).sessions@),
                text::opt_str(session_key),
                text::opt(reply.session),
                sessions::oversized(old(self).config.session_max_context_tokens, reply.context_tokens),
                now,
            ),
            final(self).config == old(self).config,
            final(self).soul_did == old(self).soul_did,
    {
        let ran = match &reply.session {
            Some(s) => Some(s.as_str()),
            None => None,
        };
        self.settle_session(session_key, ran, reply.context_tokens, now);
        let accessed = mcp::accessed_trust(&self.config, &tool_calls);
        let notes = honor_tag_notes(c.trust, &reply.output, now, self.config.tag_notes_max);
        let tags = runlog_tags(c.prompt, c.stimulus, c.step);
        let entry = write_runlog(c.prompt.state, c.stimulus, &reply.output, tool_calls, step_seq, tags);
        Finished { accessed, notes, entry }
    }
}

/// No token and no secret reaches the model: neither the system message nor any block of a step
/// depends on how its servers are reached, only on their names, and its environment is empty.
pub proof fn a_token_never_reaches_the_model(
    config: DackConfig,
    c: Cast,
    a: Map<Seq<char>, McpView>,
    b: Map<Seq<char>, McpView>,
    resume: Option<Session>,
    now: i64,
)
    requires
        a.dom() == b.dom(),
    ensures
        step_request(config, c, a, resume, now) == (RequestView {
            mcp_servers: a,
            ..step_request(config, c, b, resume, now)
        }),
        step_request(config, c, a, resume, now).secret_env == Map::<Seq<char>, String>::empty(),
{
}

/// The system message is the same on every wake of a prompt, so that it can be cached.
pub proof fn the_system_message_is_stable(
    config: DackConfig,
    c: Cast,
    a: Map<Seq<char>, McpView>,
    b: Map<Seq<char>, McpView>,
    r1: Option<Session>,
    r2: Option<Session>,
    t1: i64,
    t2: i64,
)
    ensures
        step_request(config, c, a, r1, t1).system_prompt == step_request(config, c, b, r2, t2).system_prompt,
{
}

/// The system message is the soul and behind it the prompt's own rules, each without the blanks around
/// it; where one of them is blank it is the other alone, and where both are it names the state and the
/// prompt.
pub proof fn the_system_message_is_soul_and_rules(
    state: ConsciousnessState,
    id: Seq<char>,
    frame: Seq<char>,
    soul: Seq<char>,
)
    ensures
        ({
            let m = system_prompt(state, id, frame, soul);
            &&& !text::blank(soul) ==> text::trimmed_end(soul).is_prefix_of(m)
            &&& !text::blank(frame) ==> text::trimmed(frame).is_suffix_of(m)
            &&& !text::blank(soul) && !text::blank(frame) ==> m.len() == text::trimmed_end(soul).len()
                + "\n\n---\n\n"@.len() + text::trimmed(frame).len()
            &&& !text::blank(soul) && text::blank(frame) ==> m.len() == text::trimmed_end(soul).len()
            &&& text::blank(soul) && !text::blank(frame) ==> m.len() == text::trimmed(frame).len()
            &&& text::blank(soul) && text::blank(frame) ==> m == "You are a DACK actor in the "@ + state::name(state)
                + " state ("@ + id + ")."@
        }),
{
    let m = system_prompt(state, id, frame, soul);
    let s = text::trimmed_end(soul);
    let f = text::trimmed(frame);
    if !text::blank(soul) {
        assert(m.subrange(0, s.len() as int) == s);
    }
    if !text::blank(frame) {
        assert(m.subrange(m.len() - f.len(), m.len() as int) == f);
    }
}

/// A step runs on its prompt's own model where the operator lets the state choose and the prompt names
/// one, and on the operator's in every other case. Only a Reflect has a time of its own.
pub proof fn a_model_and_a_time_for_a_step(policy: TierPolicy, own: Option<Seq<char>>, config: DackConfig)
    ensures
        policy.allow_model_override && own is Some ==> effective_model(policy, own) == own,
        !policy.allow_model_override || own is None ==> (policy.model matches Some(m) ==> effective_model(policy, own)
            == Some(m@)),
        !policy.allow_model_override || own is None ==> (policy.model is None ==> effective_model(policy, own) is None),
        time_allowed(config, ConsciousnessState::Reflect) == config.reflect_invoke_timeout_secs,
        time_allowed(config, ConsciousnessState::Perceive) is None,
        time_allowed(config, ConsciousnessState::Express) is None,
        time_allowed(config, ConsciousnessState::Settle) is None,
{
}

/// A step is offered the transitions of its prompt, in their order, whose prompt was found and whose
/// state stands within the ceiling, and no others.
pub proof fn a_transition_is_offered_within_the_ceiling(
    ids: Seq<Seq<char>>,
    id: Seq<char>,
    states: Seq<Option<ConsciousnessState>>,
    ceiling: ConsciousnessState,
)
    ensures
        offered(Seq::empty(), states, ceiling) == Seq::<Seq<char>>::empty(),
        ids.len() >= states.len() ==> offered(ids.push(id), states, ceiling) == offered(ids, states, ceiling),
        ids.len() < states.len() ==> (states[ids.len() as int] is None ==> offered(ids.push(id), states, ceiling)
            == offered(ids, states, ceiling)),
        ids.len() < states.len() ==> (states[ids.len() as int] matches Some(s) ==> offered(
            ids.push(id),
            states,
            ceiling,
        ) == (if state::within(s, ceiling) {
            offered(ids, states, ceiling).push(id)
        } else {
            offered(ids, states, ceiling)
        })),
{
    assert(ids.push(id).drop_last() == ids);
}

/// The request of a step: its own prompt and soul in the system message, its message of the scene as it
/// stands, the session that it goes on in, its servers, and nothing of a worker's.
pub proof fn a_request_is_of_its_step(
    config: DackConfig,
    c: Cast,
    servers: Map<Seq<char>, McpView>,
    resume: Option<Session>,
    now: i64,
)
    ensures
        ({
            let r = step_request(config, c, servers, resume, now);
            let v = scene(c, servers.dom(), resume, now);
            &&& r.system_prompt == system_prompt(c.prompt.state, c.prompt.id@, c.prompt.system_frame@, c.soul@)
            &&& r.scope == Scope::State(c.prompt.state)
            &&& r.blocks == context::message(v)
            &&& resume is None ==> r.session is None && v.resume is None
            &&& resume matches Some(s) ==> r.session == Some(s.id@) && v.resume == Some(s.last_used)
            &&& r.workdir == c.soul_root@
            &&& r.mcp_servers == servers
            &&& r.agents == Map::<Seq<char>, Tree>::empty()
            &&& !r.isolate
            &&& r.mounts.len() == 0
            &&& r.allowed_tools is None
            &&& r.model == effective_model(config.tier_policy.at(c.prompt.state), text::opt(c.prompt.model))
            &&& r.timeout_secs == time_allowed(config, c.prompt.state)
            &&& v.prompt == *c.prompt
            &&& v.step == c.step@
            &&& v.stimulus == c.stimulus@
            &&& v.trust == c.trust@
            &&& v.ceiling == c.ceiling
            &&& v.soul_root == c.soul_root@
            &&& v.servers == servers.dom()
            &&& v.reachable == text::views(c.reachable@)
            &&& v.ground == c.ground@
            &&& v.history == c.history@
            &&& v.now == now
        }),
{
}

/// A step goes on in the session that is kept under its key, where its prompt keeps one and it is still
/// alive; else it starts a fresh one.
pub proof fn a_step_goes_on_in_its_session(h: Harness, c: Cast, now: i64, k: Seq<char>)
    ensures
        sessions::kept_key(*c.prompt, c.trust@, c.stimulus@) is None ==> resumed(h, c, now) is None,
        sessions::kept_key(*c.prompt, c.trust@, c.stimulus@) == Some(k) ==> resumed(h, c, now)
            == sessions::resumable(h.sessions@, k, h.config.session_ttl_secs, now),
{
}

/// A step is tagged with its conversation where its prompt asks for that, and an act step with the tags
/// of its baton behind it, each once.
pub proof fn a_step_is_tagged(tag_key: bool, dedup_key: Option<Seq<char>>, step: StepView, t: Seq<char>)
    ensures
        step_tags(tag_key, dedup_key, step).contains(t) <==> (tag_key && dedup_key == Some(t)) || (step matches StepView::Act(
            b,
        ) && b.tags.contains(t)),
        step_tags(tag_key, dedup_key, step).no_duplicates(),
        tag_key ==> (dedup_key matches Some(k) ==> step_tags(tag_key, dedup_key, step)[0] == k),
{
    let own = if tag_key {
        match dedup_key {
            Some(k) => seq![k],
            None => Seq::empty(),
        }
    } else {
        Seq::empty()
    };
    if own.len() > 0 {
        assert(own[0] == dedup_key->0);
    }
    if let StepView::Act(b) = step {
        text::a_merge_adds_what_is_new(own, b.tags, t);
        if own.len() > 0 {
            let m = text::merged(own, b.tags);
            assert(m.subrange(0, 1)[0] == own[0]);
        }
    }
}

/// A run is known by its stimulus and its state, and behind the first step by its number.
pub proof fn a_run_is_known_by_its_stimulus(stimulus: Seq<char>, state: ConsciousnessState, seq: int)
    ensures
        seq <= 1 ==> run_id(stimulus, state, seq) == "run-"@ + stimulus + "-"@ + state::tag(state),
        seq > 1 ==> run_id(stimulus, state, seq) == "run-"@ + stimulus + "-"@ + state::tag(state) + "-b"@
            + text::decimal(seq),
{
}

/// The record of a step is of what it was and did: its stimulus, its state, its output and its calls,
/// under its tags and at the time the stimulus came, with the payload set apart as the raw stimulus.
pub proof fn a_record_is_of_its_step(
    s: StimulusView,
    state: ConsciousnessState,
    out: OutputView,
    calls: Seq<CallView>,
    seq: int,
    tags: Seq<Seq<char>>,
)
    ensures
        ({
            let e = step_entry(s, state, out, calls, seq, tags);
            &&& e.run_id == run_id(s.id, state, seq)
            &&& e.stimulus_id == s.id
            &&& e.source == s.source
            &&& e.state == state
            &&& e.context_summary == "source="@ + s.source + " type="@ + s.type_ + " directive_tier="@
                + trust::debug_form(s.directive_tier) + " payload_tier="@ + trust::debug_form(s.payload_tier)
            &&& e.raw_stimulus == json::rendered(s.payload)
            &&& e.tool_calls == calls
            &&& e.output == Some(out)
            &&& e.outcome is None
            &&& e.timestamp == s.received_at
            &&& e.tags == tags
        }),
{
}

/// Each note of a step is one append, in order, of its tag and its text without the blanks around them,
/// at the present time; a note with a blank tag or a blank text is none.
pub proof fn each_note_is_one_append(
    all: Seq<(Seq<char>, Seq<char>)>,
    tag: Seq<char>,
    note: Seq<char>,
    trust: Seq<char>,
    now: i64,
    max: int,
)
    ensures
        honored(Seq::empty(), trust, now, max) == Seq::<AppendView>::empty(),
        text::blank(tag) || text::blank(note) ==> honored(all.push((tag, note)), trust, now, max) == honored(
            all,
            trust,
            now,
            max,
        ),
        !text::blank(tag) && !text::blank(note) ==> ({
            let before = honored(all, trust, now, max);
            let after = honored(all.push((tag, note)), trust, now, max);
            &&& after.drop_last() == before
            &&& after.len() == before.len() + 1
            &&& after.last().tag == text::trimmed(tag)
            &&& after.last().note == text::trimmed(note)
            &&& after.last().trust == trust
            &&& after.last().timestamp == now
            &&& after.last().max == max
        }),
{
    assert(all.push((tag, note)).drop_last() == all);
}

/// The notes of a step are those of its output.
pub proof fn the_notes_are_the_outputs(out: OutputView, n: Seq<(Seq<char>, Seq<char>)>)
    ensures
        out.tag_notes == Some(n) ==> notes_of(out) == n,
        out.tag_notes is None ==> notes_of(out).len() == 0,
{
}

} // verus!
