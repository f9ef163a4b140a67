//! What a step is shown: the blocks of its message, each marked as trusted or not.

use vstd::prelude::*;

use crate::clock;
use crate::harness::dispatch::StepInput;
use crate::harness::dispatch::StepView;
use crate::harness::environment;
use crate::harness::mcp::McpConfig;
use crate::health;
use crate::health::HealthSnapshot;
use crate::health::HealthView;
use crate::json;
use crate::json::Tree;
use crate::model::baton::Baton;
use crate::model::baton::BatonView;
use crate::model::stimulus::Stimulus;
use crate::model::stimulus::StimulusView;
use crate::prompt::ContextConfig;
use crate::prompt::Directive;
use crate::prompt::RunlogContext;
use crate::prompt::StatePrompt;
use crate::runlog::reader;
use crate::runlog::stats::RunlogStats;
use crate::runlog::stats::StatsView;
use crate::state;
use crate::state::ConsciousnessState;
use crate::text;
use crate::text_map;
use crate::text_map::TextMap;
use crate::trust;
use crate::trust::TrustTier;

verus! {

/// One block of the message. The bridge fences a block that is not trusted.
#[derive(Debug)]
pub struct ContextBlock {
    pub label: String,
    pub body: String,
    pub trusted: bool,
}

/// The contents of a block.
#[verifier::ext_equal]
pub struct ContextView {
    pub label: Seq<char>,
    pub body: Seq<char>,
    pub trusted: bool,
}

impl View for ContextBlock {
    type V = ContextView;

    open spec fn view(&self) -> ContextView {
        ContextView { label: self.label@, body: self.body@, trusted: self.trusted }
    }
}

/// The contents of several blocks.
pub open spec fn block_views(v: Seq<ContextBlock>) -> Seq<ContextView> {
    v.map_values(|b: ContextBlock| b@)
}

/// A block of the harness's own making.
pub open spec fn trusted(label: Seq<char>, body: Seq<char>) -> ContextView {
    ContextView { label, body, trusted: true }
}

/// A trusted block, where it has a body.
pub open spec fn trusted_if(label: Seq<char>, body: Option<Seq<char>>) -> Seq<ContextView> {
    match body {
        Some(b) => seq![trusted(label, b)],
        None => Seq::empty(),
    }
}

fn push_block(out: &mut Vec<ContextBlock>, label: &str, body: String)
    ensures
        block_views(final(out)@) == block_views(old(out)@) + seq![trusted(label@, body@)],
{
    let ghost before = out@;
    out.push(ContextBlock { label: label.to_owned(), body, trusted: true });
    assert(block_views(out@) == block_views(before) + seq![trusted(label@, body@)]);
}

/// The tools that a step has beyond its files.
pub open spec fn capabilities(servers: Set<Seq<char>>) -> Seq<char> {
    let names = text_map::in_order(servers);
    if names.len() == 0 {
        "none this step (built-in file tools only)"@
    } else {
        text::joined(names.map_values(|n: Seq<char>| "mcp__"@ + n + "__*"@), ", "@)
    }
}

/// The facts a step cannot read from a file: the time, where it stands, what it has at hand, and how
/// far its trust lets it go.
pub open spec fn orientation(
    now: i64,
    state: ConsciousnessState,
    id: Seq<char>,
    soul_root: Seq<char>,
    servers: Set<Seq<char>>,
    trust: Seq<char>,
    ceiling: ConsciousnessState,
) -> Seq<char> {
    "now: "@ + clock::utc_now(now as int) + " (authoritative — this is the real current time)\nstate: "@ + state::name(
        state,
    ) + " (prompt `"@ + id + "`)\nworking_dir: "@ + soul_root + "\ncapabilities_this_step: "@ + capabilities(servers)
        + "\ncycle_trust: "@ + trust + " -> may reach up to: "@ + state::name(ceiling)
        + "\nnext_steps: see the allowed-transitions block."@
}

fn capabilities_text(servers: &TextMap<McpConfig>) -> (r: String)
    ensures
        r@ == capabilities(servers@.dom()),
{
    let n: usize = servers.len();
    let ghost keys = servers.keys();
    if n == 0 {
        return "none this step (built-in file tools only)".to_owned();
    }
    let ghost want = keys.map_values(|n: Seq<char>| "mcp__"@ + n + "__*"@);
    let mut out: Vec<String> = Vec::new();
    let mut i: usize = 0;
    while i < n
        invariant
            i <= n,
            n == keys.len(),
            keys == servers.keys(),
            want == keys.map_values(|n: Seq<char>| "mcp__"@ + n + "__*"@),
            text::views(out@) == want.take(i as int),
        decreases n - i,
    {
        let mut t = "mcp__".to_owned();
        t.append(servers.key_at(i));
        t.append("__*");
        assert(t@ == want[i as int]);
        let ghost before = out@;
        out.push(t);
        assert(text::views(out@) == text::views(before).push(t@));
        i += 1;
        assert(text::views(out@) == want.take(i as int));
    }
    assert(want.take(i as int) == want);
    text::join(&out, ", ")
}

/// The orientation of a step: live facts only, never instructions.
pub fn orientation_block(
    prompt: &StatePrompt,
    soul_root: &str,
    mcp_servers: &TextMap<McpConfig>,
    cycle_trust: &TrustTier,
    ceiling: ConsciousnessState,
    now: i64,
) -> (r: ContextBlock)
    ensures
        r@ == trusted(
            "orientation"@,
            orientation(now, prompt.state, prompt.id@, soul_root@, mcp_servers@.dom(), cycle_trust@, ceiling),
        ),
{
    let mut b = "now: ".to_owned();
    let t = clock::fmt_now(now);
    b.append(&t);
    b.append(" (authoritative — this is the real current time)\nstate: ");
    b.append(state::state_name(prompt.state));
    b.append(" (prompt `");
    b.append(&prompt.id);
    b.append("`)\nworking_dir: ");
    b.append(soul_root);
    b.append("\ncapabilities_this_step: ");
    let c = capabilities_text(mcp_servers);
    b.append(&c);
    b.append("\ncycle_trust: ");
    b.append(cycle_trust.name());
    b.append(" -> may reach up to: ");
    b.append(state::state_name(ceiling));
    b.append("\nnext_steps: see the allowed-transitions block.");
    ContextBlock { label: "orientation".to_owned(), body: b, trusted: true }
}

/// The references of a baton, one on a line.
pub open spec fn ref_lines(refs: Map<Seq<char>, Seq<char>>) -> Seq<Seq<char>> {
    text_map::in_order(refs.dom()).map_values(|k: Seq<char>| "  "@ + k + ": "@ + refs[k])
}

/// A baton as an act state reads it.
pub open spec fn baton_text(b: BatonView) -> Seq<char> {
    "gist: "@ + b.gist + (if b.refs == Map::<Seq<char>, Seq<char>>::empty() {
        Seq::empty()
    } else {
        "\nrefs (harness-provided):\n"@ + text::joined(ref_lines(b.refs), "\n"@)
    }) + "\n(directive_tier="@ + trust::debug_form(b.directive_tier) + " payload_tier="@ + trust::debug_form(
        b.payload_tier,
    ) + " runlog_ref="@ + b.runlog_ref + ")"@
}

fn refs_text(refs: &TextMap<String>) -> (r: String)
    ensures
        r@ == text::joined(ref_lines(text_map::texts(*refs)), "\n"@),
{
    let n: usize = refs.len();
    let ghost m = text_map::texts(*refs);
    assert(m.dom() == refs@.dom());
    let ghost keys = refs.keys();
    let ghost want = ref_lines(m);
    let mut out: Vec<String> = Vec::new();
    let mut i: usize = 0;
    while i < n
        invariant
            i <= n,
            n == keys.len(),
            keys == refs.keys(),
            m == text_map::texts(*refs),
            m.dom() == refs@.dom(),
            want == ref_lines(m),
            text::views(out@) == want.take(i as int),
        decreases n - i,
    {
        let mut l = "  ".to_owned();
        l.append(refs.key_at(i));
        l.append(": ");
        l.append(refs.value_at(i));
        assert(l@ == want[i as int]);
        let ghost before = out@;
        out.push(l);
        assert(text::views(out@) == text::views(before).push(l@));
        i += 1;
        assert(text::views(out@) == want.take(i as int));
    }
    assert(want.take(i as int) == want);
    text::join(&out, "\n")
}

/// The block an act state is opened with: the agent's own digest and the harness's references.
pub fn baton_block(baton: &Baton) -> (r: ContextBlock)
    ensures
        r@ == trusted("baton"@, baton_text(baton@)),
{
    let mut b = "gist: ".to_owned();
    b.append(&baton.gist);
    let none = baton.refs.is_empty();
    proof {
        let m = text_map::texts(baton.refs);
        assert(m.dom() == baton.refs@.dom());
        if m == Map::<Seq<char>, Seq<char>>::empty() {
            assert(baton.refs@ == Map::<Seq<char>, String>::empty());
        }
        if none {
            assert(m == Map::<Seq<char>, Seq<char>>::empty());
        }
    }
    if none {
        assert(b@ == b@ + Seq::<char>::empty());
    } else {
        let mut refs = "\nrefs (harness-provided):\n".to_owned();
        let l = refs_text(&baton.refs);
        refs.append(&l);
        b.append(&refs);
    }
    b.append("\n(directive_tier=");
    b.append(&baton.directive_tier.debug());
    b.append(" payload_tier=");
    b.append(&baton.payload_tier.debug());
    b.append(" runlog_ref=");
    b.append(&baton.runlog_ref);
    b.append(")");
    ContextBlock { label: "baton".to_owned(), body: b, trusted: true }
}

/// What a step is told of the steps it may take next.
pub open spec fn transitions_text(reachable: Seq<Seq<char>>) -> Seq<char> {
    if reachable.len() == 0 {
        "This is a terminal step (or every onward step is above your current trust ceiling): return an empty \"batons\": [] (do not continue)."@
    } else {
        "Continue by returning \"batons\": a JSON array. Each element is {\"to_prompt\": <one of the ids below>, \"gist\": <your digested intent for THAT branch>} (optional \"priority\": \"low\"|\"normal\"|\"high\"|\"urgent\"). ONE element = take that single next step; SEVERAL = do them all at once, each its own gist (e.g. reply here AND open a research branch); [] = stop here. Each branch acts on its OWN gist and is gated independently by your trust ceiling — a branch above it is dropped. Allowed next state-prompts:\n"@
            + text::joined(reachable.map_values(|t: Seq<char>| "  - "@ + t), "\n"@)
    }
}

/// The closing block: the exact set of next steps, or that there is none.
pub fn transitions_block(reachable: &[String]) -> (r: ContextBlock)
    ensures
        r@ == trusted("allowed-transitions"@, transitions_text(text::views(reachable@))),
{
    let ghost ids = text::views(reachable@);
    assert(ids.len() == reachable@.len());
    let body = if reachable.len() == 0 {
        "This is a terminal step (or every onward step is above your current trust ceiling): return an empty \"batons\": [] (do not continue).".to_owned()
    } else {
        let ghost want = ids.map_values(|t: Seq<char>| "  - "@ + t);
        let mut out: Vec<String> = Vec::new();
        let mut i: usize = 0;
        while i < reachable.len()
            invariant
                i <= reachable.len(),
                ids == text::views(reachable@),
                want == ids.map_values(|t: Seq<char>| "  - "@ + t),
                text::views(out@) == want.take(i as int),
            decreases reachable.len() - i,
        {
            let mut l = "  - ".to_owned();
            l.append(&reachable[i]);
            assert(l@ == want[i as int]);
            let ghost before = out@;
            out.push(l);
            assert(text::views(out@) == text::views(before).push(l@));
            i += 1;
            assert(text::views(out@) == want.take(i as int));
        }
        assert(want.take(i as int) == want);
        let mut b = "Continue by returning \"batons\": a JSON array. Each element is {\"to_prompt\": <one of the ids below>, \"gist\": <your digested intent for THAT branch>} (optional \"priority\": \"low\"|\"normal\"|\"high\"|\"urgent\"). ONE element = take that single next step; SEVERAL = do them all at once, each its own gist (e.g. reply here AND open a research branch); [] = stop here. Each branch acts on its OWN gist and is gated independently by your trust ceiling — a branch above it is dropped. Allowed next state-prompts:\n".to_owned();
        let l = text::join(&out, "\n");
        b.append(&l);
        b
    };
    ContextBlock { label: "allowed-transitions".to_owned(), body, trusted: true }
}

/// What the runlog holds that a step may be shown.
pub struct History<'a> {
    pub stats: &'a RunlogStats,
    /// The catalogue of notes.
    pub catalogue: &'a str,
    pub yesterday: &'a str,
    pub today: &'a str,
}

/// The contents of a history.
#[verifier::ext_equal]
pub struct HistoryView {
    pub stats: StatsView,
    pub catalogue: Seq<char>,
    pub yesterday: Seq<char>,
    pub today: Seq<char>,
}

impl<'a> View for History<'a> {
    type V = HistoryView;

    open spec fn view(&self) -> HistoryView {
        HistoryView {
            stats: self.stats@,
            catalogue: self.catalogue@,
            yesterday: self.yesterday@,
            today: self.today@,
        }
    }
}

/// A text under a heading, unless it is blank.
pub open spec fn under(heading: Seq<char>, body: Seq<char>) -> Option<Seq<char>> {
    if text::blank(body) {
        None
    } else {
        Some(heading + body)
    }
}

/// The entries of this thread on a fresh wake: the last ones, whole.
pub open spec fn thread(h: HistoryView, tag: Option<Seq<char>>, max: int) -> Option<Seq<char>> {
    match tag {
        Some(t) => if max > 0 {
            under(
                "Recent history of THIS conversation (tag `"@ + t + "`), oldest→newest:\n\n"@,
                clock::humanized(reader::two_days(h.yesterday, h.today, None, max, Some(t))),
            )
        } else {
            None
        },
        None => None,
    }
}

/// From when on a resumed session is shown its thread: since it last woke, and at most so far back.
pub open spec fn window(since: i64, now: i64, lookback: i64) -> i64 {
    let floor = now - (if lookback > 0 {
        lookback as int
    } else {
        0
    });
    if floor > since {
        floor as i64
    } else {
        since
    }
}

/// The entries of this thread that a resumed session has not seen.
pub open spec fn thread_since(h: HistoryView, tag: Option<Seq<char>>, cfg: RunlogContext, since: i64, now: i64) -> Option<
    Seq<char>,
> {
    match tag {
        Some(t) => if cfg.thread > 0 {
            under(
                "THIS conversation (tag `"@ + t + "`) since you last woke:\n\n"@,
                clock::humanized(
                    reader::two_days(
                        h.yesterday,
                        h.today,
                        Some(window(since, now, cfg.thread_recent_lookback_secs)),
                        1000,
                        Some(t),
                    ),
                ),
            )
        } else {
            None
        },
        None => None,
    }
}

/// What a step is shown of the runlog. A fresh wake gets the map and its thread's history; a session
/// that last woke at `resume` gets what has happened since.
pub open spec fn runlog_views(
    h: HistoryView,
    tag: Option<Seq<char>>,
    state: ConsciousnessState,
    resume: Option<i64>,
    cfg: RunlogContext,
    now: i64,
) -> Seq<ContextView> {
    match resume {
        None => trusted_if(
            "environment"@,
            if cfg.environment > 0 {
                environment::text_of_lines(
                    environment::environment_lines(h.stats, h.catalogue, h.today, tag, cfg, state is Reflect),
                    "\n"@,
                )
            } else {
                None
            },
        ) + trusted_if("thread"@, thread(h, tag, cfg.thread as int)),
        Some(since) => trusted_if(
            "environment-recent"@,
            environment::text_of_lines(environment::news(h.today, h.catalogue, since), "\n\n"@),
        ) + trusted_if("thread-recent"@, thread_since(h, tag, cfg, since, now)),
    }
}

fn under_heading(head: &str, tag: &str, tail: &str, body: &str) -> (r: Option<String>)
    ensures
        text::opt(r) == under(head@ + tag@ + tail@, body@),
{
    let t = text::trim(body);
    if t.as_str().is_empty() {
        None
    } else {
        let mut r = head.to_owned();
        r.append(tag);
        r.append(tail);
        r.append(body);
        Some(r)
    }
}

fn push_if(out: &mut Vec<ContextBlock>, label: &str, body: Option<String>)
    ensures
        block_views(final(out)@) == block_views(old(out)@) + trusted_if(label@, text::opt(body)),
{
    match body {
        Some(b) => {
            push_block(out, label, b);
        },
        None => {
            assert(block_views(out@) == block_views(out@) + Seq::<ContextView>::empty());
        },
    }
}

fn show_thread(h: &History, tag: Option<&str>, max: usize) -> (r: Option<String>)
    ensures
        text::opt(r) == thread(h@, text::opt_str(tag), max as int),
{
    match tag {
        Some(t) => {
            if max > 0 {
                let e = reader::tail_entries(h.yesterday, h.today, None, max, Some(t));
                let body = clock::humanize_entry_times(&e);
                under_heading("Recent history of THIS conversation (tag `", t, "`), oldest→newest:\n\n", &body)
            } else {
                None
            }
        },
        None => None,
    }
}

fn show_thread_since(h: &History, tag: Option<&str>, cfg: &RunlogContext, since: i64, now: i64) -> (r: Option<String>)
    ensures
        text::opt(r) == thread_since(h@, text::opt_str(tag), *cfg, since, now),
{
    match tag {
        Some(t) => {
            if cfg.thread > 0 {
                let back: i128 = if cfg.thread_recent_lookback_secs > 0 {
                    cfg.thread_recent_lookback_secs as i128
                } else {
                    0
                };
                let floor: i128 = now as i128 - back;
                let from: i64 = if floor > since as i128 {
                    floor as i64
                } else {
                    since
                };
                let e = reader::tail_entries(h.yesterday, h.today, Some(from), 1000, Some(t));
                let body = clock::humanize_entry_times(&e);
                under_heading("THIS conversation (tag `", t, "`) since you last woke:\n\n", &body)
            } else {
                None
            }
        },
        None => None,
    }
}

/// The runlog blocks of a step. They hold safe entries only, so they are trusted.
pub fn runlog_blocks(
    h: &History,
    tag: Option<&str>,
    state: ConsciousnessState,
    resume: Option<i64>,
    cfg: &RunlogContext,
    now: i64,
) -> (r: Vec<ContextBlock>)
    ensures
        block_views(r@) == runlog_views(h@, text::opt_str(tag), state, resume, *cfg, now),
{
    let mut out: Vec<ContextBlock> = Vec::new();
    assert(block_views(out@) == Seq::<ContextView>::empty());
    match resume {
        None => {
            let map = if cfg.environment > 0 {
                environment::environment_block(
                    h.stats,
                    h.catalogue,
                    h.today,
                    tag,
                    cfg,
                    state == ConsciousnessState::Reflect,
                )
            } else {
                None
            };
            push_if(&mut out, "environment", map);
            push_if(&mut out, "thread", show_thread(h, tag, cfg.thread));
        },
        Some(since) => {
            push_if(
                &mut out,
                "environment-recent",
                environment::environment_recent_block(h.today, h.catalogue, since),
            );
            push_if(&mut out, "thread-recent", show_thread_since(h, tag, cfg, since, now));
        },
    }
    assert(block_views(out@) == runlog_views(h@, text::opt_str(tag), state, resume, *cfg, now));
    out
}

/// What a step is opened with besides the runlog.
pub struct Ground<'a> {
    /// The directive of the stimulus, in its two halves.
    pub directive: &'a Directive,
    /// What the agent has at hand.
    pub orientation: &'a str,
    pub health: &'a HealthSnapshot,
}

/// The contents of that.
#[verifier::ext_equal]
pub struct GroundView {
    pub fresh: Seq<char>,
    pub lean: Option<Seq<char>>,
    pub orientation: Seq<char>,
    pub health: HealthView,
}

impl<'a> View for Ground<'a> {
    type V = GroundView;

    open spec fn view(&self) -> GroundView {
        GroundView {
            fresh: self.directive.fresh@,
            lean: text::opt(self.directive.resume),
            orientation: self.orientation@,
            health: self.health@,
        }
    }
}

/// The directive of a wake: the full one, or the lean half on a resumed session that has one.
pub open spec fn directive_for(g: GroundView, resumed: bool) -> Seq<char> {
    match g.lean {
        Some(l) => if resumed {
            l
        } else {
            g.fresh
        },
        None => g.fresh,
    }
}

/// The trusted blocks that open an entry step: what the agent has at hand, the directive, and in
/// Reflect the harness's own health.
pub open spec fn grounding(g: GroundView, state: ConsciousnessState, resumed: bool, memory: bool, now: i64) -> Seq<
    ContextView,
> {
    trusted_if(
        "self-orientation"@,
        if memory && !resumed && !text::blank(g.orientation) {
            Some(g.orientation)
        } else {
            None
        },
    ) + seq![trusted("standing-directive"@, directive_for(g, resumed))] + trusted_if(
        "subconscious-health"@,
        if state is Reflect && !resumed {
            Some(
                "(Trusted: the harness's own read of your machinery — this is self-knowledge, not world data.)\n\n"@
                    + health::report(g.health, now),
            )
        } else {
            None
        },
    )
}

/// The raw payload, which nothing trusts.
pub open spec fn payload_view(payload: Tree) -> ContextView {
    ContextView { label: "world-payload"@, body: json::rendered(payload), trusted: false }
}

/// The blocks between a step's task and its allowed transitions, from the stable to the volatile. An
/// entry step ends on the raw payload, an act step on its baton.
pub open spec fn context_views(
    step: StepView,
    s: StimulusView,
    state: ConsciousnessState,
    resume: Option<i64>,
    ctx: ContextConfig,
    g: GroundView,
    h: HistoryView,
    now: i64,
) -> Seq<ContextView> {
    let log = runlog_views(h, s.dedup_key, state, resume, ctx.runlog, now);
    match step {
        StepView::Entry => grounding(g, state, resume is Some, ctx.memory, now) + log + seq![payload_view(s.payload)],
        StepView::Act(b) => log + seq![trusted("baton"@, baton_text(b))],
    }
}

fn append_blocks(out: &mut Vec<ContextBlock>, more: Vec<ContextBlock>)
    ensures
        block_views(final(out)@) == block_views(old(out)@) + block_views(more@),
{
    let ghost a = out@;
    let ghost b = more@;
    let mut more = more;
    out.append(&mut more);
    assert(block_views(out@) == block_views(a) + block_views(b));
}

fn ground(g: &Ground, state: ConsciousnessState, resumed: bool, memory: bool, now: i64) -> (r: Vec<ContextBlock>)
    ensures
        block_views(r@) == grounding(g@, state, resumed, memory, now),
{
    let mut out: Vec<ContextBlock> = Vec::new();
    assert(block_views(out@) == Seq::<ContextView>::empty());
    let t = text::trim(g.orientation);
    let own = if memory && !resumed && !t.as_str().is_empty() {
        Some(g.orientation.to_owned())
    } else {
        None
    };
    push_if(&mut out, "self-orientation", own);
    let directive = match &g.directive.resume {
        Some(l) => if resumed {
            l.clone()
        } else {
            g.directive.fresh.clone()
        },
        None => g.directive.fresh.clone(),
    };
    push_block(&mut out, "standing-directive", directive);
    let report = if state == ConsciousnessState::Reflect && !resumed {
        let mut b =
            "(Trusted: the harness's own read of your machinery — this is self-knowledge, not world data.)\n\n".to_owned();
        let r = g.health.render(now);
        b.append(&r);
        Some(b)
    } else {
        None
    };
    push_if(&mut out, "subconscious-health", report);
    assert(block_views(out@) == grounding(g@, state, resumed, memory, now));
    out
}

/// The blocks between a step's task and its allowed transitions.
pub fn context_blocks(
    step: &StepInput,
    stimulus: &Stimulus,
    state: ConsciousnessState,
    resume: Option<i64>,
    ctx: &ContextConfig,
    g: &Ground,
    h: &History,
    now: i64,
) -> (r: Vec<ContextBlock>)
    ensures
        block_views(r@) == context_views(step@, stimulus@, state, resume, *ctx, g@, h@, now),
{
    let tag = match &stimulus.dedup_key {
        Some(k) => Some(k.as_str()),
        None => None,
    };
    let log = runlog_blocks(h, tag, state, resume, &ctx.runlog, now);
    match step {
        StepInput::Entry => {
            let mut out = ground(g, state, resume.is_some(), ctx.memory, now);
            append_blocks(&mut out, log);
            let payload = ContextBlock {
                label: "world-payload".to_owned(),
                body: json::render(&stimulus.payload),
                trusted: false,
            };
            let ghost before = out@;
            out.push(payload);
            assert(block_views(out@) == block_views(before) + seq![payload_view(stimulus@.payload)]);
            out
        },
        StepInput::Act(b) => {
            let mut out = log;
            let block = baton_block(b);
            let ghost before = out@;
            let ghost bv = block@;
            out.push(block);
            assert(block_views(out@) == block_views(before) + seq![bv]);
            out
        },
    }
}

/// The task of a step, trimmed: the full one, or the lean one on a resumed session that has one.
pub open spec fn task(prompt: StatePrompt, resumed: bool) -> Option<Seq<char>> {
    let t = match prompt.resume_body {
        Some(l) => if resumed {
            l@
        } else {
            prompt.body@
        },
        None => prompt.body@,
    };
    if text::blank(t) {
        None
    } else {
        Some(text::trimmed(t))
    }
}

fn task_text(prompt: &StatePrompt, resumed: bool) -> (r: Option<String>)
    ensures
        text::opt(r) == task(*prompt, resumed),
{
    let t = match &prompt.resume_body {
        Some(l) => if resumed {
            text::trim(l)
        } else {
            text::trim(&prompt.body)
        },
        None => text::trim(&prompt.body),
    };
    if t.as_str().is_empty() {
        None
    } else {
        Some(t)
    }
}

/// All that decides what a step is shown.
pub struct Scene<'a> {
    pub prompt: &'a StatePrompt,
    pub step: &'a StepInput,
    pub stimulus: &'a Stimulus,
    pub trust: &'a TrustTier,
    pub ceiling: ConsciousnessState,
    pub soul_root: &'a str,
    pub servers: &'a TextMap<McpConfig>,
    /// The steps that the trust still permits.
    pub reachable: &'a [String],
    /// When the session that is resumed last woke.
    pub resume: Option<i64>,
    pub ground: &'a Ground<'a>,
    pub history: &'a History<'a>,
    pub now: i64,
}

/// The contents of a scene.
#[verifier::ext_equal]
pub struct SceneView {
    pub prompt: StatePrompt,
    pub step: StepView,
    pub stimulus: StimulusView,
    pub trust: Seq<char>,
    pub ceiling: ConsciousnessState,
    pub soul_root: Seq<char>,
    pub servers: Set<Seq<char>>,
    pub reachable: Seq<Seq<char>>,
    pub resume: Option<i64>,
    pub ground: GroundView,
    pub history: HistoryView,
    pub now: i64,
}

impl<'a> View for Scene<'a> {
    type V = SceneView;

    open spec fn view(&self) -> SceneView {
        SceneView {
            prompt: *self.prompt,
            step: self.step@,
            stimulus: self.stimulus@,
            trust: self.trust@,
            ceiling: self.ceiling,
            soul_root: self.soul_root@,
            servers: self.servers@.dom(),
            reachable: text::views(self.reachable@),
            resume: self.resume,
            ground: self.ground@,
            history: self.history@,
            now: self.now,
        }
    }
}

/// The whole message of a step: where it stands, its task, its context, and what it may do next.
pub open spec fn message(v: SceneView) -> Seq<ContextView> {
    seq![
        trusted(
            "orientation"@,
            orientation(v.now, v.prompt.state, v.prompt.id@, v.soul_root, v.servers, v.trust, v.ceiling),
        ),
    ] + trusted_if("task"@, task(v.prompt, v.resume is Some)) + context_views(
        v.step,
        v.stimulus,
        v.prompt.state,
        v.resume,
        v.prompt.context,
        v.ground,
        v.history,
        v.now,
    ) + seq![trusted("allowed-transitions"@, transitions_text(v.reachable))]
}

/// Assembles the message of a step.
pub fn step_blocks(v: &Scene) -> (r: Vec<ContextBlock>)
    ensures
        block_views(r@) == message(v@),
{
    let mut out: Vec<ContextBlock> = Vec::new();
    let o = orientation_block(v.prompt, v.soul_root, v.servers, v.trust, v.ceiling, v.now);
    let ghost ov = o@;
    out.push(o);
    assert(block_views(out@) == seq![ov]);
    push_if(&mut out, "task", task_text(v.prompt, v.resume.is_some()));
    let c = context_blocks(
        v.step,
        v.stimulus,
        v.prompt.state,
        v.resume,
        &v.prompt.context,
        v.ground,
        v.history,
        v.now,
    );
    append_blocks(&mut out, c);
    let t = transitions_block(v.reachable);
    let ghost before = out@;
    let ghost tv = t@;
    out.push(t);
    assert(block_views(out@) == block_views(before) + seq![tv]);
    out
}

/// Blocks that are all trusted.
spec fn all_trusted(blocks: Seq<ContextView>) -> bool {
    forall|i: int| 0 <= i < blocks.len() ==> (#[trigger] blocks[i]).trusted
}

proof fn lemma_both_trusted(a: Seq<ContextView>, b: Seq<ContextView>)
    requires
        all_trusted(a),
        all_trusted(b),
    ensures
        all_trusted(a + b),
{
    assert forall|i: int| 0 <= i < (a + b).len() implies (#[trigger] (a + b)[i]).trusted by {
        if i < a.len() {
            assert((a + b)[i] == a[i]);
        } else {
            assert((a + b)[i] == b[i - a.len()]);
        }
    }
}

proof fn lemma_runlog_is_trusted(
    h: HistoryView,
    tag: Option<Seq<char>>,
    state: ConsciousnessState,
    resume: Option<i64>,
    cfg: RunlogContext,
    now: i64,
)
    ensures
        all_trusted(runlog_views(h, tag, state, resume, cfg, now)),
{
    match resume {
        None => {
            let e = if cfg.environment > 0 {
                environment::text_of_lines(
                    environment::environment_lines(h.stats, h.catalogue, h.today, tag, cfg, state is Reflect),
                    "\n"@,
                )
            } else {
                None
            };
            lemma_both_trusted(
                trusted_if("environment"@, e),
                trusted_if("thread"@, thread(h, tag, cfg.thread as int)),
            );
        },
        Some(since) => {
            lemma_both_trusted(
                trusted_if(
                    "environment-recent"@,
                    environment::text_of_lines(environment::news(h.today, h.catalogue, since), "\n\n"@),
                ),
                trusted_if("thread-recent"@, thread_since(h, tag, cfg, since, now)),
            );
        },
    }
}

/// The blocks that open a step's message: where it stands, and its task.
spec fn opening(v: SceneView) -> Seq<ContextView> {
    seq![
        trusted(
            "orientation"@,
            orientation(v.now, v.prompt.state, v.prompt.id@, v.soul_root, v.servers, v.trust, v.ceiling),
        ),
    ] + trusted_if("task"@, task(v.prompt, v.resume is Some))
}

proof fn lemma_opening_is_trusted(v: SceneView)
    ensures
        all_trusted(opening(v)),
        opening(v).len() > 0,
{
    let o = seq![
        trusted(
            "orientation"@,
            orientation(v.now, v.prompt.state, v.prompt.id@, v.soul_root, v.servers, v.trust, v.ceiling),
        ),
    ];
    lemma_both_trusted(o, trusted_if("task"@, task(v.prompt, v.resume is Some)));
}

/// What a step is shown of the runlog.
spec fn log_of(v: SceneView) -> Seq<ContextView> {
    runlog_views(v.history, v.stimulus.dedup_key, v.prompt.state, v.resume, v.prompt.context.runlog, v.now)
}

/// The firebreak: what an act step is shown does not depend on the payload of the stimulus.
pub proof fn an_act_step_never_sees_the_payload(v: SceneView, payload: Tree)
    requires
        v.step is Act,
    ensures
        message(v) == message(SceneView { stimulus: StimulusView { payload, ..v.stimulus }, ..v }),
        forall|i: int| 0 <= i < message(v).len() ==> (#[trigger] message(v)[i]).trusted,
{
    let last = seq![trusted("allowed-transitions"@, transitions_text(v.reachable))];
    let baton = seq![trusted("baton"@, baton_text(v.step->Act_0))];
    lemma_opening_is_trusted(v);
    lemma_runlog_is_trusted(
        v.history,
        v.stimulus.dedup_key,
        v.prompt.state,
        v.resume,
        v.prompt.context.runlog,
        v.now,
    );
    lemma_both_trusted(log_of(v), baton);
    lemma_both_trusted(opening(v), log_of(v) + baton);
    lemma_both_trusted(opening(v) + (log_of(v) + baton), last);
    assert(message(v) == opening(v) + (log_of(v) + baton) + last);
}

proof fn lemma_grounding_is_trusted(g: GroundView, state: ConsciousnessState, resumed: bool, memory: bool, now: i64)
    ensures
        all_trusted(grounding(g, state, resumed, memory, now)),
        grounding(g, state, resumed, memory, now).len() > 0,
{
    let own = if memory && !resumed && !text::blank(g.orientation) {
        Some(g.orientation)
    } else {
        None
    };
    let report = if state is Reflect && !resumed {
        Some(
            "(Trusted: the harness's own read of your machinery — this is self-knowledge, not world data.)\n\n"@
                + health::report(g.health, now),
        )
    } else {
        None
    };
    let a = trusted_if("self-orientation"@, own);
    let b = seq![trusted("standing-directive"@, directive_for(g, resumed))];
    lemma_both_trusted(a, b);
    lemma_both_trusted(a + b, trusted_if("subconscious-health"@, report));
}

/// An entry step is shown the raw payload in one block, the only one that is not trusted. It stands
/// last but one, so that a trusted block closes the message, and no other block depends on it.
pub proof fn the_payload_stands_alone(v: SceneView, payload: Tree)
    requires
        v.step is Entry,
    ensures
        message(v).len() >= 3,
        message(v)[message(v).len() - 2] == payload_view(v.stimulus.payload),
        forall|i: int|
            0 <= i < message(v).len() && i != message(v).len() - 2 ==> (#[trigger] message(v)[i]).trusted,
        message(SceneView { stimulus: StimulusView { payload, ..v.stimulus }, ..v }) == message(v).update(
            message(v).len() - 2,
            payload_view(payload),
        ),
{
    let w = SceneView { stimulus: StimulusView { payload, ..v.stimulus }, ..v };
    let g = grounding(v.ground, v.prompt.state, v.resume is Some, v.prompt.context.memory, v.now);
    let last = seq![trusted("allowed-transitions"@, transitions_text(v.reachable))];
    lemma_opening_is_trusted(v);
    lemma_grounding_is_trusted(v.ground, v.prompt.state, v.resume is Some, v.prompt.context.memory, v.now);
    lemma_runlog_is_trusted(
        v.history,
        v.stimulus.dedup_key,
        v.prompt.state,
        v.resume,
        v.prompt.context.runlog,
        v.now,
    );
    lemma_both_trusted(g, log_of(v));
    lemma_both_trusted(opening(v), g + log_of(v));
    let head = opening(v) + (g + log_of(v));
    assert(opening(w) == opening(v) && log_of(w) == log_of(v));
    assert(message(v) == head + seq![payload_view(v.stimulus.payload)] + last);
    assert(message(w) == head + seq![payload_view(payload)] + last);
    let m = message(v);
    assert forall|i: int| 0 <= i < m.len() && i != m.len() - 2 implies (#[trigger] m[i]).trusted by {
        if i < head.len() {
            assert(m[i] == head[i]);
        }
    }
    assert(message(w) =~= m.update(m.len() - 2, payload_view(payload)));
}

proof fn lemma_in_either(a: Seq<ContextView>, b: Seq<ContextView>, x: ContextView)
    ensures
        a.contains(x) ==> (a + b).contains(x),
        b.contains(x) ==> (a + b).contains(x),
{
    if a.contains(x) {
        let i = choose|i: int| 0 <= i < a.len() && a[i] == x;
        assert((a + b)[i] == x);
    }
    if b.contains(x) {
        let i = choose|i: int| 0 <= i < b.len() && b[i] == x;
        assert((a + b)[a.len() + i] == x);
    }
}

/// What stands in the context of a step stands in its message.
proof fn lemma_context_is_shown(v: SceneView, x: ContextView)
    requires
        context_views(
            v.step,
            v.stimulus,
            v.prompt.state,
            v.resume,
            v.prompt.context,
            v.ground,
            v.history,
            v.now,
        ).contains(x),
    ensures
        message(v).contains(x),
{
    let c = context_views(
        v.step,
        v.stimulus,
        v.prompt.state,
        v.resume,
        v.prompt.context,
        v.ground,
        v.history,
        v.now,
    );
    let last = seq![trusted("allowed-transitions"@, transitions_text(v.reachable))];
    lemma_in_either(opening(v), c, x);
    lemma_in_either(opening(v) + c, last, x);
    assert(message(v) == opening(v) + c + last);
}

/// What stands in the grounding of an entry step stands in its message.
proof fn lemma_ground_is_shown(v: SceneView, x: ContextView)
    requires
        v.step is Entry,
        grounding(v.ground, v.prompt.state, v.resume is Some, v.prompt.context.memory, v.now).contains(x),
    ensures
        message(v).contains(x),
{
    let g = grounding(v.ground, v.prompt.state, v.resume is Some, v.prompt.context.memory, v.now);
    lemma_in_either(g, log_of(v), x);
    lemma_in_either(g + log_of(v), seq![payload_view(v.stimulus.payload)], x);
    lemma_context_is_shown(v, x);
}

/// What a step is shown of the runlog stands in its message.
proof fn lemma_log_is_shown(v: SceneView, x: ContextView)
    requires
        log_of(v).contains(x),
    ensures
        message(v).contains(x),
{
    let g = grounding(v.ground, v.prompt.state, v.resume is Some, v.prompt.context.memory, v.now);
    lemma_in_either(g, log_of(v), x);
    lemma_in_either(g + log_of(v), seq![payload_view(v.stimulus.payload)], x);
    if let StepView::Act(b) = v.step {
        lemma_in_either(log_of(v), seq![trusted("baton"@, baton_text(b))], x);
    }
    lemma_context_is_shown(v, x);
}

/// An entry step is given its standing directive in a trusted block: the fresh half on a fresh wake; on
/// a resumed one the lean half, or the fresh half where there is no lean one.
pub proof fn an_entry_step_is_given_its_directive(v: SceneView)
    requires
        v.step is Entry,
    ensures
        v.resume is None || v.ground.lean is None ==> message(v).contains(
            (ContextView { label: "standing-directive"@, body: v.ground.fresh, trusted: true }),
        ),
        v.resume is Some ==> (v.ground.lean matches Some(l) ==> message(v).contains(
            (ContextView { label: "standing-directive"@, body: l, trusted: true }),
        )),
{
    let body = match v.ground.lean {
        Some(l) => if v.resume is Some {
            l
        } else {
            v.ground.fresh
        },
        None => v.ground.fresh,
    };
    let x = ContextView { label: "standing-directive"@, body, trusted: true };
    let g = grounding(v.ground, v.prompt.state, v.resume is Some, v.prompt.context.memory, v.now);
    let k = if v.prompt.context.memory && v.resume is None && !text::blank(v.ground.orientation) {
        1int
    } else {
        0
    };
    assert(g[k] == x);
    lemma_ground_is_shown(v, x);
}

/// A fresh entry step that remembers is given what the agent has at hand, word for word, unless that is
/// blank.
pub proof fn a_fresh_entry_step_is_oriented(v: SceneView)
    requires
        v.step is Entry,
        v.resume is None,
        v.prompt.context.memory,
        !text::blank(v.ground.orientation),
    ensures
        message(v).contains(
            (ContextView { label: "self-orientation"@, body: v.ground.orientation, trusted: true }),
        ),
{
    let x = ContextView { label: "self-orientation"@, body: v.ground.orientation, trusted: true };
    let g = grounding(v.ground, v.prompt.state, v.resume is Some, v.prompt.context.memory, v.now);
    assert(g[0] == x);
    lemma_ground_is_shown(v, x);
}

/// A fresh Reflect is shown the health of the harness.
pub proof fn a_fresh_reflect_sees_its_health(v: SceneView)
    requires
        v.step is Entry,
        v.resume is None,
        v.prompt.state is Reflect,
    ensures
        exists|b: ContextView|
            {
                &&& #[trigger] message(v).contains(b)
                &&& b.label == "subconscious-health"@
                &&& b.trusted
                &&& health::report(v.ground.health, v.now).is_suffix_of(b.body)
            },
{
    let body =
        "(Trusted: the harness's own read of your machinery — this is self-knowledge, not world data.)\n\n"@
        + health::report(v.ground.health, v.now);
    let x = ContextView { label: "subconscious-health"@, body, trusted: true };
    let g = grounding(v.ground, v.prompt.state, v.resume is Some, v.prompt.context.memory, v.now);
    assert(g[g.len() - 1] == x);
    let r = health::report(v.ground.health, v.now);
    assert(body.skip(body.len() - r.len()) == r);
    lemma_ground_is_shown(v, x);
}

/// A step is given its task, trimmed: the full one on a fresh wake; on a resumed one the lean one, or
/// the full one where there is no lean one. It stands right behind the orientation.
pub proof fn a_step_is_given_its_task(v: SceneView, full: Seq<char>)
    requires
        full == v.prompt.body@,
    ensures
        (v.resume is None || v.prompt.resume_body is None) && !text::blank(full) ==> message(v)[1] == (
        ContextView { label: "task"@, body: text::trimmed(full), trusted: true }),
        v.resume is Some ==> (v.prompt.resume_body matches Some(l) ==> (!text::blank(l@) ==> message(v)[1] == (
        ContextView { label: "task"@, body: text::trimmed(l@), trusted: true }))),
{
    let c = context_views(
        v.step,
        v.stimulus,
        v.prompt.state,
        v.resume,
        v.prompt.context,
        v.ground,
        v.history,
        v.now,
    );
    let last = seq![trusted("allowed-transitions"@, transitions_text(v.reachable))];
    assert(message(v) == opening(v) + c + last);
    assert(task(v.prompt, v.resume is Some) is Some ==> message(v)[1] == opening(v)[1]);
}

/// A message opens with where the step stands, and closes with what it may do next.
pub proof fn a_message_opens_and_closes(v: SceneView)
    ensures
        message(v).len() >= 2,
        message(v)[0].label == "orientation"@,
        message(v)[0].trusted,
        text::occurs(message(v)[0].body, "now: "@ + clock::utc_now(v.now as int)),
        text::occurs(message(v)[0].body, "\nstate: "@ + state::name(v.prompt.state) + " (prompt `"@ + v.prompt.id@ + "`)"@),
        text::occurs(message(v)[0].body, "\nworking_dir: "@ + v.soul_root),
        text::occurs(
            message(v)[0].body,
            "\ncycle_trust: "@ + v.trust + " -> may reach up to: "@ + state::name(v.ceiling),
        ),
        message(v).last().label == "allowed-transitions"@,
        message(v).last().trusted,
        forall|i: int|
            0 <= i < v.reachable.len() ==> text::occurs(message(v).last().body, "  - "@ + #[trigger] v.reachable[i]),
        v.reachable.len() == 0 ==> text::occurs(message(v).last().body, "return an empty \"batons\": []"@),
{
    let b = orientation(v.now, v.prompt.state, v.prompt.id@, v.soul_root, v.servers, v.trust, v.ceiling);
    let p0 = Seq::<char>::empty();
    let w0 = "now: "@ + clock::utc_now(v.now as int);
    let p1 = w0 + " (authoritative — this is the real current time)"@;
    let w1 = "\nstate: "@ + state::name(v.prompt.state) + " (prompt `"@ + v.prompt.id@ + "`)"@;
    let w2 = "\nworking_dir: "@ + v.soul_root;
    let w3 = "\ncapabilities_this_step: "@ + capabilities(v.servers);
    let w4 = "\ncycle_trust: "@ + v.trust + " -> may reach up to: "@ + state::name(v.ceiling);
    let z = "\nnext_steps: see the allowed-transitions block."@;
    reveal_strlit(" (authoritative — this is the real current time)\nstate: ");
    reveal_strlit(" (authoritative — this is the real current time)");
    reveal_strlit("\nstate: ");
    reveal_strlit("`)\nworking_dir: ");
    reveal_strlit("`)");
    reveal_strlit("\nworking_dir: ");
    assert(" (authoritative — this is the real current time)\nstate: "@
        == " (authoritative — this is the real current time)"@ + "\nstate: "@);
    assert("`)\nworking_dir: "@ == "`)"@ + "\nworking_dir: "@);
    assert(b == p1 + w1 + w2 + w3 + w4 + z);
    lemma_occurs_between(p0, w0, b.skip(w0.len() as int), b);
    lemma_occurs_between(p1, w1, w2 + w3 + w4 + z, b);
    lemma_occurs_between(p1 + w1, w2, w3 + w4 + z, b);
    lemma_occurs_between(p1 + w1 + w2 + w3, w4, z, b);
    let t = transitions_text(v.reachable);
    if v.reachable.len() == 0 {
        reveal_strlit("return an empty \"batons\": []");
        reveal_strlit("This is a terminal step (or every onward step is above your current trust ceiling): return an empty \"batons\": [] (do not continue).");
        let x = "return an empty \"batons\": []"@;
        assert(t.subrange(84, (84 + x.len()) as int) == x);
        assert(text::at(t, x, 84));
    } else {
        assert forall|i: int| 0 <= i < v.reachable.len() implies text::occurs(
            t,
            "  - "@ + #[trigger] v.reachable[i],
        ) by {
            let items = v.reachable.map_values(|t: Seq<char>| "  - "@ + t);
            let head = t.take(t.len() - text::joined(items, "\n"@).len());
            assert(t == head + text::joined(items, "\n"@));
            let j = text::lemma_joined_holds(items, "\n"@, i);
            assert(items[i] == "  - "@ + v.reachable[i]);
            assert(t.subrange(head.len() + j, head.len() + j + items[i].len()) == text::joined(
                items,
                "\n"@,
            ).subrange(j, j + items[i].len()));
            assert(text::at(t, items[i], head.len() + j));
        }
    }
}

proof fn lemma_occurs_between(a: Seq<char>, w: Seq<char>, z: Seq<char>, s: Seq<char>)
    requires
        s =~= a + w + z,
    ensures
        text::occurs(s, w),
{
    assert(s.subrange(a.len() as int, (a.len() + w.len()) as int) == w);
    assert(text::at(s, w, a.len() as int));
}

/// An act step is opened with its baton, last but one: the gist first, then every ref, and the trusts
/// and the log entry it came with.
pub proof fn an_act_step_is_opened_with_its_baton(v: SceneView, b: BatonView)
    requires
        v.step == StepView::Act(b),
    ensures
        ({
            let m = message(v);
            let x = m[m.len() - 2];
            &&& m.len() >= 3
            &&& x.label == "baton"@
            &&& x.trusted
            &&& ("gist: "@ + b.gist).is_prefix_of(x.body)
            &&& text::occurs(
                x.body,
                "\n(directive_tier="@ + trust::debug_form(b.directive_tier) + " payload_tier="@ + trust::debug_form(
                    b.payload_tier,
                ) + " runlog_ref="@ + b.runlog_ref + ")"@,
            )
            &&& forall|k: Seq<char>|
                b.refs.dom().finite() && #[trigger] b.refs.dom().contains(k) ==> text::occurs(
                    x.body,
                    "  "@ + k + ": "@ + b.refs[k],
                )
        }),
{
    let last = seq![trusted("allowed-transitions"@, transitions_text(v.reachable))];
    let baton = seq![trusted("baton"@, baton_text(b))];
    assert(message(v) == opening(v) + (log_of(v) + baton) + last);
    lemma_opening_is_trusted(v);
    let body = baton_text(b);
    let head = "gist: "@ + b.gist;
    let mid = if b.refs == Map::<Seq<char>, Seq<char>>::empty() {
        Seq::empty()
    } else {
        "\nrefs (harness-provided):\n"@ + text::joined(ref_lines(b.refs), "\n"@)
    };
    let end = "\n(directive_tier="@ + trust::debug_form(b.directive_tier) + " payload_tier="@ + trust::debug_form(
        b.payload_tier,
    ) + " runlog_ref="@ + b.runlog_ref + ")"@;
    assert(body == head + mid + end);
    assert(body.take(head.len() as int) == head);
    lemma_occurs_between(head + mid, end, Seq::empty(), body);
    assert forall|k: Seq<char>| b.refs.dom().finite() && #[trigger] b.refs.dom().contains(k) implies text::occurs(
        body,
        "  "@ + k + ": "@ + b.refs[k],
    ) by {
        text_map::a_set_in_order_holds_its_members(b.refs.dom());
        let keys = text_map::in_order(b.refs.dom());
        assert(keys.contains(k));
        let i = choose|i: int| 0 <= i < keys.len() && keys[i] == k;
        let ls = ref_lines(b.refs);
        let j = text::lemma_joined_holds(ls, "\n"@, i);
        assert(ls[i] == "  "@ + k + ": "@ + b.refs[k]);
        let all = text::joined(ls, "\n"@);
        let pre = head + "\nrefs (harness-provided):\n"@;
        assert(body == pre + all + end);
        assert(body.subrange(pre.len() + j, pre.len() + j + ls[i].len()) == all.subrange(j, j + ls[i].len()));
        assert(text::at(body, ls[i], pre.len() + j));
    }
}

/// A fresh wake is shown the history of its conversation, as many entries as its prompt asks for, where
/// there are any; a resumed one is shown what was said since it last woke, at most so far back as the
/// prompt looks. Neither is shown another conversation.
pub proof fn a_step_is_shown_its_thread(v: SceneView, tag: Seq<char>, since: i64)
    requires
        v.stimulus.dedup_key == Some(tag),
        v.prompt.context.runlog.thread > 0,
    ensures
        v.resume is None ==> ({
            let said = clock::humanized(
                reader::two_days(
                    v.history.yesterday,
                    v.history.today,
                    None,
                    v.prompt.context.runlog.thread as int,
                    Some(tag),
                ),
            );
            !text::blank(said) ==> message(v).contains(
                (ContextView {
                    label: "thread"@,
                    body: "Recent history of THIS conversation (tag `"@ + tag + "`), oldest→newest:\n\n"@ + said,
                    trusted: true,
                }),
            )
        }),
        v.resume == Some(since) ==> ({
            let back = v.prompt.context.runlog.thread_recent_lookback_secs;
            let from = window(since, v.now, back);
            let said = clock::humanized(
                reader::two_days(v.history.yesterday, v.history.today, Some(from), 1000, Some(tag)),
            );
            &&& from == since || (back <= 0 && from == v.now) || from == v.now - back
            &&& from >= since
            &&& back > 0 ==> from >= v.now - back
            &&& back <= 0 ==> from >= v.now
            &&& !text::blank(said) ==> message(v).contains(
                (ContextView {
                    label: "thread-recent"@,
                    body: "THIS conversation (tag `"@ + tag + "`) since you last woke:\n\n"@ + said,
                    trusted: true,
                }),
            )
        }),
{
    let log = log_of(v);
    if v.resume is None {
        let said = clock::humanized(
            reader::two_days(
                v.history.yesterday,
                v.history.today,
                None,
                v.prompt.context.runlog.thread as int,
                Some(tag),
            ),
        );
        if !text::blank(said) {
            let x = ContextView {
                label: "thread"@,
                body: "Recent history of THIS conversation (tag `"@ + tag + "`), oldest→newest:\n\n"@ + said,
                trusted: true,
            };
            assert(log[log.len() - 1] == x);
            lemma_log_is_shown(v, x);
        }
    } else if v.resume == Some(since) {
        let back = v.prompt.context.runlog.thread_recent_lookback_secs;
        let from = window(since, v.now, back);
        let said = clock::humanized(
            reader::two_days(v.history.yesterday, v.history.today, Some(from), 1000, Some(tag)),
        );
        if !text::blank(said) {
            let x = ContextView {
                label: "thread-recent"@,
                body: "THIS conversation (tag `"@ + tag + "`) since you last woke:\n\n"@ + said,
                trusted: true,
            };
            assert(log[log.len() - 1] == x);
            lemma_log_is_shown(v, x);
        }
    }
}

/// A fresh wake whose prompt asks for it is shown the environment, and a resumed one the news since it
/// last woke, where there is anything to show.
pub proof fn a_step_is_shown_its_environment(v: SceneView)
    ensures
        v.resume is None && v.prompt.context.runlog.environment > 0 ==> (environment::text_of_lines(
            environment::environment_lines(
                v.history.stats,
                v.history.catalogue,
                v.history.today,
                v.stimulus.dedup_key,
                v.prompt.context.runlog,
                v.prompt.state is Reflect,
            ),
            "\n"@,
        ) matches Some(e) ==> message(v).contains(
            (ContextView { label: "environment"@, body: e, trusted: true }),
        )),
        v.resume matches Some(since) ==> (environment::text_of_lines(
            environment::news(v.history.today, v.history.catalogue, since),
            "\n\n"@,
        ) matches Some(e) ==> message(v).contains(
            (ContextView { label: "environment-recent"@, body: e, trusted: true }),
        )),
{
    let log = log_of(v);
    match v.resume {
        None => {
            if v.prompt.context.runlog.environment > 0 {
                if let Some(e) = environment::text_of_lines(
                    environment::environment_lines(
                        v.history.stats,
                        v.history.catalogue,
                        v.history.today,
                        v.stimulus.dedup_key,
                        v.prompt.context.runlog,
                        v.prompt.state is Reflect,
                    ),
                    "\n"@,
                ) {
                    let x = ContextView { label: "environment"@, body: e, trusted: true };
                    assert(log[0] == x);
                    lemma_log_is_shown(v, x);
                }
            }
        },
        Some(since) => {
            if let Some(e) = environment::text_of_lines(
                environment::news(v.history.today, v.history.catalogue, since),
                "\n\n"@,
            ) {
                let x = ContextView { label: "environment-recent"@, body: e, trusted: true };
                assert(log[0] == x);
                lemma_log_is_shown(v, x);
            }
        },
    }
}

/// One block or none.
pub open spec fn one_if(b: bool) -> int {
    if b {
        1
    } else {
        0
    }
}

/// A message holds no block beyond those that its step is owed.
pub proof fn a_message_holds_nothing_else(v: SceneView)
    ensures
        message(v).len() <= 3 + one_if(
            !text::blank(
                if v.resume is Some && v.prompt.resume_body is Some {
                    v.prompt.resume_body->0@
                } else {
                    v.prompt.body@
                },
            ),
        ) + one_if(v.step is Entry) + one_if(
            v.step is Entry && v.resume is None && v.prompt.context.memory && !text::blank(v.ground.orientation),
        ) + one_if(v.step is Entry && v.resume is None && v.prompt.state is Reflect) + one_if(
            v.resume is Some || v.prompt.context.runlog.environment > 0,
        ) + one_if(v.stimulus.dedup_key is Some && v.prompt.context.runlog.thread > 0),
{
}

/// A step is told of every server that it has, and where it has none that it has its files alone.
pub proof fn a_step_is_told_of_its_servers(v: SceneView, name: Seq<char>)
    requires
        v.servers.finite(),
    ensures
        v.servers.contains(name) ==> text::occurs(message(v)[0].body, "mcp__"@ + name + "__*"@),
        v.servers.is_empty() ==> text::occurs(
            message(v)[0].body,
            "\ncapabilities_this_step: none this step (built-in file tools only)"@,
        ),
{
    text_map::a_set_in_order_holds_its_members(v.servers);
    let names = text_map::in_order(v.servers);
    let b = orientation(v.now, v.prompt.state, v.prompt.id@, v.soul_root, v.servers, v.trust, v.ceiling);
    assert(message(v)[0].body == b);
    let head = "now: "@ + clock::utc_now(v.now as int)
        + " (authoritative — this is the real current time)\nstate: "@ + state::name(v.prompt.state) + " (prompt `"@
        + v.prompt.id@ + "`)\nworking_dir: "@ + v.soul_root;
    let mark = "\ncapabilities_this_step: "@;
    let c = capabilities(v.servers);
    let tail = "\ncycle_trust: "@ + v.trust + " -> may reach up to: "@ + state::name(v.ceiling)
        + "\nnext_steps: see the allowed-transitions block."@;
    assert(b == head + mark + c + tail);
    if v.servers.contains(name) {
        assert(names.contains(name));
        let i = choose|i: int| 0 <= i < names.len() && names[i] == name;
        let parts = names.map_values(|n: Seq<char>| "mcp__"@ + n + "__*"@);
        let w = "mcp__"@ + name + "__*"@;
        assert(parts[i] == w);
        let j = text::lemma_joined_holds(parts, ", "@, i);
        assert(c.subrange(j, j + w.len()) == w);
        let n = head.len() + mark.len() + j;
        assert(b.subrange(n, n + w.len()) == c.subrange(j, j + w.len()));
        assert(text::at(b, w, n));
    }
    if v.servers.is_empty() {
        if names.len() > 0 {
            assert(names.contains(names[0]));
        }
        reveal_strlit("\ncapabilities_this_step: ");
        reveal_strlit("none this step (built-in file tools only)");
        reveal_strlit("\ncapabilities_this_step: none this step (built-in file tools only)");
        let w = "\ncapabilities_this_step: none this step (built-in file tools only)"@;
        assert(mark + c == w);
        lemma_occurs_between(head, w, tail, b);
    }
}

/// The payload is shown as it prints, under its own label, and is never trusted.
pub proof fn the_payload_is_shown_untrusted(v: SceneView)
    requires
        v.step is Entry,
    ensures
        message(v)[message(v).len() - 2].label == "world-payload"@,
        message(v)[message(v).len() - 2].body == json::rendered(v.stimulus.payload),
        !message(v)[message(v).len() - 2].trusted,
{
    the_payload_stands_alone(v, v.stimulus.payload);
}

} // verus!
