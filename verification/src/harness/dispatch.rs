//! The dispatch cycle: how one stimulus is opened, how far its chain may walk, and how a step fans
//! out into further ones.

use serde_json::Value;
use vstd::prelude::*;

use crate::config::DackConfig;
use crate::harness::batons;
use crate::identity::ed25519;
use crate::identity::Did;
use crate::identity::Signature;
use crate::json;
use crate::json::Tree;
use crate::model::baton::Baton;
use crate::model::baton::BatonView;
use crate::model::proposal::AgentOutput;
use crate::model::proposal::IntentView;
use crate::model::proposal::OutputView;
use crate::model::proposal::SpawnRequest;
use crate::model::proposal;
use crate::model::stimulus::Priority;
use crate::model::stimulus::Stimulus;
use crate::model::stimulus::StimulusView;
use crate::prompt::StatePrompt;
use crate::state;
use crate::state::ConsciousnessState;
use crate::text;
use crate::trust;
use crate::trust::Tiers;
use crate::trust::TrustTier;

verus! {

/// The most steps that one stimulus may walk, over all its branches.
pub const MAX_CYCLE_STEPS: usize = 12;

/// The most branches that one step may fan out to.
pub const MAX_FANOUT_WIDTH: usize = 5;

/// How often a lineage may defer a branch through the queue.
pub const MAX_LINEAGE_DEPTH: u64 = 4;

/// What a step is opened with: the directive and the raw payload, or a digested baton.
pub enum StepInput {
    Entry,
    Act(Baton),
}

/// The contents of a step's input.
#[verifier::ext_equal]
pub enum StepView {
    Entry,
    Act(BatonView),
}

impl View for StepInput {
    type V = StepView;

    open spec fn view(&self) -> StepView {
        match self {
            StepInput::Entry => StepView::Entry,
            StepInput::Act(b) => StepView::Act(b@),
        }
    }
}

/// The trust of a directive. A claim to be the operator's is believed only against a signature
/// over the directive body that verifies for the operator's declared identifier; a claim without
/// one, or with one that does not verify, counts as public.
pub open spec fn proven_tier(s: StimulusView, operator_did: Seq<char>) -> Seq<char> {
    if s.directive_tier != "operator_signed"@ {
        s.directive_tier
    } else {
        match s.provenance {
            Some(p) => if "operator_sig:"@.is_prefix_of(p) && ed25519::verdict(
                operator_did,
                vstd::utf8::encode_utf8(s.directive_body),
                vstd::utf8::encode_utf8(p.skip("operator_sig:"@.len() as int)),
            ) == std::result::Result::<bool, Seq<char>>::Ok(true) {
                "operator_signed"@
            } else {
                "public"@
            },
            None => "public"@,
        }
    }
}

/// The trust of a directive, with a claim to be the operator's proven by its signature.
pub fn verified_directive_tier(stimulus: &Stimulus, operator_did: &str) -> (r: TrustTier)
    ensures
        r@ == proven_tier(stimulus@, operator_did@),
{
    if !text::same(&stimulus.directive_tier.0, "operator_signed") {
        return stimulus.directive_tier.clone();
    }
    let sig = match &stimulus.provenance {
        Some(p) => text::strip_prefix(p, "operator_sig:"),
        None => None,
    };
    match sig {
        Some(b64) => {
            let did = Did(operator_did.to_owned());
            let sig = Signature(b64.as_str().as_bytes_vec());
            match ed25519::verify_ed25519_did(&did, stimulus.directive_body.as_str().as_bytes(), &sig) {
                Ok(true) => TrustTier::operator(),
                _ => TrustTier::public(),
            }
        },
        None => TrustTier::public(),
    }
}

/// An unsigned or wrongly signed claim to be the operator never ranks as the operator's.
pub proof fn only_a_signature_makes_the_operator(s: StimulusView, operator_did: Seq<char>)
    ensures
        proven_tier(s, operator_did) == "operator_signed"@ ==> {
            &&& s.directive_tier == "operator_signed"@
            &&& s.provenance matches Some(p) && "operator_sig:"@.is_prefix_of(p) && ed25519::verdict(
                operator_did,
                vstd::utf8::encode_utf8(s.directive_body),
                vstd::utf8::encode_utf8(p.skip("operator_sig:"@.len() as int)),
            ) == std::result::Result::<bool, Seq<char>>::Ok(true)
        },
{
    reveal_strlit("operator_signed");
    reveal_strlit("public");
    assert("operator_signed"@.len() != "public"@.len());
}

/// What a cycle starts from.
pub struct Seed {
    pub trust: TrustTier,
    pub ceiling: ConsciousnessState,
    pub step: StepInput,
    /// How often this lineage was deferred.
    pub depth: u64,
    pub scope: Option<Value>,
}

/// The contents of a seed.
#[verifier::ext_equal]
pub struct SeedView {
    pub trust: Seq<char>,
    pub ceiling: ConsciousnessState,
    pub step: StepView,
    pub depth: int,
    pub scope: Option<Tree>,
}

impl View for Seed {
    type V = SeedView;

    open spec fn view(&self) -> SeedView {
        SeedView {
            trust: self.trust@,
            ceiling: self.ceiling,
            step: self.step@,
            depth: self.depth as int,
            scope: json::opt_tree(self.scope),
        }
    }
}

/// Whether a deferred branch waited longer than it may.
pub open spec fn stale(s: StimulusView, ttl: Option<i64>, now: i64) -> bool {
    batons::carried(s) is Some && (ttl matches Some(t) && now - s.received_at > t)
}

/// The seed of a cycle. A deferred branch acts on its baton with the trust it was packed with; a
/// stimulus of the world opens on its payload with the meet of the directive's proven trust and
/// the payload's.
pub open spec fn seed_of(tiers: Tiers, operator_did: Seq<char>, s: StimulusView) -> SeedView {
    match batons::carried(s) {
        Some((baton, depth, scope)) => SeedView {
            trust: s.payload_tier,
            ceiling: trust::reaches(tiers, s.payload_tier),
            step: StepView::Act(baton),
            depth,
            scope,
        },
        None => {
            let t = trust::meet(tiers, proven_tier(s, operator_did), s.payload_tier);
            SeedView {
                trust: t,
                ceiling: trust::reaches(tiers, t),
                step: StepView::Entry,
                depth: 0,
                scope: None,
            }
        },
    }
}

/// Opens a cycle; none where a deferred branch is stale and is to be dropped.
pub fn open_cycle(config: &DackConfig, stimulus: &Stimulus, now: i64) -> (r: Option<Seed>)
    ensures
        (match r {
            Some(seed) => !stale(stimulus@, config.baton_ttl_secs, now) && seed@ == seed_of(
                config.lattice@,
                config.operator_did@,
                stimulus@,
            ),
            None => stale(stimulus@, config.baton_ttl_secs, now),
        }),
{
    match batons::parse_continuation(stimulus) {
        Some(c) => {
            if let Some(ttl) = config.baton_ttl_secs {
                let age: i128 = now as i128 - stimulus.received_at as i128;
                if age > ttl as i128 {
                    return None;
                }
            }
            let trust = stimulus.payload_tier.clone();
            let ceiling = config.lattice.reaches(&trust);
            Some(Seed { trust, ceiling, step: StepInput::Act(c.baton), depth: c.depth, scope: c.scope })
        },
        None => {
            let directive = verified_directive_tier(stimulus, &config.operator_did);
            let trust = config.lattice.meet(&directive, &stimulus.payload_tier);
            let ceiling = config.lattice.reaches(&trust);
            Some(Seed { trust, ceiling, step: StepInput::Entry, depth: 0, scope: None })
        },
    }
}

/// One branch of a cycle: a state-prompt, what it opens with, and the trust it has left.
pub struct Branch {
    pub prompt: StatePrompt,
    pub step: StepInput,
    pub trust: TrustTier,
    pub ceiling: ConsciousnessState,
    /// The message of the batch that a reply of this branch goes to.
    pub scope_override: Option<Value>,
}

/// The contents of a branch.
#[verifier::ext_equal]
pub struct BranchView {
    pub prompt: StatePrompt,
    pub step: StepView,
    pub trust: Seq<char>,
    pub ceiling: ConsciousnessState,
    pub scope: Option<Tree>,
}

impl View for Branch {
    type V = BranchView;

    open spec fn view(&self) -> BranchView {
        BranchView {
            prompt: self.prompt,
            step: self.step@,
            trust: self.trust@,
            ceiling: self.ceiling,
            scope: json::opt_tree(self.scope_override),
        }
    }
}

/// The contents of several branches.
pub open spec fn branch_views(v: Seq<Branch>) -> Seq<BranchView> {
    v.map_values(|b: Branch| b@)
}

/// A branch whose ceiling is what its trust reaches, and whose state stands within it.
pub open spec fn sound(tiers: Tiers, b: BranchView) -> bool {
    b.ceiling == trust::reaches(tiers, b.trust) && state::within(b.prompt.state, b.ceiling)
}

/// A running cycle: the branches still to run, and how much of the budget is spent.
pub struct Cycle {
    work: Vec<Branch>,
    steps: usize,
    deferred: usize,
    depth: u64,
}

/// The contents of a cycle.
#[verifier::ext_equal]
pub struct CycleView {
    pub work: Seq<BranchView>,
    pub steps: int,
    pub deferred: int,
    pub depth: int,
}

impl View for Cycle {
    type V = CycleView;

    closed spec fn view(&self) -> CycleView {
        CycleView {
            work: branch_views(self.work@),
            steps: self.steps as int,
            deferred: self.deferred as int,
            depth: self.depth as int,
        }
    }
}

impl Cycle {
    #[verifier::type_invariant]
    closed spec fn bounded(self) -> bool {
        self.steps <= MAX_CYCLE_STEPS
    }
}

/// Every branch still to run is sound.
pub open spec fn all_sound(tiers: Tiers, work: Seq<BranchView>) -> bool {
    forall|i: int| 0 <= i < work.len() ==> sound(tiers, #[trigger] work[i])
}

/// Starts a cycle at its entry prompt; none where the entry stands above the seed's ceiling.
pub fn enter(seed: Seed, prompt: StatePrompt) -> (r: Option<Cycle>)
    ensures
        (match r {
            Some(c) => state::within(prompt.state, seed.ceiling) && c@ == entered(seed@, prompt),
            None => !state::within(prompt.state, seed.ceiling),
        }),
{
    if !state::within_ceiling(prompt.state, seed.ceiling) {
        return None;
    }
    let ghost s = seed@;
    let b = Branch {
        prompt,
        step: seed.step,
        trust: seed.trust,
        ceiling: seed.ceiling,
        scope_override: seed.scope,
    };
    let mut work: Vec<Branch> = Vec::new();
    let ghost bv = b@;
    work.push(b);
    let c = Cycle { work, steps: 0, deferred: 0, depth: seed.depth };
    assert(c@.work == seq![bv]);
    Some(c)
}

impl Cycle {
    /// How many steps have been taken.
    pub fn steps(&self) -> (r: usize)
        ensures
            r == self@.steps,
            r <= MAX_CYCLE_STEPS,
    {
        proof {
            use_type_invariant(&*self);
        }
        self.steps
    }

    /// How many branches were deferred.
    pub fn deferred(&self) -> (r: usize)
        ensures
            r == self@.deferred,
    {
        self.deferred
    }

    /// Takes the next branch, first in first out. When the step budget is spent, what is left is
    /// dropped.
    pub fn next(&mut self) -> (r: Option<Branch>)
        ensures
            (match r {
                Some(b) => {
                    &&& old(self)@.work.len() > 0 && old(self)@.steps < MAX_CYCLE_STEPS
                    &&& b@ == old(self)@.work[0]
                    &&& final(self)@ == taken(old(self)@)
                },
                None => {
                    &&& old(self)@.work.len() == 0 || old(self)@.steps >= MAX_CYCLE_STEPS
                    &&& final(self)@ == (CycleView { work: Seq::empty(), ..old(self)@ })
                },
            }),
    {
        proof {
            use_type_invariant(&*self);
        }
        let ghost before = self.work@;
        if self.work.len() == 0 || self.steps >= MAX_CYCLE_STEPS {
            self.work = Vec::new();
            assert(self@.work == Seq::<BranchView>::empty());
            return None;
        }
        let mut work: Vec<Branch> = Vec::new();
        std::mem::swap(&mut work, &mut self.work);
        let b = work.remove(0);
        assert(branch_views(work@) == branch_views(before).drop_first());
        self.work = work;
        self.steps = self.steps + 1;
        Some(b)
    }
}

/// The trust that a branch has left after a step: lowered by what the step touched.
pub open spec fn trust_after(tiers: Tiers, trust: Seq<char>, accessed: Option<Seq<char>>) -> Seq<char> {
    match accessed {
        Some(a) => trust::meet(tiers, trust, a),
        None => trust,
    }
}

/// The ceiling after a step.
pub open spec fn ceiling_after(
    tiers: Tiers,
    trust: Seq<char>,
    ceiling: ConsciousnessState,
    accessed: Option<Seq<char>>,
) -> ConsciousnessState {
    match accessed {
        Some(_) => trust::reaches(tiers, trust_after(tiers, trust, accessed)),
        None => ceiling,
    }
}

/// Whether a Reflect may run: at least `interval` seconds after the last one, or always where no
/// interval is set or no last one is known.
pub open spec fn reflect_due(interval: i64, last: Option<int>, now: i64) -> bool {
    interval <= 0 || match last {
        Some(l) => now - l >= interval,
        None => true,
    }
}

/// The time of the last Reflect, as the stored cursor writes it.
pub open spec fn last_reflect(cursor: Option<Seq<char>>) -> Option<int> {
    match cursor {
        Some(s) => text::parsed_i64(s),
        None => None,
    }
}

/// Whether a Reflect may run now, by the stored cursor of the last one.
pub fn reflect_rate_limit_ok(interval: i64, cursor: Option<&str>, now: i64) -> (r: bool)
    ensures
        r == reflect_due(interval, last_reflect(text::opt_str(cursor)), now),
{
    if interval <= 0 {
        return true;
    }
    match cursor {
        Some(s) => match text::parse_i64(s) {
            Some(l) => now as i128 - l as i128 >= interval as i128,
            None => true,
        },
        None => true,
    }
}

/// A state-prompt that a branch wants to go on to, and whether the ladder of states allows the hop.
pub struct Target {
    pub prompt: StatePrompt,
    pub allowed: bool,
}

/// A branch that survived the gates. Where it is deferred, the stimulus that carries it.
pub struct Child {
    pub branch: Branch,
    pub deferred: Option<Stimulus>,
}

/// The contents of a surviving branch.
#[verifier::ext_equal]
pub struct ChildView {
    pub branch: BranchView,
    pub deferred: Option<StimulusView>,
}

impl View for Child {
    type V = ChildView;

    open spec fn view(&self) -> ChildView {
        ChildView {
            branch: self.branch@,
            deferred: match self.deferred {
                Some(s) => Some(s@),
                None => None,
            },
        }
    }
}

/// The contents of several surviving branches.
pub open spec fn child_views(v: Seq<Child>) -> Seq<ChildView> {
    v.map_values(|c: Child| c@)
}

/// What the gates of one step look at, besides the branches it wants.
#[verifier::ext_equal]
pub struct Gate {
    /// The branch that ran.
    pub from: BranchView,
    pub out: OutputView,
    pub stimulus: StimulusView,
    pub runlog_ref: Seq<char>,
    /// The trust and the ceiling after the step.
    pub trust: Seq<char>,
    pub ceiling: ConsciousnessState,
    pub depth: int,
    pub interval: i64,
    pub last_reflect: Option<int>,
    pub now: i64,
}

/// What the gates have let through so far.
#[verifier::ext_equal]
pub struct Fanned {
    pub children: Seq<ChildView>,
    /// How many branches of this cycle were deferred.
    pub deferred: int,
    /// Whether a Reflect was let through.
    pub reflected: bool,
}

/// Whether a branch passes the gates: the soul lists the hop, the target exists, stands within the
/// ceiling after the step and is structurally allowed, and a Reflect is due.
pub open spec fn admitted(g: Gate, so_far: Fanned, intent: IntentView, target: Option<Target>) -> bool {
    &&& intent.to_prompt.len() > 0
    &&& so_far.children.len() < MAX_FANOUT_WIDTH
    &&& text::views(g.from.prompt.transitions@).contains(intent.to_prompt)
    &&& target matches Some(t) && {
        &&& state::within(t.prompt.state, g.ceiling)
        &&& t.allowed
        &&& t.prompt.state is Reflect ==> reflect_due(
            g.interval,
            if so_far.reflected {
                Some(g.now as int)
            } else {
                g.last_reflect
            },
            g.now,
        )
    }
}

/// The surviving branch: fresh on its digested baton, with the trust after the step. A branch
/// marked low is deferred while its lineage may still be.
pub open spec fn child_of(g: Gate, deferred: int, intent: IntentView, prompt: StatePrompt) -> ChildView {
    let baton = batons::baton_for(intent, g.out, g.stimulus, g.runlog_ref, g.trust);
    let scope = batons::reply_scope(
        g.stimulus.payload,
        text::views(g.from.prompt.reply_key@),
        intent.reply_to,
    );
    ChildView {
        branch: BranchView {
            prompt,
            step: StepView::Act(baton),
            trust: g.trust,
            ceiling: g.ceiling,
            scope,
        },
        deferred: if intent.priority == Some(Priority::Low) && g.depth < MAX_LINEAGE_DEPTH {
            Some(
                batons::continuation_of(
                    g.stimulus,
                    prompt.id@,
                    baton,
                    g.trust,
                    Priority::Low,
                    g.depth + 1,
                    deferred + 1,
                    g.now,
                    scope,
                ),
            )
        } else {
            None
        },
    }
}

/// The target found for the branch at `i`.
pub open spec fn target_at(targets: Seq<Option<Target>>, i: int) -> Option<Target> {
    if i < targets.len() {
        targets[i]
    } else {
        None
    }
}

/// What the gates let through of the first `n` branches.
pub open spec fn fanned(
    g: Gate,
    start: int,
    intents: Seq<IntentView>,
    targets: Seq<Option<Target>>,
    n: int,
) -> Fanned
    decreases n,
{
    if n <= 0 {
        Fanned { children: Seq::empty(), deferred: start, reflected: false }
    } else {
        let p = fanned(g, start, intents, targets, n - 1);
        let target = target_at(targets, n - 1);
        if admitted(g, p, intents[n - 1], target) {
            let c = child_of(g, p.deferred, intents[n - 1], target->0.prompt);
            Fanned {
                children: p.children.push(c),
                deferred: if c.deferred is Some {
                    p.deferred + 1
                } else {
                    p.deferred
                },
                reflected: p.reflected || target->0.prompt.state is Reflect,
            }
        } else {
            p
        }
    }
}

/// The prompts to be resolved for a step's branches: the destination of each branch that names one
/// the soul lists.
pub open spec fn wanted(prompt: StatePrompt, intents: Seq<IntentView>) -> Seq<Option<Seq<char>>> {
    intents.map_values(
        |i: IntentView|
            if i.to_prompt.len() > 0 && text::views(prompt.transitions@).contains(i.to_prompt) {
                Some(i.to_prompt)
            } else {
                None
            },
    )
}

/// The contents of several optional strings.
pub open spec fn opt_views(v: Seq<Option<String>>) -> Seq<Option<Seq<char>>> {
    v.map_values(|o: Option<String>| text::opt(o))
}

/// The prompts to be resolved for a step's branches.
pub fn wanted_targets(prompt: &StatePrompt, out: &AgentOutput) -> (r: Vec<Option<String>>)
    ensures
        opt_views(r@) == wanted(*prompt, proposal::branches(out@)),
{
    let intents = out.fan_out();
    let ghost all = proposal::intent_views(intents@);
    let ghost want = wanted(*prompt, all);
    let mut r: Vec<Option<String>> = Vec::new();
    let mut i: usize = 0;
    while i < intents.len()
        invariant
            i <= intents.len(),
            all == proposal::intent_views(intents@),
            want == wanted(*prompt, all),
            opt_views(r@) == want.take(i as int),
        decreases intents.len() - i,
    {
        let id = &intents[i].to_prompt;
        assert(all[i as int].to_prompt == id@);
        let w = if !id.as_str().is_empty() && prompt.permits_transition_to(id) {
            Some(id.clone())
        } else {
            None
        };
        let ghost before = r@;
        r.push(w);
        assert(opt_views(r@) == opt_views(before).push(text::opt(w)));
        i += 1;
        assert(opt_views(r@) == want.take(i as int));
    }
    assert(want.take(i as int) == want);
    r
}

/// What came of a step's branches.
pub struct Fan {
    pub children: Vec<Child>,
    /// Whether a Reflect was let through, and its time is to be stored.
    pub reflected: bool,
}

/// What a step came to: its output, where it was logged, and the trust of what it touched.
pub struct StepResult {
    pub out: AgentOutput,
    pub runlog_ref: String,
    pub accessed: Option<TrustTier>,
}

/// The trust of what a step touched.
pub open spec fn accessed_view(a: Option<TrustTier>) -> Option<Seq<char>> {
    match a {
        Some(t) => Some(t@),
        None => None,
    }
}

/// What the gates of a finished step look at.
pub open spec fn gate_of(
    config: DackConfig,
    cycle: CycleView,
    branch: BranchView,
    result: StepResult,
    stimulus: StimulusView,
    cursor: Option<Seq<char>>,
    now: i64,
) -> Gate {
    Gate {
        from: branch,
        out: result.out@,
        stimulus,
        runlog_ref: result.runlog_ref@,
        trust: trust_after(config.lattice@, branch.trust, accessed_view(result.accessed)),
        ceiling: ceiling_after(
            config.lattice@,
            branch.trust,
            branch.ceiling,
            accessed_view(result.accessed),
        ),
        depth: cycle.depth,
        interval: config.reflect_min_interval_secs,
        last_reflect: last_reflect(cursor),
        now,
    }
}

proof fn lemma_fanned_bounds(g: Gate, start: int, intents: Seq<IntentView>, targets: Seq<Option<Target>>, n: int)
    ensures
        fanned(g, start, intents, targets, n).children.len() <= MAX_FANOUT_WIDTH,
        start <= fanned(g, start, intents, targets, n).deferred <= start + fanned(
            g,
            start,
            intents,
            targets,
            n,
        ).children.len(),
    decreases n,
{
    if n > 0 {
        lemma_fanned_bounds(g, start, intents, targets, n - 1);
    }
}

impl Cycle {
    /// Fans a finished step out: each branch that survives the gates becomes a child, to be run in
    /// this wake or deferred through the queue.
    pub fn fan_out(
        &mut self,
        config: &DackConfig,
        branch: &Branch,
        result: &StepResult,
        stimulus: &Stimulus,
        targets: Vec<Option<Target>>,
        cursor: Option<&str>,
        now: i64,
    ) -> (r: Fan)
        requires
            old(self)@.deferred + MAX_FANOUT_WIDTH <= usize::MAX,
        ensures
            ({
                let g = gate_of(
                    *config,
                    old(self)@,
                    branch@,
                    *result,
                    stimulus@,
                    text::opt_str(cursor),
                    now,
                );
                let intents = proposal::branches(result.out@);
                let f = fanned(g, old(self)@.deferred, intents, targets@, intents.len() as int);
                &&& child_views(r.children@) == f.children
                &&& r.reflected == f.reflected
                &&& final(self)@ == (CycleView { deferred: f.deferred, ..old(self)@ })
            }),
    {
        proof {
            use_type_invariant(&*self);
        }
        let ghost g = gate_of(*config, self@, branch@, *result, stimulus@, text::opt_str(cursor), now);
        let ghost start = self.deferred as int;
        let ghost all_targets = targets@;
        let (trust, ceiling) = match &result.accessed {
            Some(a) => {
                let t = config.lattice.meet(&branch.trust, a);
                let c = config.lattice.reaches(&t);
                (t, c)
            },
            None => (branch.trust.clone(), branch.ceiling),
        };
        let intents = result.out.fan_out();
        let ghost all = proposal::intent_views(intents@);
        let due = reflect_rate_limit_ok(config.reflect_min_interval_secs, cursor, now);
        let mut targets = targets;
        let mut children: Vec<Child> = Vec::new();
        let mut reflected = false;
        let mut deferred: usize = self.deferred;
        let depth: u64 = self.depth;
        let mut i: usize = 0;
        assert(child_views(children@) == Seq::<ChildView>::empty());
        while i < intents.len()
            invariant
                i <= intents.len(),
                all == proposal::intent_views(intents@),
                all == proposal::branches(result.out@),
                g == gate_of(*config, old(self)@, branch@, *result, stimulus@, text::opt_str(cursor), now),
                trust@ == g.trust,
                ceiling == g.ceiling,
                depth == g.depth,
                due == reflect_due(g.interval, g.last_reflect, now),
                targets@ == all_targets.skip(if i <= all_targets.len() { i as int } else { all_targets.len() as int }),
                child_views(children@) == fanned(g, start, all, all_targets, i as int).children,
                deferred == fanned(g, start, all, all_targets, i as int).deferred,
                reflected == fanned(g, start, all, all_targets, i as int).reflected,
                start + MAX_FANOUT_WIDTH <= usize::MAX,
            decreases intents.len() - i,
        {
            let ghost p = fanned(g, start, all, all_targets, i as int);
            proof {
                lemma_fanned_bounds(g, start, all, all_targets, i as int);
            }
            assert(child_views(children@).len() == children@.len());
            let target = if targets.len() > 0 {
                targets.remove(0)
            } else {
                None
            };
            assert(target == target_at(all_targets, i as int));
            let intent = &intents[i];
            assert(all[i as int] == intent@);
            let listed = !intent.to_prompt.as_str().is_empty() && children.len() < MAX_FANOUT_WIDTH
                && branch.prompt.permits_transition_to(&intent.to_prompt);
            if listed {
                if let Some(t) = target {
                    let is_reflect = t.prompt.state == ConsciousnessState::Reflect;
                    let clock = !is_reflect || if reflected {
                        config.reflect_min_interval_secs <= 0
                    } else {
                        due
                    };
                    if state::within_ceiling(t.prompt.state, ceiling) && t.allowed && clock {
                        let reply_to = match &intent.reply_to {
                            Some(s) => Some(s.as_str()),
                            None => None,
                        };
                        let scope = batons::resolve_scope_override(stimulus, &branch.prompt.reply_key, reply_to);
                        let baton = batons::build_baton_from_intent(
                            intent,
                            &result.out,
                            stimulus,
                            result.runlog_ref.clone(),
                            trust.clone(),
                        );
                        let packed = if intent.priority == Some(Priority::Low) && depth < MAX_LINEAGE_DEPTH {
                            deferred = deferred + 1;
                            Some(
                                batons::continuation_stimulus(
                                    stimulus,
                                    &t.prompt.id,
                                    &baton,
                                    trust.clone(),
                                    Priority::Low,
                                    depth + 1,
                                    deferred,
                                    now,
                                    scope.as_ref(),
                                ),
                            )
                        } else {
                            None
                        };
                        let child = Child {
                            branch: Branch {
                                prompt: t.prompt,
                                step: StepInput::Act(baton),
                                trust: trust.clone(),
                                ceiling,
                                scope_override: scope,
                            },
                            deferred: packed,
                        };
                        assert(admitted(g, p, all[i as int], target_at(all_targets, i as int)));
                        assert(child@ == child_of(g, p.deferred, all[i as int], t.prompt));
                        let ghost before = children@;
                        let ghost cv = child@;
                        children.push(child);
                        assert(child_views(children@) == child_views(before).push(cv));
                        if is_reflect {
                            reflected = true;
                        }
                    }
                }
            }
            i += 1;
        }
        proof {
            lemma_fanned_bounds(g, start, all, all_targets, all.len() as int);
        }
        self.deferred = deferred;
        Fan { children, reflected }
    }
}

/// The children that run in this wake: those not deferred, and those whose deferral failed.
pub open spec fn in_wake(children: Seq<ChildView>, queued: Seq<bool>) -> Seq<BranchView>
    decreases children.len(),
{
    if children.len() == 0 {
        Seq::empty()
    } else {
        let n = children.len() - 1;
        let rest = in_wake(children.drop_last(), queued);
        if children.last().deferred is Some && n < queued.len() && queued[n] {
            rest
        } else {
            rest.push(children.last().branch)
        }
    }
}

impl Cycle {
    /// Takes a step's children up behind what is still to run. `queued` says of each child whether
    /// the queue took it; one that should have been deferred but was not taken runs in this wake.
    pub fn adopt(&mut self, children: Vec<Child>, queued: &[bool])
        ensures
            final(self)@ == (CycleView {
                work: old(self)@.work + in_wake(child_views(children@), queued@),
                ..old(self)@
            }),
    {
        proof {
            use_type_invariant(&*self);
        }
        let ghost all = child_views(children@);
        let ghost before = branch_views(self.work@);
        let mut work: Vec<Branch> = Vec::new();
        std::mem::swap(&mut work, &mut self.work);
        let mut children = children;
        let n: usize = children.len();
        let mut i: usize = 0;
        assert(branch_views(work@) == before + in_wake(all.take(0), queued@));
        while i < n
            invariant
                i <= n,
                n == all.len(),
                child_views(children@) == all.skip(i as int),
                branch_views(work@) == before + in_wake(all.take(i as int), queued@),
            decreases n - i,
        {
            assert(child_views(children@).len() == children@.len());
            let ghost left = children@;
            let c = children.remove(0);
            assert(child_views(children@) == child_views(left).drop_first());
            assert(child_views(left)[0] == c@);
            assert(all.skip(i as int)[0] == all[i as int]);
            assert(all.take(i + 1).drop_last() == all.take(i as int));
            assert(all.take(i + 1).last() == all[i as int]);
            let taken = c.deferred.is_some() && i < queued.len() && queued[i];
            if !taken {
                let ghost w = work@;
                let ghost b = c.branch@;
                work.push(c.branch);
                assert(branch_views(work@) == branch_views(w).push(b));
            }
            i += 1;
            assert(all.skip(i - 1).drop_first() == all.skip(i as int));
            assert(branch_views(work@) == before + in_wake(all.take(i as int), queued@));
        }
        assert(all.take(i as int) == all);
        self.work = work;
    }
}

/// The worker that a step launches: only an Express step launches one.
pub open spec fn delegated(state: ConsciousnessState, out: OutputView) -> Option<(Seq<char>, Seq<char>)> {
    if state is Express {
        out.spawn
    } else {
        None
    }
}

/// The worker that a step launches.
pub fn delegation(state: ConsciousnessState, out: &AgentOutput) -> (r: Option<&SpawnRequest>)
    ensures
        (match r {
            Some(s) => delegated(state, out@) == Some(s@),
            None => delegated(state, out@) is None,
        }),
{
    if state == ConsciousnessState::Express {
        out.spawn.as_ref()
    } else {
        None
    }
}

/// A cycle starts sound: what it enters stands within what its seed's trust reaches.
pub proof fn a_cycle_starts_sound(tiers: Tiers, operator_did: Seq<char>, s: StimulusView, prompt: StatePrompt)
    requires
        state::within(prompt.state, seed_of(tiers, operator_did, s).ceiling),
    ensures
        ({
            let seed = seed_of(tiers, operator_did, s);
            sound(
                tiers,
                BranchView {
                    prompt,
                    step: seed.step,
                    trust: seed.trust,
                    ceiling: seed.ceiling,
                    scope: seed.scope,
                },
            )
        }),
{
}

/// Fanning out keeps a cycle sound and its trust falling: every child of a sound branch is sound,
/// is no more trusted than its parent, opens on a baton and never on the raw payload, and there
/// are at most as many children as one step may have.
pub proof fn fanning_out_keeps_a_cycle_sound(
    config: DackConfig,
    cycle: CycleView,
    branch: BranchView,
    result: StepResult,
    stimulus: StimulusView,
    cursor: Option<Seq<char>>,
    now: i64,
    targets: Seq<Option<Target>>,
    n: int,
)
    requires
        sound(config.lattice@, branch),
    ensures
        ({
            let g = gate_of(config, cycle, branch, result, stimulus, cursor, now);
            let f = fanned(g, cycle.deferred, proposal::branches(result.out@), targets, n);
            &&& f.children.len() <= MAX_FANOUT_WIDTH
            &&& forall|i: int| 0 <= i < f.children.len() ==> {
                let c = (#[trigger] f.children[i]).branch;
                &&& sound(config.lattice@, c)
                &&& trust::rank(config.lattice@, c.trust) <= trust::rank(config.lattice@, branch.trust)
                &&& c.step is Act
            }
        }),
    decreases n,
{
    let g = gate_of(config, cycle, branch, result, stimulus, cursor, now);
    lemma_fanned_bounds(g, cycle.deferred, proposal::branches(result.out@), targets, n);
    if n > 0 {
        fanning_out_keeps_a_cycle_sound(
            config,
            cycle,
            branch,
            result,
            stimulus,
            cursor,
            now,
            targets,
            n - 1,
        );
    }
}

/// What runs in a wake is sound where the children are.
pub proof fn adopting_keeps_a_cycle_sound(
    tiers: Tiers,
    work: Seq<BranchView>,
    children: Seq<ChildView>,
    queued: Seq<bool>,
)
    requires
        all_sound(tiers, work),
        forall|i: int| 0 <= i < children.len() ==> sound(tiers, (#[trigger] children[i]).branch),
    ensures
        all_sound(tiers, work + in_wake(children, queued)),
    decreases children.len(),
{
    if children.len() == 0 {
        assert(work + in_wake(children, queued) == work);
    } else {
        let d = children.drop_last();
        assert forall|i: int| 0 <= i < d.len() implies sound(tiers, (#[trigger] d[i]).branch) by {
            assert(d[i] == children[i]);
        }
        adopting_keeps_a_cycle_sound(tiers, work, d, queued);
        let last = children[children.len() - 1].branch;
        assert(sound(tiers, last));
        let w = work + in_wake(children, queued);
        let v = work + in_wake(d, queued);
        assert forall|i: int| 0 <= i < w.len() implies sound(tiers, #[trigger] w[i]) by {
            if i < v.len() {
                assert(w[i] == v[i]);
            }
        }
    }
}

/// Whether `to` is what a step of `from` that touched such data may go on to: its trust lowered by
/// what was touched, its ceiling what that trust reaches, its state within the ceiling.
pub open spec fn follows(tiers: Tiers, from: BranchView, accessed: Option<Seq<char>>, to: BranchView) -> bool {
    &&& to.trust == trust_after(tiers, from.trust, accessed)
    &&& to.ceiling == ceiling_after(tiers, from.trust, from.ceiling, accessed)
    &&& state::within(to.prompt.state, to.ceiling)
}

/// Every child of a step follows from the branch that ran.
pub proof fn every_child_follows(
    config: DackConfig,
    cycle: CycleView,
    branch: BranchView,
    result: StepResult,
    stimulus: StimulusView,
    cursor: Option<Seq<char>>,
    now: i64,
    targets: Seq<Option<Target>>,
    n: int,
)
    ensures
        ({
            let g = gate_of(config, cycle, branch, result, stimulus, cursor, now);
            let f = fanned(g, cycle.deferred, proposal::branches(result.out@), targets, n);
            forall|i: int| 0 <= i < f.children.len() ==> follows(
                config.lattice@,
                branch,
                accessed_view(result.accessed),
                (#[trigger] f.children[i]).branch,
            )
        }),
    decreases n,
{
    if n > 0 {
        every_child_follows(config, cycle, branch, result, stimulus, cursor, now, targets, n - 1);
    }
}

/// A walk from branch to branch, with what each step touched.
pub open spec fn walk(tiers: Tiers, path: Seq<BranchView>, touched: Seq<Option<Seq<char>>>) -> bool {
    &&& path.len() == touched.len() + 1
    &&& sound(tiers, path[0])
    &&& forall|i: int| 0 <= i < touched.len() ==> follows(tiers, path[i], #[trigger] touched[i], path[i + 1])
}

/// What a walk has touched it never shakes off: from then on, however long it goes, no state stands
/// above what the trust of that data reaches.
pub proof fn a_walk_is_bound_by_what_it_touched(
    tiers: Tiers,
    path: Seq<BranchView>,
    touched: Seq<Option<Seq<char>>>,
    i: int,
    j: int,
)
    requires
        trust::monotone(tiers),
        walk(tiers, path, touched),
        0 <= i < j < path.len(),
    ensures
        sound(tiers, path[j]),
        trust::rank(tiers, path[j].trust) <= trust::rank(tiers, path[i].trust),
        state::within(path[j].prompt.state, trust::reaches(tiers, path[i].trust)),
        touched[i] matches Some(a) ==> trust::rank(tiers, path[j].trust) <= trust::rank(tiers, a)
            && state::within(path[j].prompt.state, trust::reaches(tiers, a)),
    decreases j,
{
    lemma_walk_is_sound(tiers, path, touched, j);
    if i < j - 1 {
        a_walk_is_bound_by_what_it_touched(tiers, path, touched, i, j - 1);
    }
    assert(follows(tiers, path[j - 1], touched[j - 1], path[j]));
    trust::less_trust_reaches_no_further(tiers, path[j].trust, path[i].trust);
    if let Some(a) = touched[i] {
        trust::less_trust_reaches_no_further(tiers, path[j].trust, a);
    }
}

proof fn lemma_walk_is_sound(tiers: Tiers, path: Seq<BranchView>, touched: Seq<Option<Seq<char>>>, j: int)
    requires
        walk(tiers, path, touched),
        0 <= j < path.len(),
    ensures
        sound(tiers, path[j]),
    decreases j,
{
    if j > 0 {
        lemma_walk_is_sound(tiers, path, touched, j - 1);
        assert(follows(tiers, path[j - 1], touched[j - 1], path[j]));
    }
}

/// A cycle that touches public data never settles and never reflects: under the default tiers every
/// state behind the step that touched it is Perceive or Express.
pub proof fn public_data_never_settles_or_reflects(
    path: Seq<BranchView>,
    touched: Seq<Option<Seq<char>>>,
    i: int,
    j: int,
)
    requires
        walk(trust::default_tiers(), path, touched),
        0 <= i < j < path.len(),
        touched[i] == Some("public"@),
    ensures
        state::within(path[j].prompt.state, ConsciousnessState::Express),
{
    trust::the_default_tiers_rise();
    a_walk_is_bound_by_what_it_touched(trust::default_tiers(), path, touched, i, j);
}

/// One round of a dispatch: the branch that ran, what it came to, and what its fanning out met.
pub struct Round {
    pub ran: BranchView,
    pub result: StepResult,
    pub targets: Seq<Option<Target>>,
    pub cursor: Option<Seq<char>>,
    /// Of each child, whether the queue took it.
    pub queued: Seq<bool>,
    pub now: i64,
}

/// The cycle that a seed and its entry prompt start.
pub open spec fn entered(seed: SeedView, prompt: StatePrompt) -> CycleView {
    CycleView {
        work: seq![
            BranchView {
                prompt,
                step: seed.step,
                trust: seed.trust,
                ceiling: seed.ceiling,
                scope: seed.scope,
            },
        ],
        steps: 0,
        deferred: 0,
        depth: seed.depth,
    }
}

/// The cycle after its next branch was taken.
pub open spec fn taken(c: CycleView) -> CycleView {
    CycleView { work: c.work.drop_first(), steps: c.steps + 1, ..c }
}

/// What the gates let through in a round.
pub open spec fn round_fanned(config: DackConfig, stimulus: StimulusView, c: CycleView, r: Round) -> Fanned {
    let intents = proposal::branches(r.result.out@);
    fanned(
        gate_of(config, taken(c), r.ran, r.result, stimulus, r.cursor, r.now),
        c.deferred,
        intents,
        r.targets,
        intents.len() as int,
    )
}

/// The cycle after a round: its branch taken, the step fanned out, and the children adopted.
pub open spec fn after_round(config: DackConfig, stimulus: StimulusView, c: CycleView, r: Round) -> CycleView {
    let f = round_fanned(config, stimulus, c, r);
    CycleView {
        work: taken(c).work + in_wake(f.children, r.queued),
        deferred: f.deferred,
        ..taken(c)
    }
}

/// Whether round `i` runs the next branch of its cycle, within the budget, and leaves the cycle that
/// comes behind it.
pub open spec fn runs(
    config: DackConfig,
    stimulus: StimulusView,
    cycles: Seq<CycleView>,
    rounds: Seq<Round>,
    i: int,
) -> bool {
    &&& cycles[i].work.len() > 0
    &&& cycles[i].steps < MAX_CYCLE_STEPS
    &&& rounds[i].ran == cycles[i].work[0]
    &&& cycles[i + 1] == after_round(config, stimulus, cycles[i], rounds[i])
}

/// The rounds that a dispatch of a stimulus has run, and its cycle before each of them and behind the
/// last: it opens on its seed, each round runs the next branch while the budget lasts, and nothing runs
/// where the entry stands above the ceiling.
pub open spec fn dispatched(
    config: DackConfig,
    stimulus: StimulusView,
    prompt: StatePrompt,
    cycles: Seq<CycleView>,
    rounds: Seq<Round>,
) -> bool {
    let seed = seed_of(config.lattice@, config.operator_did@, stimulus);
    if state::within(prompt.state, seed.ceiling) {
        &&& cycles.len() == rounds.len() + 1
        &&& cycles[0] == entered(seed, prompt)
        &&& forall|i: int|
            0 <= i < rounds.len() ==> #[trigger] runs(config, stimulus, cycles, rounds, i)
    } else {
        rounds.len() == 0
    }
}

/// What a round's step touched.
pub open spec fn touched_in(r: Round) -> Option<Seq<char>> {
    accessed_view(r.result.accessed)
}

/// Rounds that led to the branch of the last of them: from the entry on, each one's branch follows from
/// the one before by what that one's step touched.
pub open spec fn lineage(tiers: Tiers, rounds: Seq<Round>, ids: Seq<int>) -> bool
    decreases ids.len(),
{
    if ids.len() <= 1 {
        ids.len() == 1 && ids[0] == 0
    } else {
        let before = ids.drop_last();
        &&& lineage(tiers, rounds, before)
        &&& before.last() < ids.last() < rounds.len()
        &&& follows(
            tiers,
            rounds[before.last()].ran,
            touched_in(rounds[before.last()]),
            rounds[ids.last()].ran,
        )
    }
}

/// The trust that is left of `trust` behind those rounds, before the last one's step: lowered by what
/// every earlier one's step touched.
pub open spec fn trust_along(tiers: Tiers, trust: Seq<char>, rounds: Seq<Round>, ids: Seq<int>) -> Seq<char>
    decreases ids.len(),
{
    if ids.len() <= 1 {
        trust
    } else {
        let before = ids.drop_last();
        trust_after(tiers, trust_along(tiers, trust, rounds, before), touched_in(rounds[before.last()]))
    }
}

/// Whether round `i` was led to from the entry, with what then is left of `trust`.
pub open spec fn led_to(tiers: Tiers, trust: Seq<char>, rounds: Seq<Round>, i: int) -> bool {
    exists|ids: Seq<int>| #[trigger]
        lineage(tiers, rounds, ids) && ids.last() == i && rounds[i].ran.trust == trust_along(
            tiers,
            trust,
            rounds,
            ids,
        )
}

/// Whether a branch follows from one of the first `n` rounds.
spec fn stems(tiers: Tiers, rounds: Seq<Round>, n: int, b: BranchView) -> bool {
    exists|j: int| 0 <= j < n && follows(tiers, (#[trigger] rounds[j]).ran, touched_in(rounds[j]), b)
}

proof fn lemma_in_wake_stems(
    tiers: Tiers,
    rounds: Seq<Round>,
    j: int,
    children: Seq<ChildView>,
    queued: Seq<bool>,
)
    requires
        0 <= j < rounds.len(),
        forall|i: int|
            0 <= i < children.len() ==> follows(
                tiers,
                rounds[j].ran,
                touched_in(rounds[j]),
                (#[trigger] children[i]).branch,
            ),
    ensures
        forall|i: int|
            0 <= i < in_wake(children, queued).len() ==> stems(
                tiers,
                rounds,
                j + 1,
                #[trigger] in_wake(children, queued)[i],
            ),
    decreases children.len(),
{
    if children.len() > 0 {
        let d = children.drop_last();
        assert forall|i: int| 0 <= i < d.len() implies follows(
            tiers,
            rounds[j].ran,
            touched_in(rounds[j]),
            (#[trigger] d[i]).branch,
        ) by {
            assert(d[i] == children[i]);
        }
        lemma_in_wake_stems(tiers, rounds, j, d, queued);
        let last = children[children.len() - 1].branch;
        assert(follows(tiers, rounds[j].ran, touched_in(rounds[j]), last));
        assert(stems(tiers, rounds, j + 1, last));
        let w = in_wake(children, queued);
        let v = in_wake(d, queued);
        assert forall|i: int| 0 <= i < w.len() implies stems(tiers, rounds, j + 1, #[trigger] w[i]) by {
            if i < v.len() {
                assert(w[i] == v[i]);
            }
        }
    }
}

/// Behind the first round, every branch still to run follows from one that ran.
proof fn lemma_work_stems(
    config: DackConfig,
    stimulus: StimulusView,
    prompt: StatePrompt,
    cycles: Seq<CycleView>,
    rounds: Seq<Round>,
    n: int,
)
    requires
        dispatched(config, stimulus, prompt, cycles, rounds),
        0 < n <= rounds.len(),
    ensures
        cycles[n].steps == n,
        forall|i: int|
            0 <= i < cycles[n].work.len() ==> stems(config.lattice@, rounds, n, #[trigger] cycles[n].work[i]),
    decreases n,
{
    let tiers = config.lattice@;
    let c = cycles[n - 1];
    let r = rounds[n - 1];
    assert(runs(config, stimulus, cycles, rounds, n - 1));
    if n > 1 {
        lemma_work_stems(config, stimulus, prompt, cycles, rounds, n - 1);
    }
    let f = round_fanned(config, stimulus, c, r);
    every_child_follows(
        config,
        taken(c),
        r.ran,
        r.result,
        stimulus,
        r.cursor,
        r.now,
        r.targets,
        proposal::branches(r.result.out@).len() as int,
    );
    lemma_in_wake_stems(tiers, rounds, n - 1, f.children, r.queued);
    let left = taken(c).work;
    let more = in_wake(f.children, r.queued);
    assert forall|i: int| 0 <= i < cycles[n].work.len() implies stems(
        tiers,
        rounds,
        n,
        #[trigger] cycles[n].work[i],
    ) by {
        if i < left.len() {
            assert(cycles[n].work[i] == c.work[i + 1]);
            assert(n > 1);
            assert(stems(tiers, rounds, n - 1, c.work[i + 1]));
            let j = choose|j: int|
                0 <= j < n - 1 && follows(tiers, (#[trigger] rounds[j]).ran, touched_in(rounds[j]), c.work[i + 1]);
            assert(follows(tiers, rounds[j].ran, touched_in(rounds[j]), cycles[n].work[i]));
        } else {
            assert(cycles[n].work[i] == more[i - left.len()]);
        }
    }
}

proof fn lemma_lineage(
    config: DackConfig,
    stimulus: StimulusView,
    prompt: StatePrompt,
    cycles: Seq<CycleView>,
    rounds: Seq<Round>,
    i: int,
) -> (ids: Seq<int>)
    requires
        dispatched(config, stimulus, prompt, cycles, rounds),
        0 <= i < rounds.len(),
    ensures
        lineage(config.lattice@, rounds, ids),
        ids.last() == i,
    decreases i,
{
    let tiers = config.lattice@;
    if i == 0 {
        seq![0]
    } else {
        lemma_work_stems(config, stimulus, prompt, cycles, rounds, i);
        assert(runs(config, stimulus, cycles, rounds, i));
        let b = cycles[i].work[0];
        assert(stems(tiers, rounds, i, b));
        let j = choose|j: int| 0 <= j < i && follows(tiers, (#[trigger] rounds[j]).ran, touched_in(rounds[j]), b);
        let before = lemma_lineage(config, stimulus, prompt, cycles, rounds, j);
        let ids = before.push(i);
        assert(ids.drop_last() == before);
        ids
    }
}

proof fn lemma_lineage_is_sound(tiers: Tiers, rounds: Seq<Round>, ids: Seq<int>)
    requires
        lineage(tiers, rounds, ids),
        sound(tiers, rounds[0].ran),
    ensures
        sound(tiers, rounds[ids.last()].ran),
        rounds[ids.last()].ran.trust == trust_along(tiers, rounds[0].ran.trust, rounds, ids),
        trust::rank(tiers, rounds[ids.last()].ran.trust) <= trust::rank(tiers, rounds[0].ran.trust),
    decreases ids.len(),
{
    if ids.len() > 1 {
        lemma_lineage_is_sound(tiers, rounds, ids.drop_last());
    }
}

/// A whole dispatch stays under the ceiling. However its steps fan out, every step that it runs is led
/// to by rounds that start at the entry with the seed's trust, each lowering it by what its step
/// touched; and its state stands within what the trust that is left reaches. No more steps run than the
/// budget has, and none where the entry stands above the ceiling.
pub proof fn a_whole_dispatch_stays_under_the_ceiling(
    config: DackConfig,
    stimulus: StimulusView,
    prompt: StatePrompt,
    cycles: Seq<CycleView>,
    rounds: Seq<Round>,
)
    requires
        dispatched(config, stimulus, prompt, cycles, rounds),
    ensures
        rounds.len() <= MAX_CYCLE_STEPS,
        forall|i: int|
            0 <= i < rounds.len() ==> sound(config.lattice@, (#[trigger] rounds[i]).ran) && led_to(
                config.lattice@,
                seed_of(config.lattice@, config.operator_did@, stimulus).trust,
                rounds,
                i,
            ),
        !state::within(
            prompt.state,
            seed_of(config.lattice@, config.operator_did@, stimulus).ceiling,
        ) ==> rounds.len() == 0,
{
    let tiers = config.lattice@;
    let seed = seed_of(tiers, config.operator_did@, stimulus);
    if rounds.len() > 0 {
        let n = rounds.len() - 1;
        assert(runs(config, stimulus, cycles, rounds, 0));
        assert(runs(config, stimulus, cycles, rounds, n));
        if n > 0 {
            lemma_work_stems(config, stimulus, prompt, cycles, rounds, n);
        }
        a_cycle_starts_sound(tiers, config.operator_did@, stimulus, prompt);
    }
    assert forall|i: int| 0 <= i < rounds.len() implies sound(tiers, (#[trigger] rounds[i]).ran) && led_to(
        tiers,
        seed.trust,
        rounds,
        i,
    ) by {
        let ids = lemma_lineage(config, stimulus, prompt, cycles, rounds, i);
        lemma_lineage_is_sound(tiers, rounds, ids);
    }
}

/// A wake whose directive or payload is public never settles and never reflects, whatever its steps
/// choose: under the default tiers every step of its dispatch is Perceive or Express.
pub proof fn a_public_wake_never_settles_or_reflects(
    config: DackConfig,
    stimulus: StimulusView,
    prompt: StatePrompt,
    cycles: Seq<CycleView>,
    rounds: Seq<Round>,
)
    requires
        config.lattice@ == trust::default_tiers(),
        dispatched(config, stimulus, prompt, cycles, rounds),
        batons::carried(stimulus) is None,
        stimulus.payload_tier == "public"@ || proven_tier(stimulus, config.operator_did@) == "public"@,
    ensures
        forall|i: int|
            0 <= i < rounds.len() ==> state::within(
                (#[trigger] rounds[i]).ran.prompt.state,
                ConsciousnessState::Express,
            ),
{
    let tiers = config.lattice@;
    a_whole_dispatch_stays_under_the_ceiling(config, stimulus, prompt, cycles, rounds);
    trust::the_default_tiers_rise();
    assert forall|i: int| 0 <= i < rounds.len() implies state::within(
        (#[trigger] rounds[i]).ran.prompt.state,
        ConsciousnessState::Express,
    ) by {
        let proven = proven_tier(stimulus, config.operator_did@);
        trust::public_taint_stops_at_express(proven);
        trust::public_taint_stops_at_express(stimulus.payload_tier);
        let ids = lemma_lineage(config, stimulus, prompt, cycles, rounds, i);
        assert(runs(config, stimulus, cycles, rounds, 0));
        assert(sound(tiers, rounds[0].ran));
        lemma_lineage_is_sound(tiers, rounds, ids);
        trust::less_trust_reaches_no_further(tiers, rounds[i].ran.trust, rounds[0].ran.trust);
    }
}

/// Deferring changes when a branch runs, never what it may do: the cycle that takes a deferred branch
/// up opens on the same baton with the same trust, answers the same message, and may walk no
/// further. And a lineage ends: each deferral counts up, and none goes past the cap.
pub proof fn a_deferred_branch_runs_as_it_would_have(
    config: DackConfig,
    cycle: CycleView,
    branch: BranchView,
    result: StepResult,
    stimulus: StimulusView,
    cursor: Option<Seq<char>>,
    now: i64,
    targets: Seq<Option<Target>>,
    n: int,
    i: int,
)
    requires
        sound(config.lattice@, branch),
        0 <= cycle.depth,
        0 <= i < fanned(
            gate_of(config, cycle, branch, result, stimulus, cursor, now),
            cycle.deferred,
            proposal::branches(result.out@),
            targets,
            n,
        ).children.len(),
    ensures
        ({
            let g = gate_of(config, cycle, branch, result, stimulus, cursor, now);
            let c = fanned(g, cycle.deferred, proposal::branches(result.out@), targets, n).children[i];
            c.deferred matches Some(d) ==> {
                let seed = seed_of(config.lattice@, config.operator_did@, d);
                &&& d.entry == c.branch.prompt.id@
                &&& seed.step == c.branch.step
                &&& seed.trust == c.branch.trust
                &&& seed.ceiling == c.branch.ceiling
                &&& seed.scope == batons::deferred_scope(c.branch.scope, stimulus.payload)
                &&& seed.depth == cycle.depth + 1
                &&& seed.depth <= MAX_LINEAGE_DEPTH
            }
        }),
    decreases n,
{
    let g = gate_of(config, cycle, branch, result, stimulus, cursor, now);
    let intents = proposal::branches(result.out@);
    let f = fanned(g, cycle.deferred, intents, targets, n);
    let p = fanned(g, cycle.deferred, intents, targets, n - 1);
    if i < p.children.len() {
        a_deferred_branch_runs_as_it_would_have(
            config,
            cycle,
            branch,
            result,
            stimulus,
            cursor,
            now,
            targets,
            n - 1,
            i,
        );
        assert(f.children[i] == p.children[i]);
    } else {
        let intent = intents[n - 1];
        let prompt = target_at(targets, n - 1)->0.prompt;
        assert(f.children[i] == child_of(g, p.deferred, intent, prompt));
        let keys = text::views(branch.prompt.reply_key@);
        let scope = batons::reply_scope(stimulus.payload, keys, intent.reply_to);
        batons::a_reply_stays_in_the_batch(stimulus.payload, keys, intent.reply_to);
        assert(scope != Some(Tree::Null));
        if cycle.depth < MAX_LINEAGE_DEPTH {
            batons::a_deferred_branch_reads_back(
                stimulus,
                prompt.id@,
                batons::baton_for(intent, g.out, stimulus, g.runlog_ref, g.trust),
                g.trust,
                Priority::Low,
                cycle.depth + 1,
                p.deferred + 1,
                now,
                scope,
            );
        }
    }
}

/// A stimulus with a public payload never opens a cycle that reaches Settle or Reflect under the
/// default tiers, whatever its directive claims.
pub proof fn a_public_payload_never_reaches_settle(operator_did: Seq<char>, s: StimulusView)
    requires
        batons::carried(s) is None,
        s.payload_tier == "public"@,
    ensures
        state::within(
            seed_of(trust::default_tiers(), operator_did, s).ceiling,
            ConsciousnessState::Express,
        ),
{
    trust::public_taint_stops_at_express(proven_tier(s, operator_did));
}

/// A step loses no more trust than it touched: every child has the trust of the branch or of what the
/// step touched, whichever ranks lower. Where what was touched ranks at or above the branch, or nothing
/// was touched, the children keep the branch's trust, and the ceiling that goes with it.
pub proof fn a_step_loses_no_more_trust_than_it_touched(
    config: DackConfig,
    cycle: CycleView,
    branch: BranchView,
    result: StepResult,
    stimulus: StimulusView,
    cursor: Option<Seq<char>>,
    now: i64,
    targets: Seq<Option<Target>>,
    n: int,
)
    ensures
        ({
            let tiers = config.lattice@;
            let g = gate_of(config, cycle, branch, result, stimulus, cursor, now);
            let f = fanned(g, cycle.deferred, proposal::branches(result.out@), targets, n);
            forall|i: int| 0 <= i < f.children.len() ==> {
                let c = (#[trigger] f.children[i]).branch;
                match result.accessed {
                    None => c.trust == branch.trust && c.ceiling == branch.ceiling,
                    Some(a) => if trust::rank(tiers, a.0@) < trust::rank(tiers, branch.trust) {
                        c.trust == a.0@ && c.ceiling == trust::reaches(tiers, a.0@)
                    } else {
                        &&& c.trust == branch.trust
                        &&& c.ceiling == trust::reaches(tiers, branch.trust)
                        &&& branch.ceiling == trust::reaches(tiers, branch.trust) ==> c.ceiling == branch.ceiling
                    },
                }
            }
        }),
    decreases n,
{
    if n > 0 {
        a_step_loses_no_more_trust_than_it_touched(
            config,
            cycle,
            branch,
            result,
            stimulus,
            cursor,
            now,
            targets,
            n - 1,
        );
    }
    if let Some(a) = result.accessed {
        trust::a_meet_is_the_lower_of_the_two(config.lattice@, branch.trust, a.0@);
    }
}

/// Whether one of the children is a Reflect.
pub open spec fn reflects(children: Seq<ChildView>) -> bool {
    exists|i: int| 0 <= i < children.len() && (#[trigger] children[i]).branch.prompt.state is Reflect
}

proof fn lemma_reflected(g: Gate, start: int, intents: Seq<IntentView>, targets: Seq<Option<Target>>, n: int)
    ensures
        fanned(g, start, intents, targets, n).reflected == reflects(
            fanned(g, start, intents, targets, n).children,
        ),
    decreases n,
{
    if n > 0 {
        lemma_reflected(g, start, intents, targets, n - 1);
        let before = fanned(g, start, intents, targets, n - 1).children;
        let after = fanned(g, start, intents, targets, n).children;
        if after.len() > before.len() {
            if reflects(before) {
                let i = choose|i: int|
                    0 <= i < before.len() && (#[trigger] before[i]).branch.prompt.state is Reflect;
                assert(after[i] == before[i]);
            }
            if after.last().branch.prompt.state is Reflect {
                assert(after[after.len() - 1].branch.prompt.state is Reflect);
            } else if reflects(after) {
                let i = choose|i: int|
                    0 <= i < after.len() && (#[trigger] after[i]).branch.prompt.state is Reflect;
                assert(before[i] == after[i]);
            }
        }
    }
}

/// One more branch is at most one more child. It becomes the last child exactly where it names a prompt
/// that its soul lists and that was found, the ladder allows the hop, the prompt's state stands within
/// the ceiling, fewer than five children went before it, and, for a Reflect, none of those reflects and
/// the interval since the last one has passed. A branch that fails leaves the children as they were.
pub proof fn one_more_branch_is_at_most_one_more_child(
    g: Gate,
    start: int,
    intents: Seq<IntentView>,
    targets: Seq<Option<Target>>,
    n: int,
)
    requires
        0 <= n < intents.len(),
    ensures
        ({
            let before = fanned(g, start, intents, targets, n);
            let after = fanned(g, start, intents, targets, n + 1);
            let passes = {
                &&& intents[n].to_prompt.len() > 0
                &&& before.children.len() < 5
                &&& text::views(g.from.prompt.transitions@).contains(intents[n].to_prompt)
                &&& n < targets.len()
                &&& targets[n] matches Some(t)
                &&& t.allowed
                &&& state::within(t.prompt.state, g.ceiling)
                &&& t.prompt.state is Reflect ==> g.interval <= 0 || (!reflects(before.children) && (
                g.last_reflect matches Some(l) ==> g.now >= l + g.interval))
            };
            if passes {
                &&& after.children.len() == before.children.len() + 1
                &&& after.children.drop_last() == before.children
                &&& after.children.last().branch.prompt == targets[n]->0.prompt
                &&& after.deferred == before.deferred + if intents[n].priority == Some(Priority::Low) && g.depth < 4 {
                    1int
                } else {
                    0
                }
                &&& after.reflected == reflects(after.children)
            } else {
                after == before
            }
        }),
{
    lemma_reflected(g, start, intents, targets, n);
    lemma_reflected(g, start, intents, targets, n + 1);
    let before = fanned(g, start, intents, targets, n);
    let after = fanned(g, start, intents, targets, n + 1);
    if after.children.len() > before.children.len() {
        assert(after.children.drop_last() == before.children);
    }
}

/// A child opens on the baton of its own branch and answers the message that the branch names. It is
/// deferred exactly where the branch is marked low and its lineage was deferred fewer than four times;
/// deferred, it goes into the queue one deeper, low, under its own prompt, with the trust it has left.
pub proof fn a_child_is_of_its_branch(
    g: Gate,
    start: int,
    intents: Seq<IntentView>,
    targets: Seq<Option<Target>>,
    n: int,
)
    requires
        0 <= n < intents.len(),
        fanned(g, start, intents, targets, n + 1).children.len() > fanned(
            g,
            start,
            intents,
            targets,
            n,
        ).children.len(),
    ensures
        ({
            let c = fanned(g, start, intents, targets, n + 1).children.last();
            let scope = batons::reply_scope(
                g.stimulus.payload,
                text::views(g.from.prompt.reply_key@),
                intents[n].reply_to,
            );
            let baton = batons::baton_for(intents[n], g.out, g.stimulus, g.runlog_ref, g.trust);
            &&& c.branch.step == StepView::Act(baton)
            &&& c.branch.scope == scope
            &&& c.branch.trust == g.trust
            &&& c.branch.ceiling == g.ceiling
            &&& c.deferred is Some <==> intents[n].priority == Some(Priority::Low) && g.depth < 4
            &&& c.deferred matches Some(d) ==> {
                &&& d.entry == c.branch.prompt.id@
                &&& d.priority == Priority::Low
                &&& d.payload_tier == g.trust
                &&& d.received_at == g.now
                &&& d.id == g.stimulus.id + "-b"@ + text::decimal(
                    fanned(g, start, intents, targets, n).deferred + 1,
                )
                &&& json::member(d.payload, "depth"@) == Some(Tree::Int(g.depth + 1))
                &&& json::member(d.payload, "baton"@) == Some(batons::baton_tree(baton))
                &&& json::member(d.payload, "scope"@) == Some(
                    match scope {
                        Some(x) => x,
                        None => batons::or_null(batons::origin_scope(g.stimulus.payload)),
                    },
                )
            }
        }),
{
    reveal_strlit("baton");
    reveal_strlit("depth");
    reveal_strlit("scope");
    assert("baton"@[0] == 'b' && "depth"@[0] == 'd' && "scope"@[0] == 's');
}

/// What a gate looks at is what the step and the cycle were: the branch that ran, its output, where it
/// was logged, the depth of the cycle, and the configured interval with the stored time of the last
/// Reflect.
pub proof fn a_gate_is_of_its_step(
    config: DackConfig,
    cycle: CycleView,
    branch: BranchView,
    result: StepResult,
    stimulus: StimulusView,
    cursor: Option<Seq<char>>,
    now: i64,
)
    ensures
        ({
            let g = gate_of(config, cycle, branch, result, stimulus, cursor, now);
            &&& g.from == branch
            &&& g.out == result.out@
            &&& g.stimulus == stimulus
            &&& g.runlog_ref == result.runlog_ref@
            &&& g.depth == cycle.depth
            &&& g.interval == config.reflect_min_interval_secs
            &&& g.now == now
            &&& cursor is None ==> g.last_reflect is None
            &&& cursor matches Some(s) ==> g.last_reflect == text::parsed_i64(s)
        }),
{
}

/// A Reflect is due exactly where no interval is set, no last one is known, or the interval has passed
/// since: not a second sooner.
pub proof fn a_reflect_is_due_when_the_interval_has_passed(interval: i64, last: int, now: i64)
    ensures
        reflect_due(interval, None, now),
        interval <= 0 ==> reflect_due(interval, Some(last), now),
        interval > 0 ==> (reflect_due(interval, Some(last), now) <==> last + interval <= now),
{
}

/// The prompts that are looked up for a step are the destinations of its branches that the soul lists,
/// each in its branch's place; the others leave their place empty.
pub proof fn only_listed_prompts_are_looked_up(prompt: StatePrompt, intents: Seq<IntentView>, i: int)
    requires
        0 <= i < intents.len(),
    ensures
        wanted(prompt, intents).len() == intents.len(),
        wanted(prompt, intents)[i] matches Some(w) ==> w == intents[i].to_prompt && w.len() > 0 && text::views(
            prompt.transitions@,
        ).contains(w),
        wanted(prompt, intents)[i] is None ==> intents[i].to_prompt.len() == 0 || !text::views(
            prompt.transitions@,
        ).contains(intents[i].to_prompt),
{
}

/// A world stimulus opens on its payload, not deferred before and with no target of its own; its trust
/// is that of its proven directive or of its payload, whichever ranks lower, and its ceiling is what
/// that trust reaches.
pub proof fn a_world_stimulus_opens_with_the_lower_trust(tiers: Tiers, operator_did: Seq<char>, s: StimulusView)
    requires
        s.type_ != "baton-continuation"@,
    ensures
        ({
            let seed = seed_of(tiers, operator_did, s);
            let proven = proven_tier(s, operator_did);
            &&& seed.step == StepView::Entry
            &&& seed.depth == 0
            &&& seed.scope is None
            &&& trust::rank(tiers, proven) <= trust::rank(tiers, s.payload_tier) ==> seed.trust == proven
            &&& trust::rank(tiers, s.payload_tier) < trust::rank(tiers, proven) ==> seed.trust == s.payload_tier
            &&& seed.ceiling == trust::reaches(tiers, seed.trust)
        }),
{
}

/// A deferred branch opens on what it carries, with the trust of its stimulus, whatever its directive
/// claims.
pub proof fn a_deferred_branch_opens_on_what_it_carries(
    tiers: Tiers,
    operator_did: Seq<char>,
    s: StimulusView,
)
    ensures
        batons::carried(s) matches Some((baton, depth, scope)) ==> {
            let seed = seed_of(tiers, operator_did, s);
            &&& seed.step == StepView::Act(baton)
            &&& seed.depth == depth
            &&& seed.scope == scope
            &&& seed.trust == s.payload_tier
            &&& seed.ceiling == trust::reaches(tiers, s.payload_tier)
        },
{
}

/// A directive that does not claim to be the operator's has the trust it claims; one that does has the
/// operator's where its signature verifies, and counts as public in every other case.
pub proof fn a_claim_is_proven_or_public(s: StimulusView, operator_did: Seq<char>, sig: Seq<char>)
    ensures
        s.directive_tier != "operator_signed"@ ==> proven_tier(s, operator_did) == s.directive_tier,
        s.directive_tier == "operator_signed"@ && s.provenance == Some("operator_sig:"@ + sig) ==> proven_tier(
            s,
            operator_did,
        ) == (if ed25519::verdict(
            operator_did,
            vstd::utf8::encode_utf8(s.directive_body),
            vstd::utf8::encode_utf8(sig),
        ) == std::result::Result::<bool, Seq<char>>::Ok(true) {
            "operator_signed"@
        } else {
            "public"@
        }),
        s.directive_tier == "operator_signed"@ && (s.provenance matches Some(p) ==> !"operator_sig:"@.is_prefix_of(
            p,
        )) ==> proven_tier(s, operator_did) == "public"@,
{
    let p = "operator_sig:"@ + sig;
    assert(p.skip("operator_sig:"@.len() as int) == sig);
    assert(p.take("operator_sig:"@.len() as int) == "operator_sig:"@);
    assert("operator_sig:"@.is_prefix_of(p));
}

/// A deferred branch is dropped once it has waited longer than it may, and not before; what is no
/// deferred branch is never dropped, nor is anything where no limit is set.
pub proof fn only_what_waited_too_long_is_stale(s: StimulusView, ttl: i64, now: i64)
    ensures
        !stale(s, None, now),
        batons::carried(s) is None ==> !stale(s, Some(ttl), now),
        batons::carried(s) is Some ==> (stale(s, Some(ttl), now) <==> s.received_at + ttl < now),
{
}

/// The children that run in this wake, in their order: a child stays out exactly where it was to be
/// deferred and the queue took it.
pub proof fn a_child_runs_unless_the_queue_took_it(children: Seq<ChildView>, queued: Seq<bool>, c: ChildView)
    ensures
        in_wake(Seq::empty(), queued) == Seq::<BranchView>::empty(),
        c.deferred is None ==> in_wake(children.push(c), queued) == in_wake(children, queued).push(c.branch),
        c.deferred is Some && children.len() < queued.len() && queued[children.len() as int] ==> in_wake(
            children.push(c),
            queued,
        ) == in_wake(children, queued),
        c.deferred is Some && !(children.len() < queued.len() && queued[children.len() as int]) ==> in_wake(
            children.push(c),
            queued,
        ) == in_wake(children, queued).push(c.branch),
{
    assert(children.push(c).drop_last() == children);
    assert(children.push(c).last() == c);
}

/// Only an Express step launches a worker, and it launches the one that its output asks for.
pub proof fn only_express_delegates(state: ConsciousnessState, out: OutputView)
    ensures
        delegated(ConsciousnessState::Express, out) == out.spawn,
        !(state is Express) ==> delegated(state, out) is None,
{
}

/// A cycle starts with its entry alone, on what its seed gives, with nothing spent; taking a branch
/// takes the first, and spends one step.
pub proof fn a_cycle_starts_with_its_entry_alone(seed: SeedView, prompt: StatePrompt, c: CycleView)
    ensures
        ({
            let e = entered(seed, prompt);
            &&& e.work.len() == 1
            &&& e.work[0].prompt == prompt
            &&& e.work[0].step == seed.step
            &&& e.work[0].trust == seed.trust
            &&& e.work[0].ceiling == seed.ceiling
            &&& e.work[0].scope == seed.scope
            &&& e.steps == 0
            &&& e.deferred == 0
            &&& e.depth == seed.depth
        }),
        taken(c).steps == c.steps + 1,
        taken(c).deferred == c.deferred,
        taken(c).depth == c.depth,
        c.work.len() > 0 ==> taken(c).work == c.work.skip(1),
{
}

/// The budget: twelve steps to a cycle, five branches to a step, and four deferrals to a lineage.
pub proof fn the_budget_is_fixed()
    ensures
        MAX_CYCLE_STEPS == 12,
        MAX_FANOUT_WIDTH == 5,
        MAX_LINEAGE_DEPTH == 4,
{
}

} // verus!
