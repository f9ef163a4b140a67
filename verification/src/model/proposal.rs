//! The agent's return value and its lenient reading: what is usable is repaired, what is not is
//! dropped alone, and only an output that is no object is refused.

use serde_json::Value;
use vstd::prelude::*;

use crate::error::DackError;
use crate::error::Result;
use crate::json;
use crate::json::Tree;
use crate::model::stimulus::Priority;
use crate::text;
use crate::text_map;
use crate::text_map::TextMap;

verus! {

/// What the agent says it means to do. Descriptive only.
#[derive(Clone, Copy, Debug, PartialEq, Eq, Structural)]
pub enum Intent {
    Reply,
    Post,
    Research,
    Delegate,
    Ignore,
    Noop,
    /// Any label not listed above.
    Other,
}

/// The digested proposal of a Perceive step.
pub struct Proposal {
    pub intent: Intent,
    pub gist: String,
    /// The agent's own soft annotations.
    pub refs: TextMap<String>,
}

/// A single requested transition.
pub struct Transition {
    /// The next state-prompt, or none to stop.
    pub to_prompt: Option<String>,
    pub reason: String,
}

/// One branch that a step wants to take.
pub struct BatonIntent {
    pub to_prompt: String,
    pub gist: String,
    pub priority: Option<Priority>,
    /// The message this branch answers.
    pub reply_to: Option<String>,
    pub tags: Vec<String>,
    pub reason: String,
}

/// A job for a keyless sandboxed worker.
#[derive(Debug)]
pub struct SpawnRequest {
    pub agent: String,
    pub brief: String,
}

/// A short note on a conversation.
#[derive(Debug)]
pub struct TagNote {
    pub tag: String,
    pub note: String,
}

/// All that a step returns.
pub struct AgentOutput {
    pub thought: String,
    pub tag_notes: Option<Vec<TagNote>>,
    pub proposal: Option<Proposal>,
    pub spawn: Option<SpawnRequest>,
    pub transition: Transition,
    pub batons: Vec<BatonIntent>,
}

/// The contents of a branch.
#[verifier::ext_equal]
pub struct IntentView {
    pub to_prompt: Seq<char>,
    pub gist: Seq<char>,
    pub priority: Option<Priority>,
    pub reply_to: Option<Seq<char>>,
    pub tags: Seq<Seq<char>>,
    pub reason: Seq<char>,
}

/// The contents of a proposal.
#[verifier::ext_equal]
pub struct ProposalView {
    pub intent: Intent,
    pub gist: Seq<char>,
    pub refs: Map<Seq<char>, Seq<char>>,
}

/// The contents of an agent's output. A note is its tag and its text, a spawn request its agent
/// and its brief, a transition its target and its reason.
#[verifier::ext_equal]
pub struct OutputView {
    pub thought: Seq<char>,
    pub tag_notes: Option<Seq<(Seq<char>, Seq<char>)>>,
    pub proposal: Option<ProposalView>,
    pub spawn: Option<(Seq<char>, Seq<char>)>,
    pub transition: (Option<Seq<char>>, Seq<char>),
    pub batons: Seq<IntentView>,
}

impl View for Proposal {
    type V = ProposalView;

    open spec fn view(&self) -> ProposalView {
        ProposalView { intent: self.intent, gist: self.gist@, refs: text_map::texts(self.refs) }
    }
}

impl View for Transition {
    type V = (Option<Seq<char>>, Seq<char>);

    open spec fn view(&self) -> (Option<Seq<char>>, Seq<char>) {
        (text::opt(self.to_prompt), self.reason@)
    }
}

impl View for BatonIntent {
    type V = IntentView;

    open spec fn view(&self) -> IntentView {
        IntentView {
            to_prompt: self.to_prompt@,
            gist: self.gist@,
            priority: self.priority,
            reply_to: text::opt(self.reply_to),
            tags: text::views(self.tags@),
            reason: self.reason@,
        }
    }
}

impl View for SpawnRequest {
    type V = (Seq<char>, Seq<char>);

    open spec fn view(&self) -> (Seq<char>, Seq<char>) {
        (self.agent@, self.brief@)
    }
}

impl View for TagNote {
    type V = (Seq<char>, Seq<char>);

    open spec fn view(&self) -> (Seq<char>, Seq<char>) {
        (self.tag@, self.note@)
    }
}

/// The contents of several notes.
pub open spec fn note_views(v: Seq<TagNote>) -> Seq<(Seq<char>, Seq<char>)> {
    v.map_values(|n: TagNote| n@)
}

/// The contents of several branches.
pub open spec fn intent_views(v: Seq<BatonIntent>) -> Seq<IntentView> {
    v.map_values(|b: BatonIntent| b@)
}

impl View for AgentOutput {
    type V = OutputView;

    open spec fn view(&self) -> OutputView {
        OutputView {
            thought: self.thought@,
            tag_notes: match self.tag_notes {
                Some(v) => Some(note_views(v@)),
                None => None,
            },
            proposal: match self.proposal {
                Some(p) => Some(p@),
                None => None,
            },
            spawn: match self.spawn {
                Some(s) => Some(s@),
                None => None,
            },
            transition: self.transition@,
            batons: intent_views(self.batons@),
        }
    }
}

impl Clone for BatonIntent {
    fn clone(&self) -> (r: Self)
        ensures
            r@ == self@,
    {
        BatonIntent {
            to_prompt: self.to_prompt.clone(),
            gist: self.gist.clone(),
            priority: self.priority,
            reply_to: text::opt_copy(&self.reply_to),
            tags: text::copy_all(&self.tags),
            reason: self.reason.clone(),
        }
    }
}

impl Clone for Proposal {
    fn clone(&self) -> (r: Self)
        ensures
            r@ == self@,
    {
        Proposal { intent: self.intent, gist: self.gist.clone(), refs: self.refs.dup() }
    }
}

impl Clone for SpawnRequest {
    fn clone(&self) -> (r: Self)
        ensures
            r@ == self@,
    {
        SpawnRequest { agent: self.agent.clone(), brief: self.brief.clone() }
    }
}

fn copy_notes(v: &Vec<TagNote>) -> (r: Vec<TagNote>)
    ensures
        note_views(r@) == note_views(v@),
{
    let mut r: Vec<TagNote> = Vec::new();
    let mut i: usize = 0;
    while i < v.len()
        invariant
            i <= v.len(),
            note_views(r@) == note_views(v@).take(i as int),
        decreases v.len() - i,
    {
        let ghost before = r@;
        let n = TagNote { tag: v[i].tag.clone(), note: v[i].note.clone() };
        r.push(n);
        assert(note_views(r@) == note_views(before).push(n@));
        i += 1;
        assert(note_views(r@) == note_views(v@).take(i as int));
    }
    assert(note_views(v@).take(i as int) == note_views(v@));
    r
}

fn copy_branches(v: &Vec<BatonIntent>) -> (r: Vec<BatonIntent>)
    ensures
        intent_views(r@) == intent_views(v@),
{
    let mut r: Vec<BatonIntent> = Vec::new();
    let mut i: usize = 0;
    while i < v.len()
        invariant
            i <= v.len(),
            intent_views(r@) == intent_views(v@).take(i as int),
        decreases v.len() - i,
    {
        let ghost before = r@;
        let b = v[i].clone();
        r.push(b);
        assert(intent_views(r@) == intent_views(before).push(b@));
        i += 1;
        assert(intent_views(r@) == intent_views(v@).take(i as int));
    }
    assert(intent_views(v@).take(i as int) == intent_views(v@));
    r
}

impl Clone for AgentOutput {
    fn clone(&self) -> (r: Self)
        ensures
            r@ == self@,
    {
        AgentOutput {
            thought: self.thought.clone(),
            tag_notes: match &self.tag_notes {
                Some(v) => Some(copy_notes(v)),
                None => None,
            },
            proposal: match &self.proposal {
                Some(p) => Some(p.clone()),
                None => None,
            },
            spawn: match &self.spawn {
                Some(s) => Some(s.clone()),
                None => None,
            },
            transition: Transition {
                to_prompt: text::opt_copy(&self.transition.to_prompt),
                reason: self.transition.reason.clone(),
            },
            batons: copy_branches(&self.batons),
        }
    }
}

/// A branch with nothing but a destination and a reason.
pub open spec fn bare_intent(to_prompt: Seq<char>, reason: Seq<char>) -> IntentView {
    IntentView {
        to_prompt,
        gist: Seq::empty(),
        priority: None,
        reply_to: None,
        tags: Seq::empty(),
        reason,
    }
}

impl Default for BatonIntent {
    fn default() -> (r: Self)
        ensures
            r@ == bare_intent(Seq::empty(), Seq::empty()),
    {
        let r = BatonIntent {
            to_prompt: String::new(),
            gist: String::new(),
            priority: None,
            reply_to: None,
            tags: Vec::new(),
            reason: String::new(),
        };
        assert(r@.tags == Seq::<Seq<char>>::empty());
        r
    }
}

/// The output that says nothing.
pub open spec fn silent() -> OutputView {
    OutputView {
        thought: Seq::empty(),
        tag_notes: None,
        proposal: None,
        spawn: None,
        transition: (None, Seq::empty()),
        batons: Seq::empty(),
    }
}

impl Default for AgentOutput {
    fn default() -> (r: Self)
        ensures
            r@ == silent(),
    {
        let r = AgentOutput {
            thought: String::new(),
            tag_notes: None,
            proposal: None,
            spawn: None,
            transition: Transition { to_prompt: None, reason: String::new() },
            batons: Vec::new(),
        };
        assert(r@.batons == Seq::<IntentView>::empty());
        r
    }
}

/// The branches of an output: its batons where it has any, else its single transition, else none.
pub open spec fn branches(out: OutputView) -> Seq<IntentView> {
    if out.batons.len() > 0 {
        out.batons
    } else {
        match out.transition.0 {
            Some(id) => seq![bare_intent(id, out.transition.1)],
            None => Seq::empty(),
        }
    }
}

impl AgentOutput {
    /// The branches to fan out to. A branch made of a transition carries no gist of its own.
    pub fn fan_out(&self) -> (r: Vec<BatonIntent>)
        ensures
            intent_views(r@) == branches(self@),
    {
        if self.batons.len() > 0 {
            return copy_branches(&self.batons);
        }
        let mut r: Vec<BatonIntent> = Vec::new();
        match &self.transition.to_prompt {
            Some(id) => {
                let b = BatonIntent {
                    to_prompt: id.clone(),
                    reason: self.transition.reason.clone(),
                    gist: String::new(),
                    priority: None,
                    reply_to: None,
                    tags: Vec::new(),
                };
                assert(b@.tags == Seq::<Seq<char>>::empty());
                r.push(b);
                assert(intent_views(r@) == seq![b@]);
            },
            None => {
                assert(intent_views(r@) == Seq::<IntentView>::empty());
            },
        }
        r
    }
}

/// What stands for a field of a record: the member of that name, or the element at its place where
/// the record is written as an array.
pub open spec fn slot(t: Tree, name: Seq<char>, place: int) -> Option<Tree> {
    match t {
        Tree::Array(a) => if place < a.len() {
            Some(a[place])
        } else {
            None
        },
        _ => json::member(t, name),
    }
}

/// Whether a value can be read as a record of `n` fields.
pub open spec fn record(t: Tree, n: int) -> bool {
    match t {
        Tree::Object(_) => true,
        Tree::Array(a) => a.len() <= n,
        _ => false,
    }
}

/// A text field that may be absent; none where it holds anything but a string.
pub open spec fn text_field(f: Option<Tree>) -> Option<Seq<char>> {
    match f {
        None => Some(Seq::empty()),
        Some(t) => json::chars(t),
    }
}

/// A text, unless it is empty.
pub open spec fn nonempty(s: Option<Seq<char>>) -> Option<Seq<char>> {
    match s {
        Some(t) => if t.len() > 0 {
            s
        } else {
            None
        },
        None => None,
    }
}

fn slot_of<'a>(v: &'a Value, name: &str, place: usize) -> (r: Option<&'a Value>)
    ensures
        (match r {
            Some(x) => slot(json::tree(*v), name@, place as int) == Some(json::tree(*x)),
            None => slot(json::tree(*v), name@, place as int) is None,
        }),
{
    match json::as_array(v) {
        Some(a) => if place < a.len() {
            assert(json::trees(a@)[place as int] == json::tree(a@[place as int]));
            Some(&a[place])
        } else {
            None
        },
        None => json::get(v, name),
    }
}

fn is_record(v: &Value, n: usize) -> (r: bool)
    ensures
        r == record(json::tree(*v), n as int),
{
    match json::as_array(v) {
        Some(a) => a.len() <= n,
        None => json::as_object(v).is_some(),
    }
}

fn read_text(f: Option<&Value>) -> (r: Option<String>)
    ensures
        text::opt(r) == text_field(match f {
            Some(v) => Some(json::tree(*v)),
            None => None,
        }),
{
    match f {
        None => Some(String::new()),
        Some(v) => match json::as_str(v) {
            Some(s) => Some(s.to_owned()),
            None => None,
        },
    }
}

fn unless_empty(s: Option<String>) -> (r: Option<String>)
    ensures
        text::opt(r) == nonempty(text::opt(s)),
{
    match s {
        Some(t) => if t.as_str().is_empty() {
            None
        } else {
            Some(t)
        },
        None => None,
    }
}

/// The refs of an array: each element under its place.
pub open spec fn numbered(a: Seq<Tree>) -> Map<Seq<char>, Seq<char>>
    decreases a.len(),
{
    if a.len() == 0 {
        Map::empty()
    } else {
        numbered(a.drop_last()).insert(text::decimal(a.len() - 1), json::plain(a.last()))
    }
}

/// The refs that a value of any shape stands for.
pub open spec fn refs_of(t: Tree) -> Map<Seq<char>, Seq<char>> {
    match t {
        Tree::Object(m) => m.map_values(|v: Tree| json::plain(v)),
        Tree::Array(a) => numbered(a),
        Tree::Null => Map::empty(),
        _ => Map::empty().insert("0"@, json::plain(t)),
    }
}

/// Reads refs of any shape.
fn read_refs(v: &Value) -> (r: TextMap<String>)
    ensures
        text_map::texts(r) == refs_of(json::tree(*v)),
{
    let mut r: TextMap<String> = TextMap::new();
    assert(text_map::texts(r) == Map::<Seq<char>, Seq<char>>::empty());
    if let Some(members) = json::as_object(v) {
        let mut i: usize = 0;
        let ghost all = members@;
        let ghost f = |x: Tree| json::plain(x);
        assert(json::fields(all.take(0)).map_values(f) == Map::<Seq<char>, Seq<char>>::empty());
        while i < members.len()
            invariant
                i <= members.len(),
                all == members@,
                f == (|x: Tree| json::plain(x)),
                text_map::texts(r) == json::fields(all.take(i as int)).map_values(f),
            decreases members.len() - i,
        {
            let t = json::plain_text(&members[i].1);
            r.put(&members[i].0, &t);
            i += 1;
            assert(all.take(i as int).drop_last() == all.take(i - 1));
            assert(text_map::texts(r) == json::fields(all.take(i as int)).map_values(f));
        }
        assert(all.take(i as int) == all);
        return r;
    }
    if let Some(items) = json::as_array(v) {
        let mut i: usize = 0;
        let ghost all = json::trees(items@);
        while i < items.len()
            invariant
                i <= items.len(),
                all == json::trees(items@),
                text_map::texts(r) == numbered(all.take(i as int)),
            decreases items.len() - i,
        {
            let t = json::plain_text(&items[i]);
            let k = text::nat_text(i as u128);
            r.put(&k, &t);
            i += 1;
            assert(all.take(i as int).drop_last() == all.take(i - 1));
        }
        assert(all.take(i as int) == all);
        return r;
    }
    if !json::is_null(v) {
        let t = json::plain_text(v);
        r.put("0", &t);
    }
    r
}

/// The intent of a label.
pub open spec fn intent_named(s: Seq<char>) -> Intent {
    if s == "reply"@ {
        Intent::Reply
    } else if s == "post"@ {
        Intent::Post
    } else if s == "research"@ {
        Intent::Research
    } else if s == "delegate"@ {
        Intent::Delegate
    } else if s == "ignore"@ {
        Intent::Ignore
    } else if s == "noop"@ {
        Intent::Noop
    } else {
        Intent::Other
    }
}

/// The name of an intent, as it stands in the runlog.
pub open spec fn intent_name(i: Intent) -> Seq<char> {
    match i {
        Intent::Reply => "Reply"@,
        Intent::Post => "Post"@,
        Intent::Research => "Research"@,
        Intent::Delegate => "Delegate"@,
        Intent::Ignore => "Ignore"@,
        Intent::Noop => "Noop"@,
        Intent::Other => "Other"@,
    }
}

impl Intent {
    /// The name of the intent.
    pub fn name(&self) -> (r: &'static str)
        ensures
            r@ == intent_name(*self),
    {
        match self {
            Intent::Reply => "Reply",
            Intent::Post => "Post",
            Intent::Research => "Research",
            Intent::Delegate => "Delegate",
            Intent::Ignore => "Ignore",
            Intent::Noop => "Noop",
            Intent::Other => "Other",
        }
    }
}

/// An intent is a label, or an object whose one member, named by the label, is null.
pub open spec fn intent_of(t: Tree) -> Option<Intent> {
    match t {
        Tree::Text(s) => Some(intent_named(s)),
        Tree::Object(m) => {
            let keys = text_map::in_order(m.dom());
            if keys.len() == 1 && m[keys[0]] is Null {
                Some(intent_named(keys[0]))
            } else {
                None
            }
        },
        _ => None,
    }
}

fn name_intent(s: &str) -> (r: Intent)
    ensures
        r == intent_named(s@),
{
    if text::same(s, "reply") {
        Intent::Reply
    } else if text::same(s, "post") {
        Intent::Post
    } else if text::same(s, "research") {
        Intent::Research
    } else if text::same(s, "delegate") {
        Intent::Delegate
    } else if text::same(s, "ignore") {
        Intent::Ignore
    } else if text::same(s, "noop") {
        Intent::Noop
    } else {
        Intent::Other
    }
}

fn read_intent(v: &Value) -> (r: Option<Intent>)
    ensures
        r == intent_of(json::tree(*v)),
{
    if let Some(s) = json::as_str(v) {
        return Some(name_intent(s));
    }
    if let Some(members) = json::as_object(v) {
        proof {
            json::lemma_fields_dom(members@);
            text_map::lemma_in_order(json::names(members@));
        }
        if members.len() == 1 {
            assert(json::names(members@)[0] == members@[0].0@);
            assert(members@.drop_last() == Seq::<(String, Value)>::empty());
            assert(json::fields(members@)[members@[0].0@] == json::tree(members@[0].1));
            if json::is_null(&members[0].1) {
                return Some(name_intent(&members[0].0));
            }
        }
    }
    None
}

/// A proposal needs an intent; its gist may be absent but must be a string.
pub open spec fn proposal_of(t: Tree) -> Option<ProposalView> {
    if !record(t, 3) {
        None
    } else {
        match (slot(t, "intent"@, 0), text_field(slot(t, "gist"@, 1))) {
            (Some(i), Some(gist)) => match intent_of(i) {
                Some(intent) => Some(
                    ProposalView {
                        intent,
                        gist,
                        refs: match slot(t, "refs"@, 2) {
                            Some(x) => refs_of(x),
                            None => Map::empty(),
                        },
                    },
                ),
                None => None,
            },
            _ => None,
        }
    }
}

/// Reads a proposal.
pub fn read_proposal(v: &Value) -> (r: Option<Proposal>)
    ensures
        (match r {
            Some(p) => proposal_of(json::tree(*v)) == Some(p@),
            None => proposal_of(json::tree(*v)) is None,
        }),
{
    if !is_record(v, 3) {
        return None;
    }
    let intent = match slot_of(v, "intent", 0) {
        Some(i) => match read_intent(i) {
            Some(x) => x,
            None => {
                return None;
            },
        },
        None => {
            return None;
        },
    };
    let gist = match read_text(slot_of(v, "gist", 1)) {
        Some(g) => g,
        None => {
            return None;
        },
    };
    let refs = match slot_of(v, "refs", 2) {
        Some(x) => read_refs(x),
        None => TextMap::new(),
    };
    let p = Proposal { intent, gist, refs };
    assert(slot(json::tree(*v), "refs"@, 2) is None ==> p@.refs == Map::<Seq<char>, Seq<char>>::empty());
    Some(p)
}

/// A spawn request needs its agent and its brief, both strings.
pub open spec fn spawn_of(t: Tree) -> Option<(Seq<char>, Seq<char>)> {
    if !record(t, 2) {
        None
    } else {
        match (slot(t, "agent"@, 0), slot(t, "brief"@, 1)) {
            (Some(Tree::Text(agent)), Some(Tree::Text(brief))) => Some((agent, brief)),
            _ => None,
        }
    }
}

/// Reads a spawn request.
pub fn read_spawn(v: &Value) -> (r: Option<SpawnRequest>)
    ensures
        (match r {
            Some(p) => spawn_of(json::tree(*v)) == Some(p@),
            None => spawn_of(json::tree(*v)) is None,
        }),
{
    if !is_record(v, 2) {
        return None;
    }
    match (slot_of(v, "agent", 0), slot_of(v, "brief", 1)) {
        (Some(a), Some(b)) => match (json::as_str(a), json::as_str(b)) {
            (Some(agent), Some(brief)) => Some(
                SpawnRequest { agent: agent.to_owned(), brief: brief.to_owned() },
            ),
            _ => None,
        },
        _ => None,
    }
}

/// The priority of a label, in any case; none for a label not known.
pub open spec fn priority_named(s: Seq<char>) -> Option<Priority> {
    let l = text::lowered(s);
    if l == "low"@ {
        Some(Priority::Low)
    } else if l == "normal"@ {
        Some(Priority::Normal)
    } else if l == "high"@ {
        Some(Priority::High)
    } else if l == "urgent"@ {
        Some(Priority::Urgent)
    } else {
        None
    }
}

/// A priority field: anything but a known label inherits.
pub open spec fn priority_of(f: Option<Tree>) -> Option<Priority> {
    match f {
        Some(Tree::Text(s)) => priority_named(s),
        _ => None,
    }
}

fn read_priority(f: Option<&Value>) -> (r: Option<Priority>)
    ensures
        r == priority_of(match f {
            Some(v) => Some(json::tree(*v)),
            None => None,
        }),
{
    match f {
        None => None,
        Some(v) => match json::as_str(v) {
            Some(s) => {
                let l = text::ascii_lower(s);
                if text::same(&l, "low") {
                    Some(Priority::Low)
                } else if text::same(&l, "normal") {
                    Some(Priority::Normal)
                } else if text::same(&l, "high") {
                    Some(Priority::High)
                } else if text::same(&l, "urgent") {
                    Some(Priority::Urgent)
                } else {
                    None
                }
            },
            None => None,
        },
    }
}

/// The strings and numbers of an array as text, without empty ones.
pub open spec fn scalars(a: Seq<Tree>) -> Seq<Seq<char>>
    decreases a.len(),
{
    if a.len() == 0 {
        Seq::empty()
    } else {
        match nonempty(json::scalar(a.last())) {
            Some(s) => scalars(a.drop_last()).push(s),
            None => scalars(a.drop_last()),
        }
    }
}

/// The tags that a value of any shape stands for.
pub open spec fn tags_of(t: Tree) -> Seq<Seq<char>> {
    match t {
        Tree::Text(s) => text::listed(s),
        Tree::Array(a) => scalars(a),
        _ => if json::numeric(t) {
            seq![json::rendered(t)]
        } else {
            Seq::empty()
        },
    }
}

fn read_tags(v: &Value) -> (r: Vec<String>)
    ensures
        text::views(r@) == tags_of(json::tree(*v)),
{
    if let Some(s) = json::as_str(v) {
        return text::comma_list(s);
    }
    let mut r: Vec<String> = Vec::new();
    assert(text::views(r@) == Seq::<Seq<char>>::empty());
    if let Some(items) = json::as_array(v) {
        let ghost all = json::trees(items@);
        let mut i: usize = 0;
        while i < items.len()
            invariant
                i <= items.len(),
                all == json::trees(items@),
                text::views(r@) == scalars(all.take(i as int)),
            decreases items.len() - i,
        {
            let s = unless_empty(json::value_as_string(&items[i]));
            assert(all.take(i + 1).drop_last() == all.take(i as int));
            assert(all.take(i + 1).last() == json::tree(items@[i as int]));
            let ghost before = r@;
            if let Some(t) = s {
                r.push(t);
                assert(text::views(r@) == text::views(before).push(t@));
            }
            i += 1;
        }
        assert(all.take(i as int) == all);
        return r;
    }
    if json::is_number(v) {
        let t = json::render(v);
        r.push(t);
        assert(text::views(r@) == seq![t@]);
    }
    r
}

/// A branch needs its destination; a field of an unusable shape drops the branch, a field of a
/// usable one is repaired.
pub open spec fn branch_of(t: Tree) -> Option<IntentView> {
    if !record(t, 6) {
        None
    } else {
        match (
            slot(t, "to_prompt"@, 0),
            text_field(slot(t, "gist"@, 1)),
            text_field(slot(t, "reason"@, 5)),
        ) {
            (Some(Tree::Text(to_prompt)), Some(gist), Some(reason)) => Some(
                IntentView {
                    to_prompt,
                    gist,
                    priority: priority_of(slot(t, "priority"@, 2)),
                    reply_to: match slot(t, "reply_to"@, 3) {
                        Some(x) => nonempty(json::scalar(x)),
                        None => None,
                    },
                    tags: match slot(t, "tags"@, 4) {
                        Some(x) => tags_of(x),
                        None => Seq::empty(),
                    },
                    reason,
                },
            ),
            _ => None,
        }
    }
}

/// Reads one branch.
pub fn read_branch(v: &Value) -> (r: Option<BatonIntent>)
    ensures
        (match r {
            Some(b) => branch_of(json::tree(*v)) == Some(b@),
            None => branch_of(json::tree(*v)) is None,
        }),
{
    if !is_record(v, 6) {
        return None;
    }
    let to_prompt = match slot_of(v, "to_prompt", 0) {
        Some(x) => match json::as_str(x) {
            Some(s) => s.to_owned(),
            None => {
                return None;
            },
        },
        None => {
            return None;
        },
    };
    let gist = match read_text(slot_of(v, "gist", 1)) {
        Some(g) => g,
        None => {
            return None;
        },
    };
    let priority = read_priority(slot_of(v, "priority", 2));
    let reply_to = match slot_of(v, "reply_to", 3) {
        Some(x) => unless_empty(json::value_as_string(x)),
        None => None,
    };
    let tags = match slot_of(v, "tags", 4) {
        Some(x) => read_tags(x),
        None => Vec::new(),
    };
    let reason = match read_text(slot_of(v, "reason", 5)) {
        Some(g) => g,
        None => {
            return None;
        },
    };
    let b = BatonIntent { to_prompt, gist, priority, reply_to, tags, reason };
    assert(slot(json::tree(*v), "tags"@, 4) is None ==> b@.tags == Seq::<Seq<char>>::empty());
    Some(b)
}

/// The usable branches of a list.
pub open spec fn usable_branches(a: Seq<Tree>) -> Seq<IntentView>
    decreases a.len(),
{
    if a.len() == 0 {
        Seq::empty()
    } else {
        match branch_of(a.last()) {
            Some(b) => usable_branches(a.drop_last()).push(b),
            None => usable_branches(a.drop_last()),
        }
    }
}

/// The items of a list; an object stands for itself, anything else for no item.
pub open spec fn items_of(t: Tree) -> Seq<Tree> {
    match t {
        Tree::Array(a) => a,
        Tree::Object(_) => seq![t],
        _ => Seq::empty(),
    }
}

fn read_items(v: &Value) -> (r: Vec<Value>)
    ensures
        json::trees(r@) == items_of(json::tree(*v)),
{
    let mut r: Vec<Value> = Vec::new();
    assert(json::trees(r@) == Seq::<Tree>::empty());
    if let Some(a) = json::as_array(v) {
        let ghost all = json::trees(a@);
        let mut i: usize = 0;
        while i < a.len()
            invariant
                i <= a.len(),
                all == json::trees(a@),
                json::trees(r@) == all.take(i as int),
            decreases a.len() - i,
        {
            let x = a[i].clone();
            let ghost before = r@;
            r.push(x);
            i += 1;
            assert(json::trees(r@) == json::trees(before).push(json::tree(x)));
            assert(json::trees(r@) == all.take(i as int));
        }
        assert(all.take(i as int) == all);
    } else if json::as_object(v).is_some() {
        let x = v.clone();
        r.push(x);
        assert(json::trees(r@) == seq![json::tree(x)]);
    }
    r
}

fn read_branches(v: &Value) -> (r: Vec<BatonIntent>)
    ensures
        intent_views(r@) == usable_branches(items_of(json::tree(*v))),
{
    let items = read_items(v);
    let ghost all = json::trees(items@);
    let mut r: Vec<BatonIntent> = Vec::new();
    assert(intent_views(r@) == Seq::<IntentView>::empty());
    let mut i: usize = 0;
    while i < items.len()
        invariant
            i <= items.len(),
            all == json::trees(items@),
            intent_views(r@) == usable_branches(all.take(i as int)),
        decreases items.len() - i,
    {
        assert(all.take(i + 1).drop_last() == all.take(i as int));
        assert(all.take(i + 1).last() == json::tree(items@[i as int]));
        let ghost before = r@;
        if let Some(b) = read_branch(&items[i]) {
            r.push(b);
            assert(intent_views(r@) == intent_views(before).push(b@));
        }
        i += 1;
    }
    assert(all.take(i as int) == all);
    r
}

/// A note needs a tag and a text, each a non-empty string or number.
pub open spec fn note_of(t: Tree) -> Option<(Seq<char>, Seq<char>)> {
    match (json::member(t, "tag"@), json::member(t, "note"@)) {
        (Some(tag), Some(note)) => match (nonempty(json::scalar(tag)), nonempty(json::scalar(note))) {
            (Some(a), Some(b)) => Some((a, b)),
            _ => None,
        },
        _ => None,
    }
}

fn read_note(v: &Value) -> (r: Option<TagNote>)
    ensures
        (match r {
            Some(n) => note_of(json::tree(*v)) == Some(n@),
            None => note_of(json::tree(*v)) is None,
        }),
{
    match (json::get(v, "tag"), json::get(v, "note")) {
        (Some(a), Some(b)) => match (
            unless_empty(json::value_as_string(a)),
            unless_empty(json::value_as_string(b)),
        ) {
            (Some(tag), Some(note)) => Some(TagNote { tag, note }),
            _ => None,
        },
        _ => None,
    }
}

/// The usable notes of a list.
pub open spec fn usable_notes(a: Seq<Tree>) -> Seq<(Seq<char>, Seq<char>)>
    decreases a.len(),
{
    if a.len() == 0 {
        Seq::empty()
    } else {
        match note_of(a.last()) {
            Some(n) => usable_notes(a.drop_last()).push(n),
            None => usable_notes(a.drop_last()),
        }
    }
}

fn read_notes(v: &Value) -> (r: Option<Vec<TagNote>>)
    ensures
        (match r {
            Some(n) => note_views(n@) == usable_notes(items_of(json::tree(*v))) && n@.len() > 0,
            None => usable_notes(items_of(json::tree(*v))).len() == 0,
        }),
{
    let items = read_items(v);
    let ghost all = json::trees(items@);
    let mut r: Vec<TagNote> = Vec::new();
    assert(note_views(r@) == Seq::<(Seq<char>, Seq<char>)>::empty());
    let mut i: usize = 0;
    while i < items.len()
        invariant
            i <= items.len(),
            all == json::trees(items@),
            note_views(r@) == usable_notes(all.take(i as int)),
        decreases items.len() - i,
    {
        assert(all.take(i + 1).drop_last() == all.take(i as int));
        assert(all.take(i + 1).last() == json::tree(items@[i as int]));
        let ghost before = r@;
        if let Some(n) = read_note(&items[i]) {
            r.push(n);
            assert(note_views(r@) == note_views(before).push(n@));
        }
        i += 1;
    }
    assert(all.take(i as int) == all);
    assert(note_views(r@).len() == r@.len());
    if r.len() == 0 {
        None
    } else {
        Some(r)
    }
}

/// The transition that a value of any shape stands for; an unusable one stops.
pub open spec fn transition_of(t: Tree) -> (Option<Seq<char>>, Seq<char>) {
    match t {
        Tree::Text(s) => (nonempty(Some(s)), Seq::empty()),
        Tree::Object(_) => {
            let to = match json::member(t, "to_prompt"@) {
                None => Some(None),
                Some(Tree::Null) => Some(None),
                Some(x) => match json::chars(x) {
                    Some(s) => Some(Some(s)),
                    None => None,
                },
            };
            match (to, text_field(json::member(t, "reason"@))) {
                (Some(id), Some(reason)) => (id, reason),
                _ => (None, Seq::empty()),
            }
        },
        _ => (None, Seq::empty()),
    }
}

fn read_transition(v: &Value) -> (r: Transition)
    ensures
        r@ == transition_of(json::tree(*v)),
{
    if let Some(s) = json::as_str(v) {
        let to_prompt = unless_empty(Some(s.to_owned()));
        return Transition { to_prompt, reason: String::new() };
    }
    if json::as_object(v).is_some() {
        let reason = read_text(json::get(v, "reason"));
        let to = match json::get(v, "to_prompt") {
            None => Some(None),
            Some(x) => if json::is_null(x) {
                Some(None)
            } else {
                match json::as_str(x) {
                    Some(s) => Some(Some(s.to_owned())),
                    None => None,
                }
            },
        };
        if let (Some(to_prompt), Some(reason)) = (to, reason) {
            return Transition { to_prompt, reason };
        }
    }
    Transition { to_prompt: None, reason: String::new() }
}

/// The output that a value stands for. Every object stands for one: a field that is absent or of
/// an unusable shape is empty.
pub open spec fn output_of(t: Tree) -> OutputView {
    OutputView {
        thought: match json::member(t, "thought"@) {
            Some(x) => match json::scalar(x) {
                Some(s) => s,
                None => Seq::empty(),
            },
            None => Seq::empty(),
        },
        tag_notes: match json::member(t, "tag_notes"@) {
            Some(x) => if usable_notes(items_of(x)).len() > 0 {
                Some(usable_notes(items_of(x)))
            } else {
                None
            },
            None => None,
        },
        proposal: match json::member(t, "proposal"@) {
            Some(x) => proposal_of(x),
            None => None,
        },
        spawn: match json::member(t, "spawn"@) {
            Some(x) => spawn_of(x),
            None => None,
        },
        transition: match json::member(t, "transition"@) {
            Some(x) => transition_of(x),
            None => (None, Seq::empty()),
        },
        batons: match json::member(t, "batons"@) {
            Some(x) => usable_branches(items_of(x)),
            None => Seq::empty(),
        },
    }
}

impl AgentOutput {
    /// Reads the agent's output. Only a value that is no object is refused.
    pub fn from_value(v: &Value) -> (r: Result<AgentOutput>)
        ensures
            (match r {
                Ok(out) => json::tree(*v) is Object && out@ == output_of(json::tree(*v)),
                Err(e) => !(json::tree(*v) is Object) && e is Json,
            }),
    {
        if json::as_object(v).is_none() {
            return Err(DackError::Json("the agent's output is not an object".to_owned()));
        }
        let thought = match json::get(v, "thought") {
            Some(x) => match json::value_as_string(x) {
                Some(s) => s,
                None => String::new(),
            },
            None => String::new(),
        };
        let tag_notes = match json::get(v, "tag_notes") {
            Some(x) => read_notes(x),
            None => None,
        };
        let proposal = match json::get(v, "proposal") {
            Some(x) => read_proposal(x),
            None => None,
        };
        let spawn = match json::get(v, "spawn") {
            Some(x) => read_spawn(x),
            None => None,
        };
        let transition = match json::get(v, "transition") {
            Some(x) => read_transition(x),
            None => Transition { to_prompt: None, reason: String::new() },
        };
        let batons = match json::get(v, "batons") {
            Some(x) => read_branches(x),
            None => Vec::new(),
        };
        let out = AgentOutput { thought, tag_notes, proposal, spawn, transition, batons };
        assert(json::member(json::tree(*v), "batons"@) is None ==> out@.batons == Seq::<IntentView>::empty());
        assert(out@ == output_of(json::tree(*v)));
        Ok(out)
    }
}

/// A spawn request reads as it stands: its agent from the member `agent` and its brief from the member
/// `brief`, or in that order from an array of the two. It is none where one of them is absent or no
/// text.
pub proof fn a_spawn_request_reads_as_it_stands(t: Tree, s: Tree, a: Seq<char>, b: Seq<char>)
    requires
        json::member(t, "spawn"@) == Some(s),
    ensures
        json::member(s, "agent"@) == Some(Tree::Text(a)) && json::member(s, "brief"@) == Some(Tree::Text(b))
            ==> output_of(t).spawn == Some((a, b)),
        s == Tree::Array(seq![Tree::Text(a), Tree::Text(b)]) ==> output_of(t).spawn == Some((a, b)),
        s is Object && (json::text_member(s, "agent"@) is None || json::text_member(s, "brief"@) is None)
            ==> output_of(t).spawn is None,
        !(s is Object) && !(s is Array) ==> output_of(t).spawn is None,
        s matches Tree::Array(x) ==> (x.len() != 2 ==> output_of(t).spawn is None),
{
}

/// A proposal reads as it stands: its intent by its label, its gist, empty where it is absent, and its
/// refs. It is none without an intent or with a gist that is no text.
pub proof fn a_proposal_reads_as_it_stands(t: Tree, p: Tree, label: Seq<char>, gist: Seq<char>, refs: Tree)
    requires
        json::member(t, "proposal"@) == Some(p),
        p is Object,
    ensures
        json::member(p, "intent"@) == Some(Tree::Text(label)) && json::member(p, "gist"@) == Some(Tree::Text(gist))
            && json::member(p, "refs"@) == Some(refs) ==> (output_of(t).proposal matches Some(v) && v.intent
            == intent_named(label) && v.gist == gist && v.refs == refs_of(refs)),
        json::member(p, "intent"@) == Some(Tree::Text(label)) && json::member(p, "gist"@) is None && json::member(
            p,
            "refs"@,
        ) is None ==> (output_of(t).proposal matches Some(v) && v.intent == intent_named(label) && v.gist.len() == 0
            && v.refs == Map::<Seq<char>, Seq<char>>::empty()),
        json::member(p, "intent"@) is None ==> output_of(t).proposal is None,
        json::member(p, "gist"@) is Some && json::text_member(p, "gist"@) is None ==> output_of(t).proposal is None,
{
}

/// Each intent has its label and its name; a label that is none of them stands for another intent.
pub proof fn every_intent_has_its_label(s: Seq<char>)
    ensures
        intent_named("reply"@) == Intent::Reply,
        intent_named("post"@) == Intent::Post,
        intent_named("research"@) == Intent::Research,
        intent_named("delegate"@) == Intent::Delegate,
        intent_named("ignore"@) == Intent::Ignore,
        intent_named("noop"@) == Intent::Noop,
        s != "reply"@ && s != "post"@ && s != "research"@ && s != "delegate"@ && s != "ignore"@ && s != "noop"@
            ==> intent_named(s) == Intent::Other,
        intent_name(Intent::Reply) == "Reply"@,
        intent_name(Intent::Post) == "Post"@,
        intent_name(Intent::Research) == "Research"@,
        intent_name(Intent::Delegate) == "Delegate"@,
        intent_name(Intent::Ignore) == "Ignore"@,
        intent_name(Intent::Noop) == "Noop"@,
        intent_name(Intent::Other) == "Other"@,
{
    lemma_labels_differ();
}

proof fn lemma_labels_differ()
    ensures
        "reply"@ != "post"@,
        "reply"@ != "research"@,
        "reply"@ != "delegate"@,
        "reply"@ != "ignore"@,
        "reply"@ != "noop"@,
        "post"@ != "research"@,
        "post"@ != "delegate"@,
        "post"@ != "ignore"@,
        "post"@ != "noop"@,
        "research"@ != "delegate"@,
        "research"@ != "ignore"@,
        "research"@ != "noop"@,
        "delegate"@ != "ignore"@,
        "delegate"@ != "noop"@,
        "ignore"@ != "noop"@,
        "other"@ != "reply"@,
        "other"@ != "post"@,
        "other"@ != "research"@,
        "other"@ != "delegate"@,
        "other"@ != "ignore"@,
        "other"@ != "noop"@,
        "low"@ != "normal"@,
        "low"@ != "high"@,
        "low"@ != "urgent"@,
        "normal"@ != "high"@,
        "normal"@ != "urgent"@,
        "high"@ != "urgent"@,
{
    reveal_strlit("reply");
    reveal_strlit("post");
    reveal_strlit("research");
    reveal_strlit("delegate");
    reveal_strlit("ignore");
    reveal_strlit("noop");
    reveal_strlit("other");
    reveal_strlit("low");
    reveal_strlit("normal");
    reveal_strlit("high");
    reveal_strlit("urgent");
    assert("reply"@[1] == 'e' && "post"@[0] == 'p' && "research"@[2] == 's' && "delegate"@[0] == 'd');
    assert("reply"@[0] == 'r' && "research"@[0] == 'r' && "ignore"@[0] == 'i' && "noop"@[0] == 'n');
    assert("other"@[0] == 'o' && "low"@[0] == 'l' && "normal"@[0] == 'n' && "high"@[0] == 'h');
    assert("urgent"@[0] == 'u');
    assert("reply"@.len() == 5 && "research"@.len() == 8);
}

/// The refs of an object are its members as plain text, those of a list its elements under their
/// places, a bare value stands under the first place, and a null for none.
pub proof fn refs_of_any_shape(m: Map<Seq<char>, Tree>, k: Seq<char>, a: Seq<Tree>, x: Tree, t: Tree)
    ensures
        refs_of(Tree::Object(m)).dom() == m.dom(),
        m.contains_key(k) ==> refs_of(Tree::Object(m))[k] == json::plain(m[k]),
        refs_of(Tree::Array(Seq::empty())) == Map::<Seq<char>, Seq<char>>::empty(),
        refs_of(Tree::Array(a.push(x))) == refs_of(Tree::Array(a)).insert(
            text::decimal(a.len() as int),
            json::plain(x),
        ),
        refs_of(Tree::Null) == Map::<Seq<char>, Seq<char>>::empty(),
        !(t is Object) && !(t is Array) && !(t is Null) ==> refs_of(t) == map!["0"@ => json::plain(t)],
{
    assert(a.push(x).drop_last() == a);
}

/// A branch reads as it stands: each field from the member of its name. Its priority goes by the label
/// in any case, a number names the message it answers as well as a text does, and its tags are a list
/// or one text with commas. Without a destination, or with a gist or a reason that is no text, it is
/// none.
pub proof fn a_branch_reads_as_it_stands(t: Tree)
    requires
        t is Object,
    ensures
        json::text_member(t, "to_prompt"@) is None ==> branch_of(t) is None,
        json::member(t, "gist"@) is Some && json::text_member(t, "gist"@) is None ==> branch_of(t) is None,
        json::member(t, "reason"@) is Some && json::text_member(t, "reason"@) is None ==> branch_of(t) is None,
        branch_of(t) is None ==> json::text_member(t, "to_prompt"@) is None || (json::member(t, "gist"@) is Some
            && json::text_member(t, "gist"@) is None) || (json::member(t, "reason"@) is Some && json::text_member(
            t,
            "reason"@,
        ) is None),
        branch_of(t) matches Some(b) ==> {
            &&& json::member(t, "to_prompt"@) == Some(Tree::Text(b.to_prompt))
            &&& json::member(t, "gist"@) is Some ==> json::member(t, "gist"@) == Some(Tree::Text(b.gist))
            &&& json::member(t, "gist"@) is None ==> b.gist.len() == 0
            &&& json::member(t, "reason"@) is Some ==> json::member(t, "reason"@) == Some(Tree::Text(b.reason))
            &&& json::member(t, "reason"@) is None ==> b.reason.len() == 0
            &&& json::member(t, "priority"@) matches Some(Tree::Text(l)) ==> {
                &&& text::lowered(l) == "low"@ ==> b.priority == Some(Priority::Low)
                &&& text::lowered(l) == "normal"@ ==> b.priority == Some(Priority::Normal)
                &&& text::lowered(l) == "high"@ ==> b.priority == Some(Priority::High)
                &&& text::lowered(l) == "urgent"@ ==> b.priority == Some(Priority::Urgent)
                &&& text::lowered(l) != "low"@ && text::lowered(l) != "normal"@ && text::lowered(l) != "high"@
                    && text::lowered(l) != "urgent"@ ==> b.priority is None
            }
            &&& json::text_member(t, "priority"@) is None ==> b.priority is None
            &&& json::member(t, "reply_to"@) matches Some(Tree::Text(id)) ==> b.reply_to == (if id.len() > 0 {
                Some(id)
            } else {
                None
            })
            &&& json::member(t, "reply_to"@) matches Some(Tree::Int(n)) ==> (json::rendered(Tree::Int(n)).len() > 0
                ==> b.reply_to == Some(json::rendered(Tree::Int(n))))
            &&& json::member(t, "reply_to"@) is None ==> b.reply_to is None
            &&& json::member(t, "tags"@) is None ==> b.tags.len() == 0
            &&& json::member(t, "tags"@) matches Some(Tree::Text(l)) ==> b.tags == text::listed(l)
            &&& json::member(t, "tags"@) matches Some(Tree::Array(a)) ==> b.tags == scalars(a)
        },
{
    lemma_labels_differ();
}

/// A branch written as a list has its fields in their order: the destination, the gist, the priority,
/// the message it answers, the tags and the reason.
pub proof fn a_branch_reads_by_place(
    to: Seq<char>,
    gist: Seq<char>,
    priority: Tree,
    reply_to: Tree,
    tags: Tree,
    reason: Seq<char>,
)
    ensures
        branch_of(
            Tree::Array(seq![Tree::Text(to), Tree::Text(gist), priority, reply_to, tags, Tree::Text(reason)]),
        ) == branch_of(
            Tree::Object(
                map![
                    "to_prompt"@ => Tree::Text(to),
                    "gist"@ => Tree::Text(gist),
                    "priority"@ => priority,
                    "reply_to"@ => reply_to,
                    "tags"@ => tags,
                    "reason"@ => Tree::Text(reason),
                ],
            ),
        ),
{
    lemma_members_differ();
}

/// The tags of a list are its texts and numbers, each in its place and none of them empty; what else
/// stands in the list is dropped alone.
pub proof fn a_list_of_tags_keeps_its_order(a: Seq<Tree>, x: Tree, s: Seq<char>)
    ensures
        scalars(Seq::empty()) == Seq::<Seq<char>>::empty(),
        s.len() > 0 ==> scalars(a.push(Tree::Text(s))) == scalars(a).push(s),
        s.len() == 0 ==> scalars(a.push(Tree::Text(s))) == scalars(a),
        !(x is Text) && !json::numeric(x) ==> scalars(a.push(x)) == scalars(a),
        json::numeric(x) && json::rendered(x).len() > 0 ==> scalars(a.push(x)) == scalars(a).push(json::rendered(x)),
{
    assert(a.push(x).drop_last() == a);
    assert(a.push(Tree::Text(s)).drop_last() == a);
}

/// What is unusable is dropped alone: of a list of branches and of a list of notes, one more item adds
/// what it reads as behind the others, or nothing. A lone object stands for a list of one.
pub proof fn the_unusable_is_dropped_alone(t: Tree, a: Seq<Tree>, x: Tree)
    ensures
        json::member(t, "batons"@) == Some(Tree::Array(a.push(x))) ==> output_of(t).batons == usable_branches(a) + (
        match branch_of(x) {
            Some(b) => seq![b],
            None => Seq::empty(),
        }),
        json::member(t, "batons"@) == Some(Tree::Array(Seq::empty())) ==> output_of(t).batons.len() == 0,
        json::member(t, "batons"@) == Some(x) && x is Object ==> output_of(t).batons == (match branch_of(x) {
            Some(b) => seq![b],
            None => Seq::empty(),
        }),
        json::member(t, "tag_notes"@) == Some(x) && x is Object ==> output_of(t).tag_notes == (match note_of(x) {
            Some(n) => Some(seq![n]),
            None => None,
        }),
        usable_notes(a.push(x)) == usable_notes(a) + (match note_of(x) {
            Some(n) => seq![n],
            None => Seq::empty(),
        }),
        json::member(t, "tag_notes"@) == Some(Tree::Array(a)) ==> output_of(t).tag_notes == (if usable_notes(a).len()
            > 0 {
            Some(usable_notes(a))
        } else {
            None
        }),
{
    assert(a.push(x).drop_last() == a);
    assert(seq![x].drop_last() == Seq::<Tree>::empty());
    reveal_with_fuel(usable_branches, 3);
    reveal_with_fuel(usable_notes, 3);
    assert(usable_branches(a.push(x)) == usable_branches(a) + (match branch_of(x) {
        Some(b) => seq![b],
        None => Seq::empty(),
    }));
    if json::member(t, "batons"@) == Some(x) && x is Object {
        assert(items_of(x) == seq![x]);
        assert(usable_branches(seq![x]) == (match branch_of(x) {
            Some(b) => seq![b],
            None => Seq::empty(),
        }));
    }
    if json::member(t, "tag_notes"@) == Some(x) && x is Object {
        assert(items_of(x) == seq![x]);
        assert(usable_notes(seq![x]) == (match note_of(x) {
            Some(b) => seq![b],
            None => Seq::empty(),
        }));
    }
}

/// A note reads as it stands: its tag from the member `tag`, its text from the member `note`, each a
/// text that is not empty; where one is absent or empty there is no note.
pub proof fn a_note_reads_as_it_stands(t: Tree, tag: Seq<char>, note: Seq<char>)
    ensures
        json::member(t, "tag"@) == Some(Tree::Text(tag)) && json::member(t, "note"@) == Some(Tree::Text(note))
            && tag.len() > 0 && note.len() > 0 ==> note_of(t) == Some((tag, note)),
        json::member(t, "tag"@) is None || json::member(t, "note"@) is None ==> note_of(t) is None,
        json::member(t, "tag"@) == Some(Tree::Text(Seq::empty())) ==> note_of(t) is None,
        json::member(t, "note"@) == Some(Tree::Text(Seq::empty())) ==> note_of(t) is None,
{
}

/// A transition is an object with a target and a reason, or a bare target; an empty bare target, a null
/// and what is neither text nor object stop.
pub proof fn a_transition_reads_as_it_stands(t: Tree, x: Tree, to: Seq<char>, reason: Seq<char>)
    requires
        json::member(t, "transition"@) == Some(x),
    ensures
        json::member(x, "to_prompt"@) == Some(Tree::Text(to)) && json::member(x, "reason"@) == Some(
            Tree::Text(reason),
        ) ==> output_of(t).transition == (Some(to), reason),
        json::member(x, "to_prompt"@) == Some(Tree::Text(to)) && json::member(x, "reason"@) is None ==> output_of(
            t,
        ).transition == (Some(to), Seq::<char>::empty()),
        json::member(x, "to_prompt"@) == Some(Tree::Null) && json::member(x, "reason"@) == Some(Tree::Text(reason))
            ==> output_of(t).transition == (None::<Seq<char>>, reason),
        x is Object && json::member(x, "to_prompt"@) is None && json::member(x, "reason"@) == Some(
            Tree::Text(reason),
        ) ==> output_of(t).transition == (None::<Seq<char>>, reason),
        x == Tree::Text(to) && to.len() > 0 ==> output_of(t).transition == (Some(to), Seq::<char>::empty()),
        x == Tree::Text(Seq::empty()) ==> output_of(t).transition.0 is None,
        !(x is Text) && !(x is Object) ==> output_of(t).transition == (None::<Seq<char>>, Seq::<char>::empty()),
{
}

/// What is absent is empty: an object without members says nothing. A thought is a text as it stands,
/// or a number as it prints.
pub proof fn the_absent_is_empty(t: Tree, s: Seq<char>, n: int)
    ensures
        json::member(t, "thought"@) is None ==> output_of(t).thought.len() == 0,
        json::member(t, "thought"@) == Some(Tree::Text(s)) ==> output_of(t).thought == s,
        json::member(t, "thought"@) == Some(Tree::Int(n)) ==> output_of(t).thought == json::rendered(Tree::Int(n)),
        json::member(t, "tag_notes"@) is None ==> output_of(t).tag_notes is None,
        json::member(t, "proposal"@) is None ==> output_of(t).proposal is None,
        json::member(t, "spawn"@) is None ==> output_of(t).spawn is None,
        json::member(t, "transition"@) is None ==> output_of(t).transition == (
            None::<Seq<char>>,
            Seq::<char>::empty(),
        ),
        json::member(t, "batons"@) is None ==> output_of(t).batons.len() == 0,
{
}

/// A step goes on with its batons, all of them and in their order; where it has none, with the one
/// branch that its transition names, which has the transition's reason and nothing else of its own;
/// and where that names none, not at all.
pub proof fn a_step_goes_on_with_its_batons(out: OutputView, id: Seq<char>)
    ensures
        out.batons.len() > 0 ==> branches(out) == out.batons,
        out.batons.len() == 0 && out.transition.0 is None ==> branches(out).len() == 0,
        out.batons.len() == 0 && out.transition.0 == Some(id) ==> {
            &&& branches(out).len() == 1
            &&& branches(out)[0].to_prompt == id
            &&& branches(out)[0].reason == out.transition.1
            &&& branches(out)[0].gist.len() == 0
            &&& branches(out)[0].tags.len() == 0
            &&& branches(out)[0].priority is None
            &&& branches(out)[0].reply_to is None
        },
{
}

/// The label of a priority.
pub open spec fn priority_label(p: Priority) -> Seq<char> {
    match p {
        Priority::Low => "low"@,
        Priority::Normal => "normal"@,
        Priority::High => "high"@,
        Priority::Urgent => "urgent"@,
    }
}

/// The label of an intent.
pub open spec fn intent_label(i: Intent) -> Seq<char> {
    match i {
        Intent::Reply => "reply"@,
        Intent::Post => "post"@,
        Intent::Research => "research"@,
        Intent::Delegate => "delegate"@,
        Intent::Ignore => "ignore"@,
        Intent::Noop => "noop"@,
        Intent::Other => "other"@,
    }
}

/// A branch as an object that names each of its fields once.
pub open spec fn branch_written(b: IntentView) -> Tree {
    Tree::Object(
        map![
            "to_prompt"@ => Tree::Text(b.to_prompt),
            "gist"@ => Tree::Text(b.gist),
            "priority"@ => match b.priority {
                Some(p) => Tree::Text(priority_label(p)),
                None => Tree::Null,
            },
            "reply_to"@ => match b.reply_to {
                Some(r) => Tree::Text(r),
                None => Tree::Null,
            },
            "tags"@ => Tree::Array(b.tags.map_values(|s: Seq<char>| Tree::Text(s))),
            "reason"@ => Tree::Text(b.reason),
        ],
    )
}

/// A note as an object that names its tag and its text.
pub open spec fn note_written(n: (Seq<char>, Seq<char>)) -> Tree {
    Tree::Object(map!["tag"@ => Tree::Text(n.0), "note"@ => Tree::Text(n.1)])
}

/// An output as an object that names each of its fields once; what it does not have is null.
pub open spec fn output_written(o: OutputView) -> Tree {
    Tree::Object(
        map![
            "thought"@ => Tree::Text(o.thought),
            "tag_notes"@ => match o.tag_notes {
                Some(n) => Tree::Array(n.map_values(|x: (Seq<char>, Seq<char>)| note_written(x))),
                None => Tree::Null,
            },
            "proposal"@ => match o.proposal {
                Some(p) => Tree::Object(
                    map![
                        "intent"@ => Tree::Text(intent_label(p.intent)),
                        "gist"@ => Tree::Text(p.gist),
                        "refs"@ => Tree::Object(p.refs.map_values(|s: Seq<char>| Tree::Text(s))),
                    ],
                ),
                None => Tree::Null,
            },
            "spawn"@ => match o.spawn {
                Some(s) => Tree::Object(map!["agent"@ => Tree::Text(s.0), "brief"@ => Tree::Text(s.1)]),
                None => Tree::Null,
            },
            "transition"@ => Tree::Object(
                map![
                    "to_prompt"@ => match o.transition.0 {
                        Some(id) => Tree::Text(id),
                        None => Tree::Null,
                    },
                    "reason"@ => Tree::Text(o.transition.1),
                ],
            ),
            "batons"@ => Tree::Array(o.batons.map_values(|b: IntentView| branch_written(b))),
        ],
    )
}

/// A branch whose tags and whose reply, where it has one, are not empty.
pub open spec fn branch_is_whole(b: IntentView) -> bool {
    &&& b.reply_to matches Some(r) ==> r.len() > 0
    &&& forall|i: int| 0 <= i < b.tags.len() ==> (#[trigger] b.tags[i]).len() > 0
}

/// An output whose notes, where it has any, are not empty, nor what its branches name.
pub open spec fn output_is_whole(o: OutputView) -> bool {
    &&& o.tag_notes matches Some(n) ==> n.len() > 0 && forall|i: int|
        0 <= i < n.len() ==> (#[trigger] n[i]).0.len() > 0 && n[i].1.len() > 0
    &&& forall|i: int| 0 <= i < o.batons.len() ==> branch_is_whole(#[trigger] o.batons[i])
}

proof fn lemma_members_differ()
    ensures
        "to_prompt"@ != "gist"@,
        "to_prompt"@ != "priority"@,
        "to_prompt"@ != "reply_to"@,
        "to_prompt"@ != "tags"@,
        "to_prompt"@ != "reason"@,
        "gist"@ != "priority"@,
        "gist"@ != "reply_to"@,
        "gist"@ != "tags"@,
        "gist"@ != "reason"@,
        "priority"@ != "reply_to"@,
        "priority"@ != "tags"@,
        "priority"@ != "reason"@,
        "reply_to"@ != "tags"@,
        "reply_to"@ != "reason"@,
        "tags"@ != "reason"@,
        "tag"@ != "note"@,
        "agent"@ != "brief"@,
        "intent"@ != "gist"@,
        "intent"@ != "refs"@,
        "gist"@ != "refs"@,
        "thought"@ != "tag_notes"@,
        "thought"@ != "proposal"@,
        "thought"@ != "spawn"@,
        "thought"@ != "transition"@,
        "thought"@ != "batons"@,
        "tag_notes"@ != "proposal"@,
        "tag_notes"@ != "spawn"@,
        "tag_notes"@ != "transition"@,
        "tag_notes"@ != "batons"@,
        "proposal"@ != "spawn"@,
        "proposal"@ != "transition"@,
        "proposal"@ != "batons"@,
        "spawn"@ != "transition"@,
        "spawn"@ != "batons"@,
        "transition"@ != "batons"@,
{
    reveal_strlit("to_prompt");
    reveal_strlit("gist");
    reveal_strlit("priority");
    reveal_strlit("reply_to");
    reveal_strlit("tags");
    reveal_strlit("reason");
    reveal_strlit("tag");
    reveal_strlit("note");
    reveal_strlit("agent");
    reveal_strlit("brief");
    reveal_strlit("intent");
    reveal_strlit("refs");
    reveal_strlit("thought");
    reveal_strlit("tag_notes");
    reveal_strlit("proposal");
    reveal_strlit("spawn");
    reveal_strlit("transition");
    reveal_strlit("batons");
    assert("to_prompt"@.len() == 9 && "gist"@.len() == 4 && "priority"@.len() == 8 && "reply_to"@.len() == 8);
    assert("tags"@.len() == 4 && "reason"@.len() == 6 && "tag"@.len() == 3 && "note"@.len() == 4);
    assert("intent"@.len() == 6 && "refs"@.len() == 4 && "thought"@.len() == 7 && "tag_notes"@.len() == 9);
    assert("proposal"@.len() == 8 && "spawn"@.len() == 5 && "transition"@.len() == 10 && "batons"@.len() == 6);
    assert("priority"@[0] == 'p' && "reply_to"@[0] == 'r');
    assert("gist"@[0] == 'g' && "tags"@[0] == 't' && "refs"@[0] == 'r');
    assert("agent"@[0] == 'a' && "brief"@[0] == 'b');
}

proof fn lemma_tags_read_back(tags: Seq<Seq<char>>)
    requires
        forall|i: int| 0 <= i < tags.len() ==> (#[trigger] tags[i]).len() > 0,
    ensures
        scalars(tags.map_values(|s: Seq<char>| Tree::Text(s))) == tags,
    decreases tags.len(),
{
    let w = tags.map_values(|s: Seq<char>| Tree::Text(s));
    if tags.len() > 0 {
        let d = tags.drop_last();
        assert forall|i: int| 0 <= i < d.len() implies (#[trigger] d[i]).len() > 0 by {
            assert(d[i] == tags[i]);
        }
        lemma_tags_read_back(d);
        assert(w.drop_last() == d.map_values(|s: Seq<char>| Tree::Text(s)));
        assert(tags[tags.len() - 1].len() > 0);
        assert(w.last() == Tree::Text(tags.last()));
        assert(tags == d.push(tags.last()));
    } else {
        assert(w.len() == 0);
    }
}

proof fn lemma_branch_reads_back(b: IntentView)
    requires
        branch_is_whole(b),
    ensures
        branch_of(branch_written(b)) == Some(b),
{
    lemma_members_differ();
    lemma_labels_differ();
    lemma_tags_read_back(b.tags);
    let t = branch_written(b);
    assert(json::member(t, "to_prompt"@) == Some(Tree::Text(b.to_prompt)));
    assert(json::member(t, "gist"@) == Some(Tree::Text(b.gist)));
    assert(json::member(t, "reason"@) == Some(Tree::Text(b.reason)));
    if let Some(p) = b.priority {
        assert(json::member(t, "priority"@) == Some(Tree::Text(priority_label(p))));
        lemma_label_is_lower(p);
    } else {
        assert(json::member(t, "priority"@) == Some(Tree::Null));
    }
    if let Some(r) = b.reply_to {
        assert(json::member(t, "reply_to"@) == Some(Tree::Text(r)));
    } else {
        assert(json::member(t, "reply_to"@) == Some(Tree::Null));
    }
    assert(json::member(t, "tags"@) == Some(Tree::Array(b.tags.map_values(|s: Seq<char>| Tree::Text(s)))));
}

proof fn lemma_label_is_lower(p: Priority)
    ensures
        text::lowered(priority_label(p)) == priority_label(p),
{
    reveal_strlit("low");
    reveal_strlit("normal");
    reveal_strlit("high");
    reveal_strlit("urgent");
    assert(text::lowered(priority_label(p)) =~= priority_label(p));
}

proof fn lemma_branches_read_back(s: Seq<IntentView>)
    requires
        forall|i: int| 0 <= i < s.len() ==> branch_is_whole(#[trigger] s[i]),
    ensures
        usable_branches(s.map_values(|b: IntentView| branch_written(b))) == s,
    decreases s.len(),
{
    let w = s.map_values(|b: IntentView| branch_written(b));
    if s.len() > 0 {
        let d = s.drop_last();
        assert forall|i: int| 0 <= i < d.len() implies branch_is_whole(#[trigger] d[i]) by {
            assert(d[i] == s[i]);
        }
        lemma_branches_read_back(d);
        assert(w.drop_last() == d.map_values(|b: IntentView| branch_written(b)));
        assert(branch_is_whole(s[s.len() - 1]));
        lemma_branch_reads_back(s.last());
        assert(w.last() == branch_written(s.last()));
        assert(s == d.push(s.last()));
    } else {
        assert(w.len() == 0);
    }
}

proof fn lemma_notes_read_back(s: Seq<(Seq<char>, Seq<char>)>)
    requires
        forall|i: int| 0 <= i < s.len() ==> (#[trigger] s[i]).0.len() > 0 && s[i].1.len() > 0,
    ensures
        usable_notes(s.map_values(|x: (Seq<char>, Seq<char>)| note_written(x))) == s,
    decreases s.len(),
{
    let w = s.map_values(|x: (Seq<char>, Seq<char>)| note_written(x));
    if s.len() > 0 {
        let d = s.drop_last();
        assert forall|i: int| 0 <= i < d.len() implies (#[trigger] d[i]).0.len() > 0 && d[i].1.len() > 0 by {
            assert(d[i] == s[i]);
        }
        lemma_notes_read_back(d);
        assert(w.drop_last() == d.map_values(|x: (Seq<char>, Seq<char>)| note_written(x)));
        let n = s[s.len() - 1];
        lemma_members_differ();
        assert(json::member(note_written(n), "tag"@) == Some(Tree::Text(n.0)));
        assert(json::member(note_written(n), "note"@) == Some(Tree::Text(n.1)));
        assert(note_of(note_written(n)) == Some((n.0, n.1)));
        assert(w.last() == note_written(n));
        assert(s == d.push(n));
    } else {
        assert(w.len() == 0);
    }
}

/// A well-formed output reads back as itself: written as an object that names each field once, every
/// field of it comes back, in its own place.
pub proof fn an_output_reads_back_as_itself(o: OutputView)
    requires
        output_is_whole(o),
    ensures
        output_of(output_written(o)) == o,
{
    let t = output_written(o);
    let r = output_of(t);
    lemma_members_differ();
    assert(json::member(t, "thought"@) == Some(Tree::Text(o.thought)));
    assert(r.thought == o.thought);
    if let Some(n) = o.tag_notes {
        let w = n.map_values(|x: (Seq<char>, Seq<char>)| note_written(x));
        assert(json::member(t, "tag_notes"@) == Some(Tree::Array(w)));
        lemma_notes_read_back(n);
    } else {
        assert(json::member(t, "tag_notes"@) == Some(Tree::Null));
    }
    assert(r.tag_notes == o.tag_notes);
    lemma_proposal_reads_back(o);
    if let Some(s) = o.spawn {
        let w = Tree::Object(map!["agent"@ => Tree::Text(s.0), "brief"@ => Tree::Text(s.1)]);
        assert(json::member(t, "spawn"@) == Some(w));
        assert(json::member(w, "agent"@) == Some(Tree::Text(s.0)));
        assert(json::member(w, "brief"@) == Some(Tree::Text(s.1)));
        a_spawn_request_reads_as_it_stands(t, w, s.0, s.1);
    } else {
        assert(json::member(t, "spawn"@) == Some(Tree::Null));
    }
    assert(r.spawn == o.spawn);
    let x = Tree::Object(
        map![
            "to_prompt"@ => match o.transition.0 {
                Some(id) => Tree::Text(id),
                None => Tree::Null,
            },
            "reason"@ => Tree::Text(o.transition.1),
        ],
    );
    assert(json::member(t, "transition"@) == Some(x));
    assert(json::member(x, "reason"@) == Some(Tree::Text(o.transition.1)));
    assert(json::member(x, "to_prompt"@) == Some(
        match o.transition.0 {
            Some(id) => Tree::Text(id),
            None => Tree::Null,
        },
    ));
    assert(r.transition == o.transition);
    let w = o.batons.map_values(|b: IntentView| branch_written(b));
    assert(json::member(t, "batons"@) == Some(Tree::Array(w)));
    lemma_branches_read_back(o.batons);
    assert(r.batons == o.batons);
}

proof fn lemma_proposal_reads_back(o: OutputView)
    ensures
        output_of(output_written(o)).proposal == o.proposal,
{
    let t = output_written(o);
    lemma_members_differ();
    lemma_labels_differ();
    if let Some(p) = o.proposal {
        let refs = p.refs.map_values(|s: Seq<char>| Tree::Text(s));
        let w = Tree::Object(
            map![
                "intent"@ => Tree::Text(intent_label(p.intent)),
                "gist"@ => Tree::Text(p.gist),
                "refs"@ => Tree::Object(refs),
            ],
        );
        assert(json::member(t, "proposal"@) == Some(w));
        assert(json::member(w, "intent"@) == Some(Tree::Text(intent_label(p.intent))));
        assert(json::member(w, "gist"@) == Some(Tree::Text(p.gist)));
        assert(json::member(w, "refs"@) == Some(Tree::Object(refs)));
        assert(refs.map_values(|v: Tree| json::plain(v)) =~= p.refs);
        assert(intent_named(intent_label(p.intent)) == p.intent);
    } else {
        assert(json::member(t, "proposal"@) == Some(Tree::Null));
    }
}

/// An intent is given by its label, or by an object of one member that is null and has the label for a
/// name; a value of any other kind gives none.
pub proof fn an_intent_is_given_by_its_label(label: Seq<char>, t: Tree)
    ensures
        intent_of(Tree::Text(label)) == Some(intent_named(label)),
        intent_of(Tree::Object(map![label => Tree::Null])) == Some(intent_named(label)),
        !(t is Null) ==> intent_of(Tree::Object(map![label => t])) is None,
        !(t is Text) && !(t is Object) ==> intent_of(t) is None,
{
    let one = map![label => Tree::Null];
    let two = map![label => t];
    let keys = seq![label];
    assert(keys.to_set() =~= one.dom()) by {
        assert(keys[0] == label);
        assert forall|k: Seq<char>| #[trigger] keys.to_set().contains(k) == one.dom().contains(k) by {
            if keys.contains(k) {
                let i = choose|i: int| 0 <= i < keys.len() && keys[i] == k;
            }
        }
    }
    assert(two.dom() =~= one.dom());
    assert(text_map::ascending(keys));
    text_map::lemma_in_order(keys);
}

/// The output that says nothing has nothing in any field, and goes nowhere.
pub proof fn a_silent_output_goes_nowhere()
    ensures
        silent().thought.len() == 0,
        silent().tag_notes is None,
        silent().proposal is None,
        silent().spawn is None,
        silent().transition == (None::<Seq<char>>, Seq::<char>::empty()),
        silent().batons.len() == 0,
        branches(silent()).len() == 0,
        output_of(Tree::Object(Map::empty())) == silent(),
{
}

/// One tag may be given bare, as a number; a value that is neither text, list nor number gives none.
pub proof fn a_number_is_one_tag(t: Tree)
    ensures
        json::numeric(t) ==> tags_of(t) == seq![json::rendered(t)],
        !json::numeric(t) && !(t is Text) && !(t is Array) ==> tags_of(t).len() == 0,
{
}

} // verus!
