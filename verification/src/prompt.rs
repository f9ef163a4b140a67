//! State-prompts: what the soul says of one state.

use vstd::prelude::*;

use crate::state::ConsciousnessState;
use crate::text;

verus! {

/// A server that a state-prompt asks for: a registered one by name, or one declared in place.
pub enum McpRef {
    Import(String),
    Inline { name: String, url: String },
}

/// The name of the server asked for.
pub open spec fn ref_name(r: McpRef) -> Seq<char> {
    match r {
        McpRef::Import(name) => name@,
        McpRef::Inline { name, .. } => name@,
    }
}

impl McpRef {
    /// The name of the server asked for.
    pub fn name(&self) -> (r: &String)
        ensures
            r@ == ref_name(*self),
    {
        match self {
            McpRef::Import(name) => name,
            McpRef::Inline { name, .. } => name,
        }
    }
}

/// Whether sessions are kept, and by which dimensions.
pub struct SessionConfig {
    pub sticky: bool,
    pub key: Vec<String>,
}

/// How much of the runlog a state sees.
pub struct RunlogContext {
    /// How many days the environment map spans; 0 for none.
    pub environment: usize,
    /// How many entries of the conversation are shown; 0 for none.
    pub thread: usize,
    pub thread_recent_lookback_secs: i64,
    pub dedup_notes: bool,
    pub recent_notes: usize,
}

/// What context a state gets.
pub struct ContextConfig {
    pub memory: bool,
    /// Whether the runlog entry is tagged with the conversation.
    pub tag_key: bool,
    pub runlog: RunlogContext,
}

/// The mark between the full text of a directive and the part that a resumed session gets.
pub open spec fn resume_mark() -> Seq<char> {
    "---resume---"@
}

/// A directive in its two halves.
pub struct Directive {
    pub fresh: String,
    pub resume: Option<String>,
}

/// Whether a directive is cut at `i`, the first mark in it.
pub open spec fn cut_at(s: Seq<char>, i: int) -> bool {
    text::at(s, resume_mark(), i) && forall|j: int| 0 <= j < i ==> !text::at(s, resume_mark(), j)
}

/// Cuts a directive at its first resume mark; one without a mark is all for a fresh wake.
pub fn split_resume(s: &str) -> (r: Directive)
    ensures
        (match r.resume {
            Some(lean) => exists|i: int| #[trigger]
                cut_at(s@, i) && r.fresh@ == text::trimmed(s@.take(i)) && lean@ == text::trimmed(
                    s@.skip(i + resume_mark().len()),
                ),
            None => !text::occurs(s@, resume_mark()) && r.fresh@ == text::trimmed(s@),
        }),
{
    match text::find(s, "---resume---") {
        Some(i) => {
            let v = text::chars_of(s);
            let len: usize = v.len();
            let n: usize = text::chars_of("---resume---").len();
            let head = text::text_of(&v, 0, i);
            let tail = text::text_of(&v, i + n, len);
            assert(head@ == s@.take(i as int));
            assert(tail@ == s@.skip(i + n));
            assert(cut_at(s@, i as int));
            Directive { fresh: text::trim(&head), resume: Some(text::trim(&tail)) }
        },
        None => Directive { fresh: text::trim(s), resume: None },
    }
}

/// One state-prompt of the soul.
pub struct StatePrompt {
    pub id: String,
    pub state: ConsciousnessState,
    /// The state-prompts it may go on to.
    pub transitions: Vec<String>,
    pub mcp: Vec<McpRef>,
    pub session: Option<SessionConfig>,
    pub model: Option<String>,
    /// The fields by which a message of a batch is found.
    pub reply_key: Vec<String>,
    pub context: ContextConfig,
    /// The stable rules, part of the system message.
    pub system_frame: String,
    /// The task on a fresh wake.
    pub body: String,
    /// The task on a resumed session.
    pub resume_body: Option<String>,
}

impl StatePrompt {
    /// Whether the soul lets this prompt go on to `id`.
    pub fn permits_transition_to(&self, id: &str) -> (r: bool)
        ensures
            r == text::views(self.transitions@).contains(id@),
    {
        text::member(&self.transitions, id)
    }
}

/// A directive is cut where its mark first stands: of two places that it could be cut at, both are the
/// same.
pub proof fn a_directive_is_cut_once(s: Seq<char>, i: int, j: int)
    requires
        cut_at(s, i),
    ensures
        text::at(s, "---resume---"@, i),
        cut_at(s, j) ==> i == j,
        0 <= j < i ==> !text::at(s, "---resume---"@, j),
{
}

/// A server is asked for by its name, however it is declared.
pub proof fn a_server_is_asked_for_by_name(name: String, url: String)
    ensures
        ref_name(McpRef::Import(name)) == name@,
        ref_name(McpRef::Inline { name, url }) == name@,
{
}

} // verus!
