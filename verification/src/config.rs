//! The configuration values that the harness reads.

use vstd::prelude::*;

use crate::state::ConsciousnessState;
use crate::text;
use crate::text_map::TextMap;
use crate::trust::Lattice;
use crate::trust::TrustTier;

verus! {

/// How far a capability reaches.
#[derive(Clone, Copy, Debug, PartialEq, Eq, Structural)]
pub enum CapabilityTier {
    Read,
    Post,
    Settle,
}

/// The tools of one server: those whose names start with the prefix, or only the listed ones where
/// a list is given.
#[derive(Debug)]
pub struct CapabilityPrefix {
    pub prefix: String,
    pub tools: Vec<String>,
}

impl CapabilityPrefix {
    /// The whole surface of a server.
    pub fn open(prefix: &str) -> (r: Self)
        ensures
            r.prefix@ == prefix@,
            r.tools@.len() == 0,
    {
        CapabilityPrefix { prefix: prefix.to_owned(), tools: Vec::new() }
    }
}

impl Clone for CapabilityPrefix {
    fn clone(&self) -> (r: Self)
        ensures
            r.prefix == self.prefix,
            r.tools@ == self.tools@,
    {
        CapabilityPrefix { prefix: self.prefix.clone(), tools: text::copy_all(&self.tools) }
    }
}

/// The contents of a prefix: its text and its listed tools.
pub open spec fn prefix_view(p: CapabilityPrefix) -> (Seq<char>, Seq<Seq<char>>) {
    (p.prefix@, text::views(p.tools@))
}

/// The contents of several prefixes.
pub open spec fn prefix_views(v: Seq<CapabilityPrefix>) -> Seq<(Seq<char>, Seq<Seq<char>>)> {
    v.map_values(|p: CapabilityPrefix| prefix_view(p))
}

/// The tools of all servers, by what they may do.
pub struct Capabilities {
    pub read: Vec<CapabilityPrefix>,
    pub post: Vec<CapabilityPrefix>,
    pub settle: Vec<CapabilityPrefix>,
}

/// How a server is reached.
pub enum McpTransport {
    Http { url: String },
    Stdio { command: String, args: Vec<String> },
}

/// How a server's token is found and handed over.
pub struct McpAuth {
    /// The provider that materialises the token.
    pub secret: String,
    /// The variable of the provider's environment that holds it; the first one if not named.
    pub key: Option<String>,
    pub header: Option<String>,
    pub scheme: Option<String>,
    pub env: Option<String>,
}

/// A server that the operator registered.
pub struct McpServerConfig {
    pub name: String,
    pub transport: McpTransport,
    pub auth: Option<McpAuth>,
    pub tier: CapabilityTier,
    pub tools: Vec<String>,
    /// The trust of what the server returns.
    pub trust: TrustTier,
    /// The trust a cycle must still have to be given the server.
    pub min_trust: Option<TrustTier>,
    /// Variables set from fields of the payload.
    pub scope_env: TextMap<String>,
    /// Variables set by the operator.
    pub env: TextMap<String>,
}

/// What the operator allows a state.
pub struct TierPolicy {
    pub deny: Vec<String>,
    pub import: Vec<String>,
    /// Whether only registered servers may be plugged.
    pub mcp_whitelist: bool,
    pub allow_model_override: bool,
    pub model: Option<String>,
}

/// The policy of each state.
pub struct TierPolicies {
    pub perceive: TierPolicy,
    pub express: TierPolicy,
    pub settle: TierPolicy,
    pub reflect: TierPolicy,
}

impl TierPolicies {
    /// The policy of `state`.
    pub open spec fn at(&self, state: ConsciousnessState) -> TierPolicy {
        match state {
            ConsciousnessState::Perceive => self.perceive,
            ConsciousnessState::Express => self.express,
            ConsciousnessState::Settle => self.settle,
            ConsciousnessState::Reflect => self.reflect,
        }
    }

    /// The policy of `state`.
    pub fn get(&self, state: ConsciousnessState) -> (r: &TierPolicy)
        ensures
            *r == self.at(state),
    {
        match state {
            ConsciousnessState::Perceive => &self.perceive,
            ConsciousnessState::Express => &self.express,
            ConsciousnessState::Settle => &self.settle,
            ConsciousnessState::Reflect => &self.reflect,
        }
    }
}

/// The configuration of the harness.
pub struct DackConfig {
    pub lattice: Lattice,
    pub operator_did: String,
    pub default_entry: String,
    /// How long a deferred baton may wait, in seconds.
    pub baton_ttl_secs: Option<i64>,
    pub session_ttl_secs: i64,
    pub session_max_context_tokens: Option<u64>,
    pub reflect_min_interval_secs: i64,
    pub reflect_invoke_timeout_secs: Option<u64>,
    pub memory_write_min_trust: String,
    pub tag_notes_max: usize,
    pub runlog_retention_days: u64,
    pub notify_url: Option<String>,
    pub mcp_servers: Vec<McpServerConfig>,
    pub tier_policy: TierPolicies,
    pub capabilities: Capabilities,
    /// Tools that the wall denies in a dry run.
    pub dry_run_block: Vec<String>,
}

/// The position of the first registered server of that name.
pub open spec fn server_index(servers: Seq<McpServerConfig>, name: Seq<char>) -> Option<int>
    decreases servers.len(),
{
    if servers.len() == 0 {
        None
    } else {
        match server_index(servers.drop_last(), name) {
            Some(i) => Some(i),
            None => if servers.last().name@ == name {
                Some(servers.len() - 1)
            } else {
                None
            },
        }
    }
}

/// The first registered server of that name.
pub open spec fn server_named(servers: Seq<McpServerConfig>, name: Seq<char>) -> Option<McpServerConfig> {
    match server_index(servers, name) {
        Some(i) => Some(servers[i]),
        None => None,
    }
}

proof fn lemma_server_index(servers: Seq<McpServerConfig>, name: Seq<char>, i: int)
    requires
        0 <= i < servers.len(),
        server_index(servers.take(i), name) is None,
        servers[i].name@ == name,
    ensures
        server_index(servers, name) == Some(i),
    decreases servers.len(),
{
    if i == servers.len() - 1 {
        assert(servers.drop_last() == servers.take(i));
    } else {
        assert(servers.drop_last().take(i) == servers.take(i));
        lemma_server_index(servers.drop_last(), name, i);
    }
}

impl DackConfig {
    /// The registered server of that name.
    pub fn mcp_server(&self, name: &str) -> (r: Option<&McpServerConfig>)
        ensures
            (match r {
                Some(s) => server_named(self.mcp_servers@, name@) == Some(*s),
                None => server_named(self.mcp_servers@, name@) is None,
            }),
    {
        let ghost all = self.mcp_servers@;
        let mut i: usize = 0;
        while i < self.mcp_servers.len()
            invariant
                i <= self.mcp_servers.len(),
                all == self.mcp_servers@,
                server_index(all.take(i as int), name@) is None,
            decreases self.mcp_servers.len() - i,
        {
            if text::same(&self.mcp_servers[i].name, name) {
                proof {
                    lemma_server_index(all, name@, i as int);
                }
                return Some(&self.mcp_servers[i]);
            }
            assert(all.take(i + 1).drop_last() == all.take(i as int));
            i += 1;
        }
        assert(all.take(i as int) == all);
        None
    }
}

/// A server is found by its name: the first that is registered under it, and none where none is.
pub proof fn the_first_of_a_name_is_found(servers: Seq<McpServerConfig>, name: Seq<char>, i: int)
    requires
        0 <= i <= servers.len(),
        forall|j: int| 0 <= j < i ==> (#[trigger] servers[j]).name@ != name,
    ensures
        i == servers.len() ==> server_named(servers, name) is None,
        i < servers.len() && servers[i].name@ == name ==> server_named(servers, name) == Some(servers[i]),
{
    lemma_none_so_far(servers.take(i), name);
    if i < servers.len() {
        if servers[i].name@ == name {
            lemma_server_index(servers, name, i);
        }
    } else {
        assert(servers.take(i) == servers);
    }
}

proof fn lemma_none_so_far(servers: Seq<McpServerConfig>, name: Seq<char>)
    requires
        forall|j: int| 0 <= j < servers.len() ==> (#[trigger] servers[j]).name@ != name,
    ensures
        server_index(servers, name) is None,
    decreases servers.len(),
{
    if servers.len() > 0 {
        let d = servers.drop_last();
        assert forall|j: int| 0 <= j < d.len() implies (#[trigger] d[j]).name@ != name by {
            assert(d[j] == servers[j]);
        }
        lemma_none_so_far(d, name);
        assert(servers[servers.len() - 1].name@ != name);
    }
}

/// Each state has its own policy.
pub proof fn each_state_has_its_policy(p: TierPolicies)
    ensures
        p.at(ConsciousnessState::Perceive) == p.perceive,
        p.at(ConsciousnessState::Express) == p.express,
        p.at(ConsciousnessState::Settle) == p.settle,
        p.at(ConsciousnessState::Reflect) == p.reflect,
{
}

} // verus!
