//! The harness: the deterministic plumbing under the agent.

pub mod batons;
pub mod context;
pub mod dispatch;
pub mod environment;
pub mod mcp;
pub mod sessions;
pub mod skills;
pub mod soul;
pub mod step;
pub mod wakes;
pub mod wall;
pub mod worker;

use vstd::prelude::*;

use crate::config::DackConfig;
use crate::harness::sessions::Session;
use crate::text;
use crate::text_map::TextMap;

verus! {

/// What the harness holds between steps: the operator's configuration, the identity that its commits
/// are attributed to, and the sessions that may be resumed.
pub struct Harness {
    pub config: DackConfig,
    pub soul_did: Option<String>,
    pub sessions: TextMap<Session>,
}

/// The identity that commits are attributed to, or a stable placeholder.
pub open spec fn author(soul_did: Option<Seq<char>>) -> Seq<char> {
    match soul_did {
        Some(d) => d,
        None => "did:dack:soul"@,
    }
}

impl Harness {
    /// A harness without sessions.
    pub fn new(config: DackConfig, soul_did: Option<String>) -> (r: Self)
        ensures
            r.config == config,
            r.soul_did == soul_did,
            r.sessions@ == Map::<Seq<char>, Session>::empty(),
    {
        Harness { config, soul_did, sessions: TextMap::new() }
    }

    /// The identity that soul commits are attributed to.
    pub fn soul_did(&self) -> (r: String)
        ensures
            r@ == author(text::opt(self.soul_did)),
    {
        match &self.soul_did {
            Some(d) => d.clone(),
            None => "did:dack:soul".to_owned(),
        }
    }
}

/// Commits are attributed to the soul, or to a placeholder where it has no identity.
pub proof fn commits_are_the_souls(d: Seq<char>)
    ensures
        author(Some(d)) == d,
        author(None) == "did:dack:soul"@,
{
}

} // verus!
