//! The baton: the digested hand-over from one state to the next.

use vstd::prelude::*;

use crate::text;
use crate::text_map;
use crate::text_map::TextMap;
use crate::trust::TrustTier;

verus! {

/// What an act state is opened with: the agent's own digest and harness-made annotations, never
/// the raw payload.
pub struct Baton {
    pub gist: String,
    pub refs: TextMap<String>,
    pub directive_tier: TrustTier,
    /// The trust the chain has left.
    pub payload_tier: TrustTier,
    pub runlog_ref: String,
    pub thoughts: String,
    pub tags: Vec<String>,
}

/// The contents of a baton.
#[verifier::ext_equal]
pub struct BatonView {
    pub gist: Seq<char>,
    pub refs: Map<Seq<char>, Seq<char>>,
    pub directive_tier: Seq<char>,
    pub payload_tier: Seq<char>,
    pub runlog_ref: Seq<char>,
    pub thoughts: Seq<char>,
    pub tags: Seq<Seq<char>>,
}

impl View for Baton {
    type V = BatonView;

    open spec fn view(&self) -> BatonView {
        BatonView {
            gist: self.gist@,
            refs: text_map::texts(self.refs),
            directive_tier: self.directive_tier@,
            payload_tier: self.payload_tier@,
            runlog_ref: self.runlog_ref@,
            thoughts: self.thoughts@,
            tags: text::views(self.tags@),
        }
    }
}

impl Clone for Baton {
    fn clone(&self) -> (r: Self)
        ensures
            r@ == self@,
    {
        Baton {
            gist: self.gist.clone(),
            refs: self.refs.dup(),
            directive_tier: self.directive_tier.clone(),
            payload_tier: self.payload_tier.clone(),
            runlog_ref: self.runlog_ref.clone(),
            thoughts: self.thoughts.clone(),
            tags: text::copy_all(&self.tags),
        }
    }
}

} // verus!
