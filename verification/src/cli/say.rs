//! The operator's word: an instruction signed with the operator's key, which the daemon believes
//! only against that signature.

use serde_json::Value;
use vstd::prelude::*;

use crate::error::DackError;
use crate::error::Result;
use crate::harness::dispatch;
use crate::identity::ed25519;
use crate::identity::local::LocalIdentity;
use crate::identity::Did;
use crate::identity::IdentityRole;
use crate::json;
use crate::json::Tree;
use crate::model::stimulus::Priority;
use crate::model::stimulus::Stimulus;
use crate::model::stimulus::StimulusId;
use crate::model::stimulus::StimulusStatus;
use crate::model::stimulus::StimulusType;
use crate::model::stimulus::StimulusView;
use crate::text;
use crate::trust::TrustTier;

verus! {

/// Why an instruction cannot be signed.
pub open spec fn no_operator() -> Seq<char> {
    "dack say: no operator identity dir (identities.operator) — cannot sign"@
}

/// Refuses to say anything without an operator's key.
pub fn require_operator(did: Option<&Did>) -> (r: Result<()>)
    ensures
        (match r {
            Ok(()) => did is Some,
            Err(DackError::Config(m)) => did is None && m@ == no_operator(),
            _ => false,
        }),
{
    match did {
        Some(_) => Ok(()),
        None => Err(
            DackError::Config("dack say: no operator identity dir (identities.operator) — cannot sign".to_owned()),
        ),
    }
}

/// The wake of an instruction: urgent, claiming to be the operator's, with the signature to prove it.
pub open spec fn say_wake(instruction: Seq<char>, sig: Seq<char>, entry: Seq<char>, now: i64) -> StimulusView {
    StimulusView {
        id: "say-"@ + text::decimal(now as int),
        source: "operator-say"@,
        type_: "operator_instruction"@,
        directive_tier: "operator_signed"@,
        payload_tier: "self"@,
        payload: Tree::Object(map!["instruction"@ => Tree::Text(instruction)]),
        provenance: Some("operator_sig:"@ + sig),
        received_at: now,
        dedup_key: None,
        pop_after: None,
        priority: Priority::Urgent,
        status: StimulusStatus::Pending,
        attempts: 0,
        directive_body: instruction,
        entry,
    }
}

fn instruction_value(instruction: &str) -> (r: Value)
    ensures
        json::tree(r) == Tree::Object(map!["instruction"@ => Tree::Text(instruction@)]),
{
    let mut v: Vec<(String, Value)> = Vec::new();
    v.push(("instruction".to_owned(), json::of_text(instruction)));
    proof {
        reveal_with_fuel(json::fields, 2);
        assert(v@.drop_last() == Seq::<(String, Value)>::empty());
        assert(json::fields(v@) == map!["instruction"@ => Tree::Text(instruction@)]);
    }
    json::of_object(v)
}

/// The wake of an instruction with the text of its signature, trimmed.
pub fn say_stimulus(instruction: &str, signature: &str, entry: &str, now: i64) -> (r: Stimulus)
    ensures
        r@ == say_wake(instruction@, text::trimmed(signature@), entry@, now),
{
    let mut id = "say-".to_owned();
    let n = text::int_text(now);
    id.append(&n);
    let mut prov = "operator_sig:".to_owned();
    let s = text::trim(signature);
    prov.append(&s);
    Stimulus {
        id: StimulusId(id),
        source: "operator-say".to_owned(),
        type_: StimulusType("operator_instruction".to_owned()),
        directive_tier: TrustTier::operator(),
        payload_tier: TrustTier::self_(),
        payload: instruction_value(instruction),
        provenance: Some(prov),
        received_at: now,
        dedup_key: None,
        pop_after: None,
        priority: Priority::Urgent,
        status: StimulusStatus::Pending,
        attempts: 0,
        directive_body: instruction.to_owned(),
        entry: entry.to_owned(),
    }
}

/// The text of an operator's signature over an instruction.
pub open spec fn operator_signature(secret: Seq<u8>, instruction: Seq<char>) -> Seq<char> {
    text::trimmed(ed25519::base64url_text(ed25519::signed(secret, vstd::utf8::encode_utf8(instruction))))
}

/// Signs an instruction with the operator's key. The daemon believes the wake that results to be the
/// operator's, if the key is the declared one.
pub fn say(identity: &LocalIdentity, instruction: &str, entry: &str, now: i64) -> (r: Result<Stimulus>)
    ensures
        (match (r, identity.keys.at(IdentityRole::Operator)) {
            (Ok(s), Some(k)) => {
                &&& s@ == say_wake(instruction@, operator_signature(k.secret(), instruction@), entry@, now)
                &&& dispatch::proven_tier(s@, k.did()) == "operator_signed"@
            },
            (Err(DackError::Config(m)), None) => m@ == no_operator(),
            _ => false,
        }),
{
    match require_operator(identity.did(IdentityRole::Operator)) {
        Ok(()) => {},
        Err(e) => {
            return Err(e);
        },
    }
    let sig = match identity.sign(IdentityRole::Operator, instruction.as_bytes()) {
        Ok(s) => s,
        Err(e) => {
            return Err(e);
        },
    };
    let ghost k = identity.keys.at(IdentityRole::Operator)->0;
    let ghost t = ed25519::base64url_text(ed25519::signed(k.secret(), vstd::utf8::encode_utf8(instruction@)));
    proof {
        vstd::utf8::encode_utf8_valid_utf8(t);
        vstd::utf8::encode_utf8_decode_utf8(t);
    }
    match text::utf8_text(&sig.0) {
        Some(s) => {
            let stim = say_stimulus(instruction, s, entry, now);
            proof {
                vstd::utf8::encode_utf8_decode_utf8(s@);
                assert(s@ == t);
                lemma_trimmed_signature(k.did(), instruction@, t);
                what_the_operator_signs_is_believed(k.did(), instruction@, text::trimmed(t), entry@, now);
            }
            Ok(stim)
        },
        None => {
            assert(false);
            Err(DackError::Identity(String::new()))
        },
    }
}

proof fn lemma_trimmed_signature(did: Seq<char>, instruction: Seq<char>, t: Seq<char>)
    ensures
        ed25519::verdict(did, vstd::utf8::encode_utf8(instruction), vstd::utf8::encode_utf8(text::trimmed(t)))
            == Ok::<bool, Seq<char>>(true) <== ed25519::verdict(
            did,
            vstd::utf8::encode_utf8(instruction),
            vstd::utf8::encode_utf8(t),
        ) == Ok::<bool, Seq<char>>(true),
{
    let s = text::trimmed(t);
    vstd::utf8::encode_utf8_valid_utf8(t);
    vstd::utf8::encode_utf8_decode_utf8(t);
    vstd::utf8::encode_utf8_valid_utf8(s);
    vstd::utf8::encode_utf8_decode_utf8(s);
    text::lemma_trimmed_twice(t);
}

/// What the operator signs is believed: an instruction whose signature verifies for the declared
/// operator wakes the agent with the operator's trust.
pub proof fn what_the_operator_signs_is_believed(
    did: Seq<char>,
    instruction: Seq<char>,
    sig: Seq<char>,
    entry: Seq<char>,
    now: i64,
)
    requires
        ed25519::verdict(did, vstd::utf8::encode_utf8(instruction), vstd::utf8::encode_utf8(sig)) == Ok::<
            bool,
            Seq<char>,
        >(true),
    ensures
        dispatch::proven_tier(say_wake(instruction, sig, entry, now), did) == "operator_signed"@,
{
    let p = "operator_sig:"@ + sig;
    assert(p.skip("operator_sig:"@.len() as int) == sig);
    assert("operator_sig:"@.is_prefix_of(p));
}

/// An instruction is a stimulus of the operator's: urgent and pending, with the instruction as its
/// directive and the signature to prove it, in no conversation, and it opens the entry that it is given.
pub proof fn an_instruction_is_the_operators(instruction: Seq<char>, sig: Seq<char>, entry: Seq<char>, now: i64)
    ensures
        ({
            let w = say_wake(instruction, sig, entry, now);
            &&& w.id == "say-"@ + text::decimal(now as int)
            &&& w.source == "operator-say"@
            &&& w.type_ == "operator_instruction"@
            &&& w.directive_tier == "operator_signed"@
            &&& w.payload_tier == "self"@
            &&& w.directive_body == instruction
            &&& w.provenance == Some("operator_sig:"@ + sig)
            &&& json::member(w.payload, "instruction"@) == Some(Tree::Text(instruction))
            &&& w.received_at == now
            &&& w.dedup_key is None
            &&& w.pop_after is None
            &&& w.priority == Priority::Urgent
            &&& w.status == StimulusStatus::Pending
            &&& w.attempts == 0
            &&& w.entry == entry
        }),
{
}

} // verus!
