//! Batons: how a step's output becomes the seed of the next one, in the same wake or deferred
//! through the queue, and which message of a batch it answers.

use serde_json::Value;
use vstd::prelude::*;

use crate::json;
use crate::json::Tree;
use crate::model::baton::Baton;
use crate::model::baton::BatonView;
use crate::model::proposal::AgentOutput;
use crate::model::proposal::BatonIntent;
use crate::model::proposal::IntentView;
use crate::model::proposal::OutputView;
use crate::model::proposal;
use crate::model::stimulus::Priority;
use crate::model::stimulus::Stimulus;
use crate::model::stimulus::StimulusId;
use crate::model::stimulus::StimulusStatus;
use crate::model::stimulus::StimulusType;
use crate::model::stimulus::StimulusView;
use crate::text;
use crate::text_map;
use crate::text_map::TextMap;
use crate::trust::TrustTier;

verus! {

/// `m` with `value` under `key`, where there is a value.
pub open spec fn with(
    m: Map<Seq<char>, Seq<char>>,
    key: Seq<char>,
    value: Option<Seq<char>>,
) -> Map<Seq<char>, Seq<char>> {
    match value {
        Some(v) => m.insert(key, v),
        None => m,
    }
}

/// The chat that a payload names, by a string or an integer.
pub open spec fn chat_of(payload: Tree) -> Option<Seq<char>> {
    match json::member(payload, "chat_id"@) {
        Some(c) => match json::chars(c) {
            Some(s) => Some(s),
            None => match json::int_within(c, i64::MIN as int, i64::MAX as int) {
                Some(n) => Some(text::decimal(n)),
                None => None,
            },
        },
        None => None,
    }
}

/// The agent's own refs, without the four names that are the harness's to give.
pub open spec fn own_refs(refs: Map<Seq<char>, Seq<char>>) -> Map<Seq<char>, Seq<char>> {
    refs.remove("source_tweet_id"@).remove("source_author"@).remove("source_chat_id"@).remove("source_from"@)
}

/// The refs of a baton: the agent's own, and beside them the four that the harness alone takes from
/// the payload.
pub open spec fn harness_refs(own: Map<Seq<char>, Seq<char>>, payload: Tree) -> Map<Seq<char>, Seq<char>> {
    with(
        with(
            with(
                with(own_refs(own), "source_tweet_id"@, json::text_member(payload, "id"@)),
                "source_author"@,
                json::text_member(payload, "author_username"@),
            ),
            "source_chat_id"@,
            chat_of(payload),
        ),
        "source_from"@,
        json::text_member(payload, "from_username"@),
    )
}

/// The baton of one branch: the branch's own gist, else the proposal's, else the thought.
pub open spec fn baton_for(
    intent: IntentView,
    out: OutputView,
    stimulus: StimulusView,
    runlog_ref: Seq<char>,
    trust: Seq<char>,
) -> BatonView {
    BatonView {
        gist: if intent.gist.len() > 0 {
            intent.gist
        } else {
            match out.proposal {
                Some(p) => p.gist,
                None => out.thought,
            }
        },
        refs: harness_refs(
            match out.proposal {
                Some(p) => p.refs,
                None => Map::empty(),
            },
            stimulus.payload,
        ),
        directive_tier: stimulus.directive_tier,
        payload_tier: trust,
        runlog_ref,
        thoughts: out.thought,
        tags: intent.tags,
    }
}

fn drop_ref(refs: &mut TextMap<String>, key: &str)
    ensures
        text_map::texts(*final(refs)) == text_map::texts(*old(refs)).remove(key@),
{
    let ghost before = text_map::texts(*refs);
    let _ = refs.remove(key);
    assert(text_map::texts(*refs) == before.remove(key@));
}

/// What stands under a name, if anything does.
pub open spec fn ref_under(refs: Map<Seq<char>, Seq<char>>, key: Seq<char>) -> Option<Seq<char>> {
    if refs.dom().contains(key) {
        Some(refs[key])
    } else {
        None
    }
}

/// The four harness refs of a baton are what the payload says, and absent where it says nothing,
/// whatever the agent wrote under their names; every other ref is the agent's own.
pub proof fn the_harness_refs_are_the_payloads(own: Map<Seq<char>, Seq<char>>, payload: Tree)
    ensures
        ref_under(harness_refs(own, payload), "source_tweet_id"@) == json::text_member(payload, "id"@),
        ref_under(harness_refs(own, payload), "source_author"@) == json::text_member(
            payload,
            "author_username"@,
        ),
        ref_under(harness_refs(own, payload), "source_chat_id"@) == chat_of(payload),
        ref_under(harness_refs(own, payload), "source_from"@) == json::text_member(payload, "from_username"@),
        forall|k: Seq<char>|
            k != "source_tweet_id"@ && k != "source_author"@ && k != "source_chat_id"@ && k != "source_from"@
                ==> #[trigger] ref_under(harness_refs(own, payload), k) == ref_under(own, k),
{
    reveal_strlit("source_tweet_id");
    reveal_strlit("source_author");
    reveal_strlit("source_chat_id");
    reveal_strlit("source_from");
    assert("source_tweet_id"@.len() == 15);
    assert("source_author"@.len() == 13);
    assert("source_chat_id"@.len() == 14);
    assert("source_from"@.len() == 11);
}

/// Builds the baton of one branch from the agent's own product and the harness's annotations.
pub fn build_baton_from_intent(
    intent: &BatonIntent,
    out: &AgentOutput,
    stimulus: &Stimulus,
    runlog_ref: String,
    cycle_trust: TrustTier,
) -> (r: Baton)
    ensures
        r@ == baton_for(intent@, out@, stimulus@, runlog_ref@, cycle_trust@),
        json::text_member(stimulus@.payload, "id"@) is None ==> !r@.refs.dom().contains("source_tweet_id"@),
        json::text_member(stimulus@.payload, "author_username"@) is None ==> !r@.refs.dom().contains(
            "source_author"@,
        ),
        chat_of(stimulus@.payload) is None ==> !r@.refs.dom().contains("source_chat_id"@),
        json::text_member(stimulus@.payload, "from_username"@) is None ==> !r@.refs.dom().contains(
            "source_from"@,
        ),
{
    proof {
        the_harness_refs_are_the_payloads(
            match out@.proposal {
                Some(p) => p.refs,
                None => Map::empty(),
            },
            stimulus@.payload,
        );
    }
    let gist = if !intent.gist.as_str().is_empty() {
        intent.gist.clone()
    } else {
        match &out.proposal {
            Some(p) => p.gist.clone(),
            None => out.thought.clone(),
        }
    };
    let mut refs: TextMap<String> = match &out.proposal {
        Some(p) => p.refs.dup(),
        None => TextMap::new(),
    };
    let ghost own = text_map::texts(refs);
    assert(out.proposal is None ==> own == Map::<Seq<char>, Seq<char>>::empty());
    drop_ref(&mut refs, "source_tweet_id");
    drop_ref(&mut refs, "source_author");
    drop_ref(&mut refs, "source_chat_id");
    drop_ref(&mut refs, "source_from");
    if let Some(id) = json::text_at(&stimulus.payload, "id") {
        refs.put("source_tweet_id", &id);
    }
    if let Some(author) = json::text_at(&stimulus.payload, "author_username") {
        refs.put("source_author", &author);
    }
    if let Some(c) = json::get(&stimulus.payload, "chat_id") {
        if let Some(s) = json::as_str(c) {
            refs.put("source_chat_id", s);
        } else if let Some(n) = json::as_i64(c) {
            let s = text::int_text(n);
            refs.put("source_chat_id", &s);
        }
    }
    if let Some(u) = json::text_at(&stimulus.payload, "from_username") {
        refs.put("source_from", &u);
    }
    assert(text_map::texts(refs) == harness_refs(own, json::tree(stimulus.payload)));
    Baton {
        gist,
        refs,
        directive_tier: stimulus.directive_tier.clone(),
        payload_tier: cycle_trust,
        runlog_ref,
        thoughts: out.thought.clone(),
        tags: text::copy_all(&intent.tags),
    }
}

/// Builds the baton of a step that names no branch of its own.
pub fn build_baton(
    perceive: &AgentOutput,
    stimulus: &Stimulus,
    runlog_ref: String,
    cycle_trust: TrustTier,
) -> (r: Baton)
    ensures
        r@ == baton_for(
            proposal::bare_intent(Seq::empty(), Seq::empty()),
            perceive@,
            stimulus@,
            runlog_ref@,
            cycle_trust@,
        ),
{
    build_baton_from_intent(&BatonIntent::default(), perceive, stimulus, runlog_ref, cycle_trust)
}

/// The firebreak: of the payload, a baton holds nothing but the four refs. Two stimuli that agree on
/// the tweet, its author, the chat and the sender give the same baton, whatever else they carry.
pub proof fn the_firebreak_holds(
    intent: IntentView,
    out: OutputView,
    one: StimulusView,
    other: StimulusView,
    runlog_ref: Seq<char>,
    trust: Seq<char>,
)
    requires
        one.directive_tier == other.directive_tier,
        json::text_member(one.payload, "id"@) == json::text_member(other.payload, "id"@),
        json::text_member(one.payload, "author_username"@) == json::text_member(
            other.payload,
            "author_username"@,
        ),
        chat_of(one.payload) == chat_of(other.payload),
        json::text_member(one.payload, "from_username"@) == json::text_member(
            other.payload,
            "from_username"@,
        ),
    ensures
        baton_for(intent, out, one, runlog_ref, trust) == baton_for(intent, out, other, runlog_ref, trust),
{
}

/// Whether an item of a batch is the one wanted: one of the key fields holds the wanted id.
pub open spec fn answers(item: Tree, keys: Seq<Seq<char>>, want: Seq<char>) -> bool {
    exists|j: int|
        0 <= j < keys.len() && (json::member(item, #[trigger] keys[j]) matches Some(v) && json::plain(v) == want)
}

/// The first item of a batch that is wanted.
pub open spec fn first_answer(items: Seq<Tree>, keys: Seq<Seq<char>>, want: Seq<char>) -> Option<Tree>
    decreases items.len(),
{
    if items.len() == 0 {
        None
    } else if answers(items[0], keys, want) {
        Some(items[0])
    } else {
        first_answer(items.drop_first(), keys, want)
    }
}

/// The message of the batch that a branch answers; none where it names none or names one that is
/// not there.
pub open spec fn reply_scope(payload: Tree, keys: Seq<Seq<char>>, reply_to: Option<Seq<char>>) -> Option<Tree> {
    match reply_to {
        Some(want) => match json::member(payload, "items"@) {
            Some(Tree::Array(items)) => first_answer(items, keys, want),
            _ => None,
        },
        None => None,
    }
}

fn is_answer(item: &Value, keys: &[String], want: &str) -> (r: bool)
    ensures
        r == answers(json::tree(*item), text::views(keys@), want@),
{
    let mut j: usize = 0;
    let ghost ks = text::views(keys@);
    let ghost t = json::tree(*item);
    while j < keys.len()
        invariant
            j <= keys.len(),
            ks == text::views(keys@),
            t == json::tree(*item),
            forall|i: int|
                0 <= i < j ==> !(json::member(t, #[trigger] ks[i]) matches Some(v) && json::plain(v) == want@),
        decreases keys.len() - j,
    {
        assert(ks[j as int] == keys@[j as int]@);
        if let Some(v) = json::get(item, &keys[j]) {
            let s = json::plain_text(v);
            if text::same(&s, want) {
                return true;
            }
        }
        j += 1;
    }
    false
}

/// The message of the batch that a branch answers, checked against the batch that the harness
/// holds.
pub fn resolve_scope_override(stimulus: &Stimulus, reply_key: &[String], reply_to: Option<&str>) -> (r: Option<
    Value,
>)
    ensures
        json::opt_tree(r) == reply_scope(stimulus@.payload, text::views(reply_key@), text::opt_str(reply_to)),
{
    let want = match reply_to {
        Some(w) => w,
        None => {
            return None;
        },
    };
    let items = match json::get(&stimulus.payload, "items") {
        Some(v) => match json::as_array(v) {
            Some(a) => a,
            None => {
                return None;
            },
        },
        None => {
            return None;
        },
    };
    let ghost all = json::trees(items@);
    let ghost ks = text::views(reply_key@);
    let mut i: usize = 0;
    assert(all.skip(0) == all);
    while i < items.len()
        invariant
            i <= items.len(),
            all == json::trees(items@),
            ks == text::views(reply_key@),
            first_answer(all.skip(i as int), ks, want@) == first_answer(all, ks, want@),
            json::member(stimulus@.payload, "items"@) == Some(Tree::Array(all)),
            reply_to == Some(want),
        decreases items.len() - i,
    {
        assert(all.skip(i as int)[0] == json::tree(items@[i as int]));
        if is_answer(&items[i], reply_key, want) {
            return Some(items[i].clone());
        }
        assert(all.skip(i as int).drop_first() == all.skip(i + 1));
        i += 1;
    }
    None
}

/// A reply is never sent to a message that was not in the batch: what is chosen is an item of the
/// batch, and it holds the id that was asked for.
pub proof fn a_reply_stays_in_the_batch(payload: Tree, keys: Seq<Seq<char>>, reply_to: Option<Seq<char>>)
    ensures
        reply_scope(payload, keys, reply_to) matches Some(item) ==> {
            &&& json::member(payload, "items"@) matches Some(Tree::Array(items)) && items.contains(item)
            &&& reply_to matches Some(want) && answers(item, keys, want)
        },
{
    if let Some(want) = reply_to {
        if let Some(Tree::Array(items)) = json::member(payload, "items"@) {
            lemma_first_answer(items, keys, want);
        }
    }
}

proof fn lemma_first_answer(items: Seq<Tree>, keys: Seq<Seq<char>>, want: Seq<char>)
    ensures
        first_answer(items, keys, want) matches Some(item) ==> items.contains(item) && answers(item, keys, want),
    decreases items.len(),
{
    if items.len() > 0 {
        if answers(items[0], keys, want) {
            assert(items.contains(items[0]));
        } else {
            lemma_first_answer(items.drop_first(), keys, want);
            if let Some(item) = first_answer(items.drop_first(), keys, want) {
                let k = choose|k: int| 0 <= k < items.drop_first().len() && items.drop_first()[k] == item;
                assert(items[k + 1] == item);
            }
        }
    }
}

/// The members of an object that are neither arrays nor objects.
pub open spec fn scalar_members(m: Map<Seq<char>, Tree>) -> Map<Seq<char>, Tree> {
    Map::new(|k: Seq<char>| m.dom().contains(k) && !(m[k] is Array) && !(m[k] is Object), |k: Seq<char>| m[k])
}

/// Where a reply to the payload as a whole goes: its scalar members, if it has any.
pub open spec fn origin_scope(payload: Tree) -> Option<Tree> {
    match payload {
        Tree::Object(m) => if scalar_members(m) == Map::<Seq<char>, Tree>::empty() {
            None
        } else {
            Some(Tree::Object(scalar_members(m)))
        },
        _ => None,
    }
}

/// The scalar members of a payload: where a deferred reply without a target of its own goes.
pub fn origin_reply_scope(payload: &Value) -> (r: Option<Value>)
    ensures
        json::opt_tree(r) == origin_scope(json::tree(*payload)),
{
    let members = match json::as_object(payload) {
        Some(m) => m,
        None => {
            return None;
        },
    };
    let ghost all = members@;
    let mut kept: Vec<(String, Value)> = Vec::new();
    let mut i: usize = 0;
    assert(scalar_members(json::fields(all.take(0))) == json::fields(kept@));
    while i < members.len()
        invariant
            i <= members.len(),
            all == members@,
            text_map::ascending(json::names(all)),
            json::fields(kept@) == scalar_members(json::fields(all.take(i as int))),
            kept@.len() > 0 ==> exists|k: Seq<char>| #[trigger] json::fields(kept@).dom().contains(k),
            kept@.len() == 0 ==> json::fields(kept@) == Map::<Seq<char>, Tree>::empty(),
        decreases members.len() - i,
    {
        let v = members[i].1.clone();
        let ghost key = all[i as int].0@;
        let ghost before = json::fields(all.take(i as int));
        assert(all.take(i + 1).drop_last() == all.take(i as int));
        assert(all.take(i + 1).last() == all[i as int]);
        proof {
            json::lemma_fields_dom(all.take(i as int));
            if before.dom().contains(key) {
                let n = json::names(all.take(i as int));
                assert(n.to_set().contains(key));
                let j = choose|j: int| 0 <= j < n.len() && n[j] == key;
                assert(json::names(all)[j] == key);
                assert(json::names(all)[i as int] == key);
                assert(text_map::precedes(json::names(all)[j], json::names(all)[i as int]));
                text_map::lemma_precedes_irreflexive(key);
            }
        }
        let compound = json::as_array(&v).is_some() || json::as_object(&v).is_some();
        if !compound {
            let ghost old_kept = kept@;
            kept.push((members[i].0.clone(), v));
            assert(kept@.drop_last() == old_kept);
            assert(json::fields(kept@) == json::fields(old_kept).insert(key, json::tree(v)));
            assert(json::fields(kept@).dom().contains(key));
            assert(json::fields(kept@) == scalar_members(before.insert(key, json::tree(v))));
        } else {
            assert(scalar_members(before.insert(key, json::tree(v))) == scalar_members(before));
        }
        i += 1;
    }
    assert(all.take(i as int) == all);
    if kept.len() == 0 {
        None
    } else {
        Some(json::of_object(kept))
    }
}

/// How a baton stands in the payload of the stimulus that carries it.
pub open spec fn baton_tree(b: BatonView) -> Tree {
    Tree::Object(
        map![
            "gist"@ => Tree::Text(b.gist),
            "refs"@ => Tree::Object(b.refs.map_values(|s: Seq<char>| Tree::Text(s))),
            "directive_tier"@ => Tree::Text(b.directive_tier),
            "payload_tier"@ => Tree::Text(b.payload_tier),
            "runlog_ref"@ => Tree::Text(b.runlog_ref),
            "thoughts"@ => Tree::Text(b.thoughts),
            "tags"@ => Tree::Array(b.tags.map_values(|s: Seq<char>| Tree::Text(s))),
        ],
    )
}

/// The texts of an object whose members are all strings.
pub open spec fn text_members(t: Tree) -> Option<Map<Seq<char>, Seq<char>>> {
    match t {
        Tree::Object(m) => if forall|k: Seq<char>| #[trigger] m.dom().contains(k) ==> m[k] is Text {
            Some(m.map_values(|v: Tree| json::plain(v)))
        } else {
            None
        },
        _ => None,
    }
}

/// The texts of an array whose elements are all strings.
pub open spec fn text_items(t: Tree) -> Option<Seq<Seq<char>>> {
    match t {
        Tree::Array(a) => if forall|i: int| 0 <= i < a.len() ==> #[trigger] a[i] is Text {
            Some(a.map_values(|v: Tree| json::plain(v)))
        } else {
            None
        },
        _ => None,
    }
}

/// The baton that a value stands for. Its refs, thoughts and tags may be absent.
pub open spec fn baton_of(t: Tree) -> Option<BatonView> {
    let refs = match json::member(t, "refs"@) {
        Some(r) => text_members(r),
        None => Some(Map::empty()),
    };
    let tags = match json::member(t, "tags"@) {
        Some(r) => text_items(r),
        None => Some(Seq::empty()),
    };
    match (
        json::text_member(t, "gist"@),
        refs,
        json::text_member(t, "directive_tier"@),
        json::text_member(t, "payload_tier"@),
        json::text_member(t, "runlog_ref"@),
        proposal::text_field(json::member(t, "thoughts"@)),
        tags,
    ) {
        (
            Some(gist),
            Some(refs),
            Some(directive_tier),
            Some(payload_tier),
            Some(runlog_ref),
            Some(thoughts),
            Some(tags),
        ) => Some(BatonView { gist, refs, directive_tier, payload_tier, runlog_ref, thoughts, tags }),
        _ => None,
    }
}

/// A baton reads back as it was written.
pub proof fn a_baton_reads_back(b: BatonView)
    ensures
        baton_of(baton_tree(b)) == Some(b),
{
    lemma_field_names();
    let t = baton_tree(b);
    let refs = b.refs.map_values(|s: Seq<char>| Tree::Text(s));
    assert(refs.map_values(|v: Tree| json::plain(v)) == b.refs);
    let tags = b.tags.map_values(|s: Seq<char>| Tree::Text(s));
    assert(tags.map_values(|v: Tree| json::plain(v)) == b.tags);
    assert(json::member(t, "gist"@) == Some(Tree::Text(b.gist)));
    assert(json::member(t, "refs"@) == Some(Tree::Object(refs)));
    assert(json::member(t, "directive_tier"@) == Some(Tree::Text(b.directive_tier)));
    assert(json::member(t, "payload_tier"@) == Some(Tree::Text(b.payload_tier)));
    assert(json::member(t, "runlog_ref"@) == Some(Tree::Text(b.runlog_ref)));
    assert(json::member(t, "thoughts"@) == Some(Tree::Text(b.thoughts)));
    assert(json::member(t, "tags"@) == Some(Tree::Array(tags)));
}

proof fn lemma_field_names()
    ensures
        "gist"@ != "refs"@,
        "gist"@ != "directive_tier"@,
        "gist"@ != "payload_tier"@,
        "gist"@ != "runlog_ref"@,
        "gist"@ != "thoughts"@,
        "gist"@ != "tags"@,
        "refs"@ != "directive_tier"@,
        "refs"@ != "payload_tier"@,
        "refs"@ != "runlog_ref"@,
        "refs"@ != "thoughts"@,
        "refs"@ != "tags"@,
        "directive_tier"@ != "payload_tier"@,
        "directive_tier"@ != "runlog_ref"@,
        "directive_tier"@ != "thoughts"@,
        "directive_tier"@ != "tags"@,
        "payload_tier"@ != "runlog_ref"@,
        "payload_tier"@ != "thoughts"@,
        "payload_tier"@ != "tags"@,
        "runlog_ref"@ != "thoughts"@,
        "runlog_ref"@ != "tags"@,
        "thoughts"@ != "tags"@,
        "baton"@ != "depth"@,
        "baton"@ != "scope"@,
        "depth"@ != "scope"@,
{
    reveal_strlit("gist");
    reveal_strlit("refs");
    reveal_strlit("directive_tier");
    reveal_strlit("payload_tier");
    reveal_strlit("runlog_ref");
    reveal_strlit("thoughts");
    reveal_strlit("tags");
    reveal_strlit("baton");
    reveal_strlit("depth");
    reveal_strlit("scope");
    assert("gist"@[0] == 'g');
    assert("refs"@[1] == 'e');
    assert("directive_tier"@[0] == 'd');
    assert("payload_tier"@[0] == 'p');
    assert("runlog_ref"@[1] == 'u');
    assert("thoughts"@[1] == 'h');
    assert("tags"@[1] == 'a');
    assert("refs"@[0] == 'r');
    assert("runlog_ref"@[0] == 'r');
    assert("thoughts"@[0] == 't');
    assert("tags"@[0] == 't');
    assert("baton"@[0] == 'b');
    assert("depth"@[0] == 'd');
    assert("scope"@[0] == 's');
}

/// Writes a baton into a JSON value.
pub fn baton_to_value(b: &Baton) -> (r: Value)
    ensures
        json::tree(r) == baton_tree(b@),
{
    let mut out: Vec<(String, Value)> = Vec::new();
    out.push(("gist".to_owned(), json::of_text(&b.gist)));
    out.push(("refs".to_owned(), json::of_texts(&b.refs)));
    out.push(("directive_tier".to_owned(), json::of_text(b.directive_tier.name())));
    out.push(("payload_tier".to_owned(), json::of_text(b.payload_tier.name())));
    out.push(("runlog_ref".to_owned(), json::of_text(&b.runlog_ref)));
    out.push(("thoughts".to_owned(), json::of_text(&b.thoughts)));
    out.push(("tags".to_owned(), json::of_list(&b.tags)));
    proof {
        reveal_with_fuel(json::fields, 8);
        let s = out@;
        assert(s.drop_last().drop_last().drop_last().drop_last().drop_last().drop_last().drop_last() == Seq::<
            (String, Value),
        >::empty());
        assert(baton_tree(b@) == Tree::Object(json::fields(s)));
    }
    json::of_object(out)
}

fn read_text_members(v: &Value) -> (r: Option<TextMap<String>>)
    ensures
        (match r {
            Some(m) => text_members(json::tree(*v)) == Some(text_map::texts(m)),
            None => text_members(json::tree(*v)) is None,
        }),
{
    let members = match json::as_object(v) {
        Some(m) => m,
        None => {
            return None;
        },
    };
    let ghost all = members@;
    let ghost f = |x: Tree| json::plain(x);
    let mut r: TextMap<String> = TextMap::new();
    let mut i: usize = 0;
    assert(text_map::texts(r) == json::fields(all.take(0)).map_values(f));
    while i < members.len()
        invariant
            i <= members.len(),
            all == members@,
            json::tree(*v) == Tree::Object(json::fields(all)),
            text_map::ascending(json::names(all)),
            f == (|x: Tree| json::plain(x)),
            text_map::texts(r) == json::fields(all.take(i as int)).map_values(f),
            forall|k: Seq<char>| #[trigger] json::fields(all.take(i as int)).dom().contains(k) ==> json::fields(
                all.take(i as int),
            )[k] is Text,
        decreases members.len() - i,
    {
        assert(all.take(i + 1).drop_last() == all.take(i as int));
        assert(all.take(i + 1).last() == all[i as int]);
        match json::as_str(&members[i].1) {
            Some(s) => {
                r.put(&members[i].0, s);
            },
            None => {
                proof {
                    lemma_member_stands(all, i as int);
                }
                return None;
            },
        }
        i += 1;
        assert(text_map::texts(r) == json::fields(all.take(i as int)).map_values(f));
    }
    assert(all.take(i as int) == all);
    Some(r)
}

proof fn lemma_member_stands(all: Seq<(String, Value)>, i: int)
    requires
        0 <= i < all.len(),
        text_map::ascending(json::names(all)),
    ensures
        json::fields(all).dom().contains(all[i].0@),
        json::fields(all)[all[i].0@] == json::tree(all[i].1),
    decreases all.len(),
{
    if i < all.len() - 1 {
        let d = all.drop_last();
        assert forall|a: int, b: int| 0 <= a < b < json::names(d).len() implies text_map::precedes(
            #[trigger] json::names(d)[a],
            #[trigger] json::names(d)[b],
        ) by {
            assert(text_map::precedes(json::names(all)[a], json::names(all)[b]));
        }
        lemma_member_stands(d, i);
        assert(text_map::precedes(json::names(all)[i], json::names(all)[all.len() - 1]));
        text_map::lemma_precedes_irreflexive(all[i].0@);
    }
}

fn read_text_items(v: &Value) -> (r: Option<Vec<String>>)
    ensures
        (match r {
            Some(m) => text_items(json::tree(*v)) == Some(text::views(m@)),
            None => text_items(json::tree(*v)) is None,
        }),
{
    let items = match json::as_array(v) {
        Some(m) => m,
        None => {
            return None;
        },
    };
    let ghost all = json::trees(items@);
    let mut r: Vec<String> = Vec::new();
    let mut i: usize = 0;
    while i < items.len()
        invariant
            i <= items.len(),
            all == json::trees(items@),
            json::tree(*v) == Tree::Array(all),
            r@.len() == i,
            forall|j: int| 0 <= j < i ==> #[trigger] all[j] == Tree::Text(r@[j]@),
        decreases items.len() - i,
    {
        assert(all[i as int] == json::tree(items@[i as int]));
        match json::as_str(&items[i]) {
            Some(s) => {
                r.push(s.to_owned());
            },
            None => {
                return None;
            },
        }
        i += 1;
    }
    assert(all.map_values(|x: Tree| json::plain(x)) == text::views(r@));
    Some(r)
}

/// Reads a baton from a JSON value.
pub fn baton_from_value(v: &Value) -> (r: Option<Baton>)
    ensures
        (match r {
            Some(b) => baton_of(json::tree(*v)) == Some(b@),
            None => baton_of(json::tree(*v)) is None,
        }),
{
    let refs = match json::get(v, "refs") {
        Some(x) => read_text_members(x),
        None => {
            let m: TextMap<String> = TextMap::new();
            assert(text_map::texts(m) == Map::<Seq<char>, Seq<char>>::empty());
            Some(m)
        },
    };
    let tags = match json::get(v, "tags") {
        Some(x) => read_text_items(x),
        None => {
            let t: Vec<String> = Vec::new();
            assert(text::views(t@) == Seq::<Seq<char>>::empty());
            Some(t)
        },
    };
    let thoughts = match json::get(v, "thoughts") {
        Some(x) => match json::as_str(x) {
            Some(s) => Some(s.to_owned()),
            None => None,
        },
        None => Some(String::new()),
    };
    match (
        json::text_at(v, "gist"),
        refs,
        json::text_at(v, "directive_tier"),
        json::text_at(v, "payload_tier"),
        json::text_at(v, "runlog_ref"),
        thoughts,
        tags,
    ) {
        (
            Some(gist),
            Some(refs),
            Some(directive_tier),
            Some(payload_tier),
            Some(runlog_ref),
            Some(thoughts),
            Some(tags),
        ) => Some(
            Baton {
                gist,
                refs,
                directive_tier: TrustTier(directive_tier),
                payload_tier: TrustTier(payload_tier),
                runlog_ref,
                thoughts,
                tags,
            },
        ),
        _ => None,
    }
}

/// A JSON value for what may be absent.
pub open spec fn or_null(t: Option<Tree>) -> Tree {
    match t {
        Some(x) => x,
        None => Tree::Null,
    }
}

/// Where a deferred reply goes: to the chosen message, else where the origin's would go.
pub open spec fn deferred_scope(chosen: Option<Tree>, origin: Tree) -> Option<Tree> {
    match chosen {
        Some(x) => Some(x),
        None => origin_scope(origin),
    }
}

/// The payload of a deferred branch.
pub open spec fn continuation_tree(baton: BatonView, depth: int, scope: Option<Tree>) -> Tree {
    Tree::Object(
        map![
            "baton"@ => baton_tree(baton),
            "depth"@ => Tree::Int(depth),
            "scope"@ => or_null(scope),
        ],
    )
}

/// The stimulus that carries a deferred branch through the queue: of the origin's source,
/// conversation and directive tier, with the branch's trust as its own.
pub open spec fn continuation_of(
    origin: StimulusView,
    dest: Seq<char>,
    baton: BatonView,
    trust: Seq<char>,
    priority: Priority,
    depth: int,
    seq: int,
    now: i64,
    chosen: Option<Tree>,
) -> StimulusView {
    StimulusView {
        id: origin.id + "-b"@ + text::decimal(seq),
        source: origin.source,
        type_: "baton-continuation"@,
        directive_tier: origin.directive_tier,
        payload_tier: trust,
        payload: continuation_tree(baton, depth, deferred_scope(chosen, origin.payload)),
        provenance: None,
        received_at: now,
        dedup_key: origin.dedup_key,
        pop_after: None,
        priority,
        status: StimulusStatus::Pending,
        attempts: 0,
        directive_body: Seq::empty(),
        entry: dest,
    }
}

/// Packs a deferred branch into a stimulus for the queue.
pub fn continuation_stimulus(
    origin: &Stimulus,
    dest_prompt: &str,
    baton: &Baton,
    trust: TrustTier,
    priority: Priority,
    depth: u64,
    seq: usize,
    now: i64,
    scope_override: Option<&Value>,
) -> (r: Stimulus)
    ensures
        r@ == continuation_of(
            origin@,
            dest_prompt@,
            baton@,
            trust@,
            priority,
            depth as int,
            seq as int,
            now,
            json::ref_tree(scope_override),
        ),
{
    let scope = match scope_override {
        Some(v) => Some(v.clone()),
        None => origin_reply_scope(&origin.payload),
    };
    let ghost scope_tree = json::opt_tree(scope);
    let mut fields: Vec<(String, Value)> = Vec::new();
    fields.push(("baton".to_owned(), baton_to_value(baton)));
    fields.push(("depth".to_owned(), json::of_nat(depth)));
    let scope_value = match scope {
        Some(v) => v,
        None => json::null(),
    };
    fields.push(("scope".to_owned(), scope_value));
    proof {
        reveal_with_fuel(json::fields, 4);
        let s = fields@;
        assert(s.drop_last().drop_last().drop_last() == Seq::<(String, Value)>::empty());
        assert(Tree::Object(json::fields(s)) == continuation_tree(baton@, depth as int, scope_tree));
    }
    let mut id = origin.id.0.clone();
    id.append("-b");
    id.append(&text::nat_text(seq as u128));
    Stimulus {
        id: StimulusId(id),
        source: origin.source.clone(),
        type_: StimulusType("baton-continuation".to_owned()),
        directive_tier: origin.directive_tier.clone(),
        payload_tier: trust,
        payload: json::of_object(fields),
        provenance: None,
        received_at: now,
        dedup_key: text::opt_copy(&origin.dedup_key),
        pop_after: None,
        priority,
        status: StimulusStatus::Pending,
        attempts: 0,
        directive_body: String::new(),
        entry: dest_prompt.to_owned(),
    }
}

/// What a deferred branch carries: its baton, its depth and where its reply goes.
pub open spec fn carried(s: StimulusView) -> Option<(BatonView, int, Option<Tree>)> {
    if s.type_ != "baton-continuation"@ {
        None
    } else {
        match json::member(s.payload, "baton"@) {
            Some(t) => match baton_of(t) {
                Some(b) => Some(
                    (
                        b,
                        match json::member(s.payload, "depth"@) {
                            Some(d) => match json::int_within(d, 0, u64::MAX as int) {
                                Some(n) => n,
                                None => 0,
                            },
                            None => 0,
                        },
                        match json::member(s.payload, "scope"@) {
                            Some(Tree::Null) => None,
                            other => other,
                        },
                    ),
                ),
                None => None,
            },
            None => None,
        }
    }
}

/// A deferred branch taken from the queue.
pub struct Continuation {
    pub baton: Baton,
    pub depth: u64,
    pub scope: Option<Value>,
}

/// The contents of a deferred branch.
pub open spec fn continuation_view(c: Continuation) -> (BatonView, int, Option<Tree>) {
    (
        c.baton@,
        c.depth as int,
        json::opt_tree(c.scope),
    )
}

/// Recovers a deferred branch from a popped stimulus; none of a stimulus of the world.
pub fn parse_continuation(stimulus: &Stimulus) -> (r: Option<Continuation>)
    ensures
        (match r {
            Some(c) => carried(stimulus@) == Some(continuation_view(c)),
            None => carried(stimulus@) is None,
        }),
{
    if !text::same(&stimulus.type_.0, "baton-continuation") {
        return None;
    }
    let baton = match json::get(&stimulus.payload, "baton") {
        Some(v) => match baton_from_value(v) {
            Some(b) => b,
            None => {
                return None;
            },
        },
        None => {
            return None;
        },
    };
    let depth: u64 = match json::get(&stimulus.payload, "depth") {
        Some(v) => match json::as_u64(v) {
            Some(n) => n,
            None => 0,
        },
        None => 0,
    };
    let scope = match json::get(&stimulus.payload, "scope") {
        Some(v) => if json::is_null(v) {
            None
        } else {
            Some(v.clone())
        },
        None => None,
    };
    Some(Continuation { baton, depth, scope })
}

/// What is deferred is what is taken up later: a packed branch reads back as the same baton, depth
/// and reply target, and its trust rides along as the payload's.
pub proof fn a_deferred_branch_reads_back(
    origin: StimulusView,
    dest: Seq<char>,
    baton: BatonView,
    trust: Seq<char>,
    priority: Priority,
    depth: int,
    seq: int,
    now: i64,
    chosen: Option<Tree>,
)
    requires
        0 <= depth <= u64::MAX,
        chosen != Some(Tree::Null),
    ensures
        ({
            let s = continuation_of(origin, dest, baton, trust, priority, depth, seq, now, chosen);
            &&& carried(s) == Some((baton, depth, deferred_scope(chosen, origin.payload)))
            &&& s.payload_tier == trust
            &&& s.entry == dest
        }),
{
    lemma_field_names();
    a_baton_reads_back(baton);
    let scope = deferred_scope(chosen, origin.payload);
    let t = continuation_tree(baton, depth, scope);
    assert(json::member(t, "baton"@) == Some(baton_tree(baton)));
    assert(json::member(t, "depth"@) == Some(Tree::Int(depth)));
    assert(json::member(t, "scope"@) == Some(or_null(scope)));
}

/// What a baton says is the branch's and the step's own: the branch's gist, or the proposal's where the
/// branch gives none, or the thought where there is no proposal; the thought, the branch's tags, where
/// the step was logged, and the trust that is left beside the directive's. Of the refs, all but the
/// four of the harness are the proposal's.
pub proof fn a_baton_speaks_for_its_branch(
    intent: IntentView,
    out: OutputView,
    stimulus: StimulusView,
    runlog_ref: Seq<char>,
    trust: Seq<char>,
)
    ensures
        ({
            let b = baton_for(intent, out, stimulus, runlog_ref, trust);
            &&& intent.gist.len() > 0 ==> b.gist == intent.gist
            &&& intent.gist.len() == 0 ==> (out.proposal matches Some(p) ==> b.gist == p.gist)
            &&& intent.gist.len() == 0 && out.proposal is None ==> b.gist == out.thought
            &&& b.thoughts == out.thought
            &&& b.tags == intent.tags
            &&& b.runlog_ref == runlog_ref
            &&& b.payload_tier == trust
            &&& b.directive_tier == stimulus.directive_tier
            &&& ref_under(b.refs, "source_tweet_id"@) == json::text_member(stimulus.payload, "id"@)
            &&& ref_under(b.refs, "source_author"@) == json::text_member(stimulus.payload, "author_username"@)
            &&& ref_under(b.refs, "source_chat_id"@) == chat_of(stimulus.payload)
            &&& ref_under(b.refs, "source_from"@) == json::text_member(stimulus.payload, "from_username"@)
            &&& forall|k: Seq<char>|
                k != "source_tweet_id"@ && k != "source_author"@ && k != "source_chat_id"@ && k != "source_from"@
                    ==> #[trigger] ref_under(b.refs, k) == (match out.proposal {
                    Some(p) => ref_under(p.refs, k),
                    None => None,
                })
        }),
{
    the_harness_refs_are_the_payloads(
        match out.proposal {
            Some(p) => p.refs,
            None => Map::empty(),
        },
        stimulus.payload,
    );
}

/// A chat is named by a text as it stands or by a whole number in decimal, and by nothing else.
pub proof fn a_chat_is_a_text_or_a_number(payload: Tree)
    ensures
        json::member(payload, "chat_id"@) is None ==> chat_of(payload) is None,
        json::member(payload, "chat_id"@) matches Some(Tree::Text(s)) ==> chat_of(payload) == Some(s),
        json::member(payload, "chat_id"@) matches Some(Tree::Int(n)) ==> (i64::MIN <= n <= i64::MAX
            ==> chat_of(payload) == Some(text::decimal(n))),
        json::member(payload, "chat_id"@) matches Some(c) ==> (c is Null || c is Bool || c is Array || c is Object
            ==> chat_of(payload) is None),
{
}

/// The message that a branch answers is the first of the batch with the wanted id under one of the key
/// fields; where there is none, or the branch names none, there is no such message.
pub proof fn the_first_message_with_the_id_is_answered(
    payload: Tree,
    items: Seq<Tree>,
    keys: Seq<Seq<char>>,
    want: Seq<char>,
    i: int,
)
    requires
        json::member(payload, "items"@) == Some(Tree::Array(items)),
        0 <= i <= items.len(),
        forall|k: int, j: int|
            0 <= k < i && 0 <= j < keys.len() ==> !(json::member(#[trigger] items[k], #[trigger] keys[j]) matches Some(
                v,
            ) && json::plain(v) == want),
    ensures
        reply_scope(payload, keys, None) is None,
        i == items.len() ==> reply_scope(payload, keys, Some(want)) is None,
        i < items.len() && (exists|j: int|
            0 <= j < keys.len() && (json::member(items[i], #[trigger] keys[j]) matches Some(v) && json::plain(v)
                == want)) ==> reply_scope(payload, keys, Some(want)) == Some(items[i]),
{
    lemma_first_answer_at(items, keys, want, i);
}

proof fn lemma_first_answer_at(items: Seq<Tree>, keys: Seq<Seq<char>>, want: Seq<char>, i: int)
    requires
        0 <= i <= items.len(),
        forall|k: int| 0 <= k < i ==> !answers(#[trigger] items[k], keys, want),
    ensures
        i == items.len() ==> first_answer(items, keys, want) is None,
        i < items.len() && answers(items[i], keys, want) ==> first_answer(items, keys, want) == Some(items[i]),
    decreases items.len(),
{
    if i > 0 {
        let d = items.drop_first();
        assert(!answers(items[0], keys, want));
        assert forall|k: int| 0 <= k < i - 1 implies !answers(#[trigger] d[k], keys, want) by {
            assert(d[k] == items[k + 1]);
        }
        lemma_first_answer_at(d, keys, want, i - 1);
        if i < items.len() {
            assert(d[i - 1] == items[i]);
        }
    }
}

/// Where a reply to a payload as a whole goes: to those of its members that are neither arrays nor
/// objects, all of them and as they stand; nowhere where it has none.
pub proof fn a_reply_goes_by_the_scalars(payload: Tree, m: Map<Seq<char>, Tree>, k: Seq<char>)
    ensures
        !(payload is Object) ==> origin_scope(payload) is None,
        m.contains_key(k) && !(m[k] is Array) && !(m[k] is Object) ==> (origin_scope(
            Tree::Object(m),
        ) matches Some(Tree::Object(r)) && r.contains_key(k) && r[k] == m[k]),
        origin_scope(Tree::Object(m)) matches Some(t) ==> (t matches Tree::Object(r) && r != Map::<
            Seq<char>,
            Tree,
        >::empty() && (r.contains_key(k) ==> m.contains_key(k) && r[k] == m[k] && !(m[k] is Array) && !(
        m[k] is Object))),
{
    let r = scalar_members(m);
    if m.contains_key(k) && !(m[k] is Array) && !(m[k] is Object) {
        assert(r.contains_key(k));
    }
}

/// A deferred branch goes into the queue as a stimulus of its own: of its origin's source, conversation
/// and directive trust, with the trust that the branch has left, unsigned and without a directive,
/// pending, at the time and under the prompt it is given.
pub proof fn a_deferred_branch_is_a_stimulus_of_its_own(
    origin: StimulusView,
    dest: Seq<char>,
    baton: BatonView,
    trust: Seq<char>,
    priority: Priority,
    depth: int,
    seq: int,
    now: i64,
    chosen: Option<Tree>,
)
    ensures
        ({
            let s = continuation_of(origin, dest, baton, trust, priority, depth, seq, now, chosen);
            &&& s.id == origin.id + "-b"@ + text::decimal(seq)
            &&& s.source == origin.source
            &&& s.dedup_key == origin.dedup_key
            &&& s.type_ == "baton-continuation"@
            &&& s.directive_tier == origin.directive_tier
            &&& s.payload_tier == trust
            &&& s.provenance is None
            &&& s.directive_body.len() == 0
            &&& s.received_at == now
            &&& s.pop_after is None
            &&& s.priority == priority
            &&& s.status == StimulusStatus::Pending
            &&& s.attempts == 0
            &&& s.entry == dest
        }),
{
}

/// What a baton needs: its gist, both trusts and its log entry as texts. Its thoughts are none where
/// they are absent, its refs and tags are empty there, and where they stand each of them is a text.
pub proof fn what_reads_as_a_baton(t: Tree)
    ensures
        baton_of(t) matches Some(b) ==> {
            &&& json::text_member(t, "gist"@) == Some(b.gist)
            &&& json::text_member(t, "directive_tier"@) == Some(b.directive_tier)
            &&& json::text_member(t, "payload_tier"@) == Some(b.payload_tier)
            &&& json::text_member(t, "runlog_ref"@) == Some(b.runlog_ref)
            &&& json::member(t, "thoughts"@) is None ==> b.thoughts.len() == 0
            &&& json::member(t, "thoughts"@) is Some ==> json::text_member(t, "thoughts"@) == Some(b.thoughts)
            &&& json::member(t, "refs"@) is None ==> b.refs == Map::<Seq<char>, Seq<char>>::empty()
            &&& json::member(t, "refs"@) matches Some(r) ==> r == Tree::Object(
                b.refs.map_values(|s: Seq<char>| Tree::Text(s)),
            )
            &&& json::member(t, "tags"@) is None ==> b.tags.len() == 0
            &&& json::member(t, "tags"@) matches Some(r) ==> r == Tree::Array(
                b.tags.map_values(|s: Seq<char>| Tree::Text(s)),
            )
        },
{
    if let Some(b) = baton_of(t) {
        if let Some(Tree::Object(m)) = json::member(t, "refs"@) {
            assert(m == b.refs.map_values(|s: Seq<char>| Tree::Text(s))) by {
                assert forall|k: Seq<char>| #[trigger] m.dom().contains(k) implies m[k] == Tree::Text(b.refs[k]) by {}
            }
        }
        if let Some(Tree::Array(a)) = json::member(t, "tags"@) {
            assert(a == b.tags.map_values(|s: Seq<char>| Tree::Text(s))) by {
                assert forall|i: int| 0 <= i < a.len() implies a[i] == Tree::Text(b.tags[i]) by {
                    assert(a[i] is Text);
                }
            }
        }
    }
}

/// What counts as a deferred branch: a stimulus of that type with a readable baton. Its depth is the
/// whole number it gives, else none; its reply goes to the scope it gives, and nowhere where that is
/// absent or null.
pub proof fn what_a_deferred_branch_carries(s: StimulusView)
    ensures
        s.type_ != "baton-continuation"@ ==> carried(s) is None,
        json::member(s.payload, "baton"@) is None ==> carried(s) is None,
        json::member(s.payload, "baton"@) matches Some(t) ==> (baton_of(t) is None ==> carried(s) is None),
        s.type_ == "baton-continuation"@ ==> (json::member(s.payload, "baton"@) matches Some(t) ==> (baton_of(
            t,
        ) matches Some(b) ==> {
            &&& carried(s) matches Some(c)
            &&& c.0 == b
            &&& json::member(s.payload, "depth"@) is None ==> c.1 == 0
            &&& json::member(s.payload, "depth"@) matches Some(d) ==> {
                &&& d matches Tree::Int(n) ==> (0 <= n <= u64::MAX ==> c.1 == n)
                &&& !(d is Int) ==> c.1 == 0
            }
            &&& json::member(s.payload, "scope"@) is None ==> c.2 is None
            &&& json::member(s.payload, "scope"@) == Some(Tree::Null) ==> c.2 is None
            &&& json::member(s.payload, "scope"@) matches Some(x) ==> (!(x is Null) ==> c.2 == Some(x))
        })),
{
}

} // verus!
