//! Sticky sessions: when a wake goes on in a session that an earlier wake left, and when it starts
//! a fresh one.

use vstd::prelude::*;

use crate::harness::Harness;
use crate::json;
use crate::model::stimulus::Stimulus;
use crate::model::stimulus::StimulusView;
use crate::prompt::StatePrompt;
use crate::text;
use crate::trust::TrustTier;

verus! {

/// A session that may be resumed: its id, and when it last woke.
#[derive(Debug)]
pub struct Session {
    pub id: String,
    pub last_used: i64,
}

impl Clone for Session {
    fn clone(&self) -> (r: Self)
        ensures
            r == *self,
    {
        Session { id: self.id.clone(), last_used: self.last_used }
    }
}

/// What a dimension of a session key is for a stimulus; `_` where it has none.
pub open spec fn dimension(d: Seq<char>, s: StimulusView) -> Seq<char> {
    let v = if d == "thread_id"@ {
        s.dedup_key
    } else if d == "author_id"@ {
        json::text_member(s.payload, "author_id"@)
    } else if d == "source"@ {
        Some(s.source)
    } else {
        None
    };
    match v {
        Some(x) => x,
        None => "_"@,
    }
}

/// The dimensions of a session key, resolved.
pub open spec fn resolved(dims: Seq<Seq<char>>, s: StimulusView) -> Seq<Seq<char>> {
    dims.map_values(|d: Seq<char>| d + "="@ + dimension(d, s))
}

/// The key of a session: the prompt, the trust of the cycle, and the resolved dimensions.
pub open spec fn session_key(id: Seq<char>, taint: Seq<char>, dims: Seq<Seq<char>>, s: StimulusView) -> Seq<char> {
    id + "|"@ + taint + "|"@ + text::joined(resolved(dims, s), ","@)
}

fn resolve_dimension(d: &str, stimulus: &Stimulus) -> (r: String)
    ensures
        r@ == dimension(d@, stimulus@),
{
    let v = if text::same(d, "thread_id") {
        text::opt_copy(&stimulus.dedup_key)
    } else if text::same(d, "author_id") {
        json::text_at(&stimulus.payload, "author_id")
    } else if text::same(d, "source") {
        Some(stimulus.source.clone())
    } else {
        None
    };
    match v {
        Some(x) => x,
        None => "_".to_owned(),
    }
}

/// The key under which a session is kept.
pub fn sticky_session_key(prompt_id: &str, taint: &TrustTier, dims: &[String], stimulus: &Stimulus) -> (r: String)
    ensures
        r@ == session_key(prompt_id@, taint@, text::views(dims@), stimulus@),
{
    let ghost ds = text::views(dims@);
    let ghost want = resolved(ds, stimulus@);
    let mut out: Vec<String> = Vec::new();
    let mut i: usize = 0;
    while i < dims.len()
        invariant
            i <= dims.len(),
            ds == text::views(dims@),
            want == resolved(ds, stimulus@),
            text::views(out@) == want.take(i as int),
        decreases dims.len() - i,
    {
        let mut p = dims[i].clone();
        p.append("=");
        let v = resolve_dimension(&dims[i], stimulus);
        p.append(&v);
        assert(p@ == want[i as int]);
        let ghost before = out@;
        out.push(p);
        assert(text::views(out@) == text::views(before).push(p@));
        i += 1;
        assert(text::views(out@) == want.take(i as int));
    }
    assert(want.take(i as int) == want);
    let mut r = prompt_id.to_owned();
    r.append("|");
    r.append(taint.name());
    r.append("|");
    let j = text::join(&out, ",");
    r.append(&j);
    r
}

proof fn lemma_first_bar(a: Seq<char>, b: Seq<char>, x: Seq<char>, y: Seq<char>)
    requires
        !a.contains('|'),
        !b.contains('|'),
        a + "|"@ + x == b + "|"@ + y,
    ensures
        a == b,
        x == y,
{
    reveal_strlit("|");
    let s = a + "|"@ + x;
    let t = b + "|"@ + y;
    assert(s[a.len() as int] == '|');
    assert(t[b.len() as int] == '|');
    if a.len() < b.len() {
        assert(t[a.len() as int] == b[a.len() as int]);
    } else if b.len() < a.len() {
        assert(s[b.len() as int] == a[b.len() as int]);
    }
    assert forall|i: int| 0 <= i < a.len() implies a[i] == b[i] by {
        assert(s[i] == a[i]);
        assert(t[i] == b[i]);
    }
    assert(a == b);
    assert(s.len() == a.len() + 1 + x.len());
    assert(t.len() == b.len() + 1 + y.len());
    assert forall|i: int| 0 <= i < x.len() implies x[i] == y[i] by {
        assert(s[a.len() + 1 + i] == x[i]);
        assert(t[a.len() + 1 + i] == y[i]);
    }
    assert(x == y);
}

/// Sessions are isolated: two wakes share a session only under the same prompt and the same trust.
/// The names of prompts and tiers hold no bar.
pub proof fn sessions_are_isolated(
    id1: Seq<char>,
    taint1: Seq<char>,
    dims1: Seq<Seq<char>>,
    s1: StimulusView,
    id2: Seq<char>,
    taint2: Seq<char>,
    dims2: Seq<Seq<char>>,
    s2: StimulusView,
)
    requires
        !id1.contains('|'),
        !taint1.contains('|'),
        !id2.contains('|'),
        !taint2.contains('|'),
        session_key(id1, taint1, dims1, s1) == session_key(id2, taint2, dims2, s2),
    ensures
        id1 == id2,
        taint1 == taint2,
        text::joined(resolved(dims1, s1), ","@) == text::joined(resolved(dims2, s2), ","@),
{
    let j1 = text::joined(resolved(dims1, s1), ","@);
    let j2 = text::joined(resolved(dims2, s2), ","@);
    let r1 = taint1 + "|"@ + j1;
    let r2 = taint2 + "|"@ + j2;
    assert(session_key(id1, taint1, dims1, s1) == id1 + "|"@ + r1);
    assert(session_key(id2, taint2, dims2, s2) == id2 + "|"@ + r2);
    lemma_first_bar(id1, id2, r1, r2);
    lemma_first_bar(taint1, taint2, j1, j2);
}

/// Two wakes of one prompt share a session only where every dimension of its key has the same value:
/// one thread never goes on in another's session. Among several dimensions no value holds the comma
/// that stands between them.
pub proof fn threads_do_not_share_a_session(
    id: Seq<char>,
    taint: Seq<char>,
    dims: Seq<Seq<char>>,
    s1: StimulusView,
    s2: StimulusView,
)
    requires
        session_key(id, taint, dims, s1) == session_key(id, taint, dims, s2),
        dims.len() > 1 ==> forall|i: int|
            0 <= i < dims.len() ==> !(#[trigger] resolved(dims, s1)[i]).contains(',') && !resolved(
                dims,
                s2,
            )[i].contains(','),
    ensures
        forall|i: int| 0 <= i < dims.len() ==> dimension(#[trigger] dims[i], s1) == dimension(dims[i], s2),
{
    reveal_strlit(",");
    let r1 = resolved(dims, s1);
    let r2 = resolved(dims, s2);
    let j1 = text::joined(r1, ","@);
    let j2 = text::joined(r2, ","@);
    let head = id + "|"@ + taint + "|"@;
    assert(j1 == (head + j1).skip(head.len() as int));
    assert(j2 == (head + j2).skip(head.len() as int));
    if dims.len() > 1 {
        assert(","@ == seq![',']);
        assert forall|i: int| 0 <= i < r2.len() implies !(#[trigger] r2[i]).contains(',') by {
            assert(!r1[i].contains(','));
        }
        text::lemma_joined_comes_apart(r1, ',', ","@);
        text::lemma_joined_comes_apart(r2, ',', ","@);
    } else if dims.len() == 1 {
        assert(j1 == r1[0] && j2 == r2[0]);
    }
    assert forall|i: int| 0 <= i < dims.len() implies dimension(#[trigger] dims[i], s1) == dimension(dims[i], s2) by {
        let k = dims[i] + "="@;
        assert(r1[i] == k + dimension(dims[i], s1));
        assert(r2[i] == k + dimension(dims[i], s2));
        assert(dimension(dims[i], s1) == (k + dimension(dims[i], s1)).skip(k.len() as int));
        assert(dimension(dims[i], s2) == (k + dimension(dims[i], s2)).skip(k.len() as int));
    }
}

/// The key of a step's session, where its prompt keeps one.
pub open spec fn kept_key(prompt: StatePrompt, trust: Seq<char>, s: StimulusView) -> Option<Seq<char>> {
    match prompt.session {
        Some(c) => if c.sticky {
            Some(session_key(prompt.id@, trust, text::views(c.key@), s))
        } else {
            None
        },
        None => None,
    }
}

/// The key of a step's session, where its prompt keeps one.
pub fn key_of_step(prompt: &StatePrompt, cycle_trust: &TrustTier, stimulus: &Stimulus) -> (r: Option<String>)
    ensures
        text::opt(r) == kept_key(*prompt, cycle_trust@, stimulus@),
{
    match &prompt.session {
        Some(c) => if c.sticky {
            Some(sticky_session_key(&prompt.id, cycle_trust, &c.key, stimulus))
        } else {
            None
        },
        None => None,
    }
}

/// Whether a session that last woke at `last` may still be resumed: always without a time to live.
pub open spec fn alive(ttl: i64, last: i64, now: i64) -> bool {
    ttl <= 0 || now - last < ttl
}

/// The session under a key that may be resumed.
pub open spec fn resumable(sessions: Map<Seq<char>, Session>, key: Seq<char>, ttl: i64, now: i64) -> Option<Session> {
    if sessions.dom().contains(key) && alive(ttl, sessions[key].last_used, now) {
        Some(sessions[key])
    } else {
        None
    }
}

/// The sessions after one was asked for: one that has grown stale is dropped.
pub open spec fn swept(sessions: Map<Seq<char>, Session>, key: Seq<char>, ttl: i64, now: i64) -> Map<Seq<char>, Session> {
    if resumable(sessions, key, ttl, now) is Some {
        sessions
    } else {
        sessions.remove(key)
    }
}

/// Whether a context has outgrown the cap.
pub open spec fn oversized(cap: Option<u64>, tokens: u64) -> bool {
    match cap {
        Some(c) => tokens > c,
        None => false,
    }
}

/// The contents of the sessions after a step: an outgrown one is dropped, else the one that ran is
/// kept under its key with the present time.
pub open spec fn settled(
    sessions: Map<Seq<char>, (Seq<char>, i64)>,
    key: Option<Seq<char>>,
    ran: Option<Seq<char>>,
    grown: bool,
    now: i64,
) -> Map<Seq<char>, (Seq<char>, i64)> {
    match key {
        Some(k) => if grown {
            sessions.remove(k)
        } else {
            match ran {
                Some(id) => sessions.insert(k, (id, now)),
                None => sessions,
            }
        },
        None => sessions,
    }
}

/// The contents of the sessions.
pub open spec fn session_views(m: Map<Seq<char>, Session>) -> Map<Seq<char>, (Seq<char>, i64)> {
    m.map_values(|s: Session| (s.id@, s.last_used))
}

impl Harness {
    /// The session under `key`, if it is still alive; a stale one is dropped.
    pub fn sticky_resume(&mut self, key: &str, now: i64) -> (r: Option<Session>)
        ensures
            r == resumable(old(self).sessions@, key@, old(self).config.session_ttl_secs, now),
            final(self).sessions@ == swept(old(self).sessions@, key@, old(self).config.session_ttl_secs, now),
            final(self).config == old(self).config,
            final(self).soul_did == old(self).soul_did,
    {
        let ttl: i64 = self.config.session_ttl_secs;
        let found = match self.sessions.get(key) {
            Some(s) => if ttl <= 0 || (now as i128 - s.last_used as i128) < ttl as i128 {
                Some(s.clone())
            } else {
                None
            },
            None => None,
        };
        if found.is_none() {
            let gone = self.sessions.remove(key);
        }
        found
    }

    /// Keeps the session that ran under `key`.
    pub fn sticky_store(&mut self, key: &str, session_id: &str, now: i64)
        ensures
            session_views(final(self).sessions@) == session_views(old(self).sessions@).insert(
                key@,
                (session_id@, now),
            ),
            final(self).config == old(self).config,
            final(self).soul_did == old(self).soul_did,
    {
        let ghost before = self.sessions@;
        let s = Session { id: session_id.to_owned(), last_used: now };
        self.sessions.insert(key, s);
        assert(session_views(self.sessions@) == session_views(before).insert(key@, (session_id@, now)));
    }

    /// Settles the session of a step that has run: drops it where its context has outgrown the cap,
    /// so that the next wake starts fresh, and keeps it otherwise.
    pub fn settle_session(&mut self, key: Option<&str>, ran: Option<&str>, context_tokens: u64, now: i64)
        ensures
            session_views(final(self).sessions@) == settled(
                session_views(old(self).sessions@),
                text::opt_str(key),
                text::opt_str(ran),
                oversized(old(self).config.session_max_context_tokens, context_tokens),
                now,
            ),
            final(self).config == old(self).config,
            final(self).soul_did == old(self).soul_did,
    {
        let grown = match self.config.session_max_context_tokens {
            Some(cap) => context_tokens > cap,
            None => false,
        };
        if let Some(k) = key {
            if grown {
                let ghost before = self.sessions@;
                let gone = self.sessions.remove(k);
                assert(session_views(self.sessions@) == session_views(before).remove(k@));
            } else if let Some(id) = ran {
                self.sticky_store(k, id, now);
            }
        }
    }
}

/// A kept session is found again within its time to live, with the time it last woke.
pub proof fn a_kept_session_is_resumed(
    sessions: Map<Seq<char>, Session>,
    key: Seq<char>,
    s: Session,
    ttl: i64,
    now: i64,
)
    requires
        alive(ttl, s.last_used, now),
    ensures
        resumable(sessions.insert(key, s), key, ttl, now) == Some(s),
{
}

/// A session past its time to live, or one that was dropped, is not resumed.
pub proof fn a_stale_session_starts_fresh(
    sessions: Map<Seq<char>, Session>,
    key: Seq<char>,
    ttl: i64,
    now: i64,
    later: i64,
)
    requires
        resumable(sessions, key, ttl, now) is None,
    ensures
        resumable(swept(sessions, key, ttl, now), key, ttl, later) is None,
        !settled(session_views(sessions), Some(key), None, true, now).dom().contains(key),
{
}

/// Each dimension of a session's key is what its name says of the stimulus: the conversation, the
/// author that the payload names, or the source; a name that is none of these, and a thing that is not
/// given, stand as a bar.
pub proof fn a_dimension_is_what_it_names(d: Seq<char>, s: StimulusView)
    ensures
        dimension("thread_id"@, s) == (match s.dedup_key {
            Some(k) => k,
            None => "_"@,
        }),
        dimension("author_id"@, s) == (match json::text_member(s.payload, "author_id"@) {
            Some(a) => a,
            None => "_"@,
        }),
        dimension("source"@, s) == s.source,
        d != "thread_id"@ && d != "author_id"@ && d != "source"@ ==> dimension(d, s) == "_"@,
{
    reveal_strlit("thread_id");
    reveal_strlit("author_id");
    reveal_strlit("source");
    assert("thread_id"@[0] == 't' && "author_id"@[0] == 'a' && "source"@[0] == 's');
}

/// A session is kept under the prompt, the trust of the cycle and the dimensions in their order; only a
/// prompt that asks for it keeps one.
pub proof fn a_session_is_kept_where_it_is_asked_for(prompt: StatePrompt, trust: Seq<char>, s: StimulusView)
    ensures
        prompt.session is None ==> kept_key(prompt, trust, s) is None,
        prompt.session matches Some(c) ==> (!c.sticky ==> kept_key(prompt, trust, s) is None),
        prompt.session matches Some(c) ==> (c.sticky ==> kept_key(prompt, trust, s) == Some(
            prompt.id@ + "|"@ + trust + "|"@ + text::joined(
                Seq::new(
                    c.key@.len(),
                    |i: int| c.key@[i]@ + "="@ + dimension(c.key@[i]@, s),
                ),
                ","@,
            ),
        )),
{
    if let Some(c) = prompt.session {
        let dims = text::views(c.key@);
        assert(resolved(dims, s) == Seq::new(
            c.key@.len(),
            |i: int| c.key@[i]@ + "="@ + dimension(c.key@[i]@, s),
        ));
    }
}

/// A session may be resumed until its time to live has passed since it last woke, and for ever where
/// there is no time to live. One that was asked for and is past it is dropped, and no other one is.
pub proof fn a_session_lives_its_time(
    sessions: Map<Seq<char>, Session>,
    key: Seq<char>,
    other: Seq<char>,
    ttl: i64,
    now: i64,
)
    ensures
        !sessions.contains_key(key) ==> resumable(sessions, key, ttl, now) is None,
        sessions.contains_key(key) && (ttl <= 0 || now < sessions[key].last_used + ttl) ==> resumable(
            sessions,
            key,
            ttl,
            now,
        ) == Some(sessions[key]) && swept(sessions, key, ttl, now) == sessions,
        sessions.contains_key(key) && ttl > 0 && now >= sessions[key].last_used + ttl ==> resumable(
            sessions,
            key,
            ttl,
            now,
        ) is None && !swept(sessions, key, ttl, now).contains_key(key),
        other != key ==> (swept(sessions, key, ttl, now).contains_key(other) <==> sessions.contains_key(other)),
        other != key && sessions.contains_key(other) ==> swept(sessions, key, ttl, now)[other] == sessions[other],
{
}

/// A step leaves its session under its key, with the present time; one that has outgrown the cap is
/// dropped. Nothing else changes, and nothing at all where no session is kept or none ran.
pub proof fn a_step_leaves_its_session(
    sessions: Map<Seq<char>, (Seq<char>, i64)>,
    key: Seq<char>,
    other: Seq<char>,
    id: Seq<char>,
    ran: Option<Seq<char>>,
    grown: bool,
    now: i64,
)
    ensures
        settled(sessions, None, ran, grown, now) == sessions,
        !grown ==> settled(sessions, Some(key), None, grown, now) == sessions,
        !grown ==> settled(sessions, Some(key), Some(id), grown, now).contains_pair(key, (id, now)),
        grown ==> !settled(sessions, Some(key), ran, grown, now).contains_key(key),
        other != key ==> (settled(sessions, Some(key), ran, grown, now).contains_key(other) <==> sessions.contains_key(
            other,
        )),
        other != key && sessions.contains_key(other) ==> settled(sessions, Some(key), ran, grown, now)[other]
            == sessions[other],
{
}

/// A context has outgrown the cap where it is larger, and never where there is no cap.
pub proof fn a_context_outgrows_its_cap(cap: u64, tokens: u64)
    ensures
        !oversized(None, tokens),
        oversized(Some(cap), tokens) <==> cap < tokens,
{
}

} // verus!
