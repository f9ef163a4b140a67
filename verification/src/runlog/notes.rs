//! The tag-notes catalogue: one JSON line a note, newest last.

use serde_json::Value;
use vstd::prelude::*;

use crate::json;
use crate::json::Tree;
use crate::text;

verus! {

/// One note of the catalogue.
#[derive(Debug)]
pub struct TagNoteRecord {
    pub tag: String,
    pub note: String,
    pub trust: String,
    pub timestamp: i64,
    /// Of a note that stands for its tag: how many other notes the tag has.
    pub dupes: usize,
}

/// The contents of a note.
#[verifier::ext_equal]
pub struct NoteView {
    pub tag: Seq<char>,
    pub note: Seq<char>,
    pub trust: Seq<char>,
    pub timestamp: int,
    pub dupes: int,
}

impl View for TagNoteRecord {
    type V = NoteView;

    open spec fn view(&self) -> NoteView {
        NoteView {
            tag: self.tag@,
            note: self.note@,
            trust: self.trust@,
            timestamp: self.timestamp as int,
            dupes: self.dupes as int,
        }
    }
}

/// The contents of several notes.
pub open spec fn note_views(v: Seq<TagNoteRecord>) -> Seq<NoteView> {
    v.map_values(|n: TagNoteRecord| n@)
}

/// A text member, or nothing.
pub open spec fn text_or_empty(t: Tree, key: Seq<char>) -> Seq<char> {
    match json::text_member(t, key) {
        Some(s) => s,
        None => Seq::empty(),
    }
}

/// The note that a value stands for: one with a tag.
pub open spec fn note_in(t: Tree) -> Option<NoteView> {
    match json::text_member(t, "tag"@) {
        Some(tag) => Some(
            NoteView {
                tag,
                note: text_or_empty(t, "note"@),
                trust: text_or_empty(t, "trust"@),
                timestamp: match json::member(t, "timestamp"@) {
                    Some(x) => match json::int_within(x, i64::MIN as int, i64::MAX as int) {
                        Some(n) => n,
                        None => 0,
                    },
                    None => 0,
                },
                dupes: 0,
            },
        ),
        None => None,
    }
}

/// The note on a line.
pub open spec fn note_on(line: Seq<char>) -> Option<NoteView> {
    if text::blank(line) {
        None
    } else {
        match json::parsed(line) {
            Some(t) => note_in(t),
            None => None,
        }
    }
}

/// The notes on some lines.
pub open spec fn notes_on(lines: Seq<Seq<char>>) -> Seq<NoteView>
    decreases lines.len(),
{
    if lines.len() == 0 {
        Seq::empty()
    } else {
        match note_on(lines.last()) {
            Some(n) => notes_on(lines.drop_last()).push(n),
            None => notes_on(lines.drop_last()),
        }
    }
}

/// All notes of a catalogue.
pub open spec fn all_notes(s: Seq<char>) -> Seq<NoteView> {
    notes_on(text::lines(s))
}

/// The notes that pass the gates: later than `since`, of that tag.
pub open spec fn gated(notes: Seq<NoteView>, since: Option<i64>, tag: Option<Seq<char>>) -> Seq<NoteView>
    decreases notes.len(),
{
    if notes.len() == 0 {
        Seq::empty()
    } else {
        let rest = gated(notes.drop_last(), since, tag);
        let n = notes.last();
        if (since matches Some(s) ==> n.timestamp > s) && (tag matches Some(t) ==> n.tag == t) {
            rest.push(n)
        } else {
            rest
        }
    }
}

/// Whether a later note has the same tag.
pub open spec fn superseded(notes: Seq<NoteView>, i: int) -> bool {
    exists|j: int| i < j < notes.len() && (#[trigger] notes[j]).tag == notes[i].tag
}

/// How many notes have that tag.
pub open spec fn count(notes: Seq<NoteView>, tag: Seq<char>) -> int
    decreases notes.len(),
{
    if notes.len() == 0 {
        0
    } else {
        count(notes.drop_last(), tag) + if notes.last().tag == tag {
            1int
        } else {
            0
        }
    }
}

/// Of the first `n` notes those that no later one supersedes, each with how many others its tag has.
pub open spec fn latest(notes: Seq<NoteView>, n: int) -> Seq<NoteView>
    decreases n,
{
    if n <= 0 {
        Seq::empty()
    } else if superseded(notes, n - 1) {
        latest(notes, n - 1)
    } else {
        latest(notes, n - 1).push(
            NoteView { dupes: count(notes, notes[n - 1].tag) - 1, ..notes[n - 1] },
        )
    }
}

/// The notes that a reader asks for: gated, the latest of each tag if wanted, the last `max` of them
/// unless `max` is 0.
pub open spec fn selected(
    s: Seq<char>,
    since: Option<i64>,
    tag: Option<Seq<char>>,
    latest_per_tag: bool,
    max: int,
) -> Seq<NoteView> {
    let g = gated(all_notes(s), since, tag);
    let l = if latest_per_tag {
        latest(g, g.len() as int)
    } else {
        g
    };
    if max > 0 {
        text::last_of(l, max)
    } else {
        l
    }
}

fn or_empty(s: Option<String>) -> (r: String)
    ensures
        r@ == (match text::opt(s) {
            Some(t) => t,
            None => Seq::empty(),
        }),
{
    match s {
        Some(t) => t,
        None => String::new(),
    }
}

fn read_line(line: &str) -> (r: Option<TagNoteRecord>)
    ensures
        (match r {
            Some(n) => note_on(line@) == Some(n@),
            None => note_on(line@) is None,
        }),
{
    if text::trim(line).as_str().is_empty() {
        return None;
    }
    let v = match json::parse(line) {
        Some(v) => v,
        None => {
            return None;
        },
    };
    let tag = match json::text_at(&v, "tag") {
        Some(t) => t,
        None => {
            return None;
        },
    };
    let note = or_empty(json::text_at(&v, "note"));
    let trust = or_empty(json::text_at(&v, "trust"));
    let timestamp: i64 = match json::get(&v, "timestamp") {
        Some(x) => match json::as_i64(x) {
            Some(n) => n,
            None => 0,
        },
        None => 0,
    };
    Some(TagNoteRecord { tag, note, trust, timestamp, dupes: 0 })
}

fn read_all(s: &str) -> (r: Vec<TagNoteRecord>)
    ensures
        note_views(r@) == all_notes(s@),
        forall|i: int| 0 <= i < r@.len() ==> (#[trigger] r@[i]).dupes == 0,
{
    let lines = text::lines_of(s);
    let ghost all = text::views(lines@);
    let mut r: Vec<TagNoteRecord> = Vec::new();
    let mut i: usize = 0;
    assert(note_views(r@) == notes_on(all.take(0)));
    while i < lines.len()
        invariant
            i <= lines.len(),
            all == text::views(lines@),
            note_views(r@) == notes_on(all.take(i as int)),
            forall|k: int| 0 <= k < r@.len() ==> (#[trigger] r@[k]).dupes == 0,
        decreases lines.len() - i,
    {
        assert(all.take(i + 1).drop_last() == all.take(i as int));
        assert(all.take(i + 1).last() == lines@[i as int]@);
        if let Some(n) = read_line(&lines[i]) {
            let ghost before = r@;
            r.push(n);
            assert(n@.dupes == 0);
            assert(note_views(r@) == note_views(before).push(n@));
        }
        i += 1;
    }
    assert(all.take(i as int) == all);
    r
}

fn keep_gated(notes: Vec<TagNoteRecord>, since: Option<i64>, tag: Option<&str>) -> (r: Vec<TagNoteRecord>)
    ensures
        note_views(r@) == gated(note_views(notes@), since, text::opt_str(tag)),
{
    let ghost all = note_views(notes@);
    let mut notes = notes;
    let n: usize = notes.len();
    let mut r: Vec<TagNoteRecord> = Vec::new();
    let mut i: usize = 0;
    assert(note_views(r@) == gated(all.take(0), since, text::opt_str(tag)));
    assert(all.skip(0) == all);
    while i < n
        invariant
            i <= n,
            n == all.len(),
            note_views(notes@) == all.skip(i as int),
            note_views(r@) == gated(all.take(i as int), since, text::opt_str(tag)),
        decreases n - i,
    {
        let ghost left = notes@;
        assert(note_views(left).len() == left.len());
        let x = notes.remove(0);
        assert(note_views(left)[0] == x@);
        assert(all.skip(i as int)[0] == all[i as int]);
        assert(note_views(notes@) == note_views(left).drop_first());
        assert(all.skip(i as int).drop_first() == all.skip(i + 1));
        assert(all.take(i + 1).drop_last() == all.take(i as int));
        assert(all.take(i + 1).last() == x@);
        let in_time = match since {
            Some(s) => x.timestamp > s,
            None => true,
        };
        let tagged = match tag {
            Some(t) => text::same(&x.tag, t),
            None => true,
        };
        if in_time && tagged {
            let ghost before = r@;
            r.push(x);
            assert(note_views(r@) == note_views(before).push(x@));
        }
        i += 1;
    }
    assert(all.take(i as int) == all);
    r
}

fn count_tag(notes: &[TagNoteRecord], tag: &str) -> (r: usize)
    ensures
        r == count(note_views(notes@), tag@),
{
    let ghost all = note_views(notes@);
    let mut c: usize = 0;
    let mut i: usize = 0;
    while i < notes.len()
        invariant
            i <= notes.len(),
            all == note_views(notes@),
            c == count(all.take(i as int), tag@),
            c <= i,
        decreases notes.len() - i,
    {
        assert(all.take(i + 1).drop_last() == all.take(i as int));
        assert(all.take(i + 1).last() == notes@[i as int]@);
        if text::same(&notes[i].tag, tag) {
            c += 1;
        }
        i += 1;
    }
    assert(all.take(i as int) == all);
    c
}

fn is_superseded(notes: &[TagNoteRecord], k: usize) -> (r: bool)
    requires
        k < notes@.len(),
    ensures
        r == superseded(note_views(notes@), k as int),
{
    let ghost all = note_views(notes@);
    let n: usize = notes.len();
    let mut i: usize = k + 1;
    while i < n
        invariant
            k < i <= n == notes@.len(),
            all == note_views(notes@),
            forall|j: int| k < j < i ==> (#[trigger] all[j]).tag != all[k as int].tag,
        decreases n - i,
    {
        assert(all[i as int] == notes@[i as int]@);
        assert(all[k as int] == notes@[k as int]@);
        if text::same(&notes[i].tag, &notes[k].tag) {
            return true;
        }
        i += 1;
    }
    false
}

proof fn lemma_count_positive(notes: Seq<NoteView>, i: int)
    requires
        0 <= i < notes.len(),
    ensures
        count(notes, notes[i].tag) >= 1,
    decreases notes.len(),
{
    lemma_count_nonnegative(notes.drop_last(), notes[i].tag);
    if i < notes.len() - 1 {
        assert(notes.drop_last()[i] == notes[i]);
        lemma_count_positive(notes.drop_last(), i);
    }
}

proof fn lemma_count_nonnegative(notes: Seq<NoteView>, tag: Seq<char>)
    ensures
        count(notes, tag) >= 0,
    decreases notes.len(),
{
    if notes.len() > 0 {
        lemma_count_nonnegative(notes.drop_last(), tag);
    }
}

fn keep_latest(notes: &[TagNoteRecord]) -> (r: Vec<TagNoteRecord>)
    ensures
        note_views(r@) == latest(note_views(notes@), notes@.len() as int),
{
    let ghost all = note_views(notes@);
    let mut r: Vec<TagNoteRecord> = Vec::new();
    let mut i: usize = 0;
    assert(note_views(r@) == latest(all, 0));
    while i < notes.len()
        invariant
            i <= notes.len(),
            all == note_views(notes@),
            note_views(r@) == latest(all, i as int),
        decreases notes.len() - i,
    {
        assert(all[i as int] == notes@[i as int]@);
        if !is_superseded(notes, i) {
            let c: usize = count_tag(notes, &notes[i].tag);
            proof {
                lemma_count_positive(all, i as int);
            }
            let n = TagNoteRecord {
                tag: notes[i].tag.clone(),
                note: notes[i].note.clone(),
                trust: notes[i].trust.clone(),
                timestamp: notes[i].timestamp,
                dupes: c - 1,
            };
            let ghost before = r@;
            r.push(n);
            assert(note_views(r@) == note_views(before).push(n@));
        }
        i += 1;
    }
    r
}

/// Reads notes from the catalogue, newest last.
pub fn tag_notes(
    catalogue: &str,
    since: Option<i64>,
    tag: Option<&str>,
    latest_per_tag: bool,
    max: usize,
) -> (r: Vec<TagNoteRecord>)
    ensures
        note_views(r@) == selected(catalogue@, since, text::opt_str(tag), latest_per_tag, max as int),
{
    let mut notes = keep_gated(read_all(catalogue), since, tag);
    if latest_per_tag {
        assert(note_views(notes@).len() == notes@.len());
        notes = keep_latest(&notes);
    }
    let n: usize = notes.len();
    assert(note_views(notes@).len() == n);
    if max > 0 && n > max {
        let ghost before = notes@;
        let r = notes.split_off(n - max);
        assert(note_views(r@) == note_views(before).skip(n - max));
        r
    } else {
        notes
    }
}

/// The places, among the first `n` notes, of those that no later one supersedes.
pub open spec fn last_places(notes: Seq<NoteView>, n: int) -> Seq<int>
    decreases n,
{
    if n <= 0 {
        Seq::empty()
    } else if superseded(notes, n - 1) {
        last_places(notes, n - 1)
    } else {
        last_places(notes, n - 1).push(n - 1)
    }
}

/// How many notes some collapsed ones stand for: each for itself and for the others of its tag.
pub open spec fn stood_for(notes: Seq<NoteView>) -> int
    decreases notes.len(),
{
    if notes.len() == 0 {
        0
    } else {
        stood_for(notes.drop_last()) + notes.last().dupes + 1
    }
}

proof fn lemma_last_places(notes: Seq<NoteView>, n: int)
    requires
        0 <= n <= notes.len(),
    ensures
        last_places(notes, n).len() == latest(notes, n).len(),
        forall|k: int|
            0 <= k < latest(notes, n).len() ==> {
                let i = #[trigger] last_places(notes, n)[k];
                &&& 0 <= i < n
                &&& !superseded(notes, i)
                &&& latest(notes, n)[k] == (NoteView { dupes: count(notes, notes[i].tag) - 1, ..notes[i] })
            },
        forall|a: int, b: int|
            0 <= a < b < last_places(notes, n).len() ==> #[trigger] last_places(notes, n)[a]
                < #[trigger] last_places(notes, n)[b],
        forall|i: int| 0 <= i < n && !superseded(notes, i) ==> #[trigger] last_places(notes, n).contains(i),
    decreases n,
{
    if n > 0 {
        lemma_last_places(notes, n - 1);
        let (p, q) = (last_places(notes, n), last_places(notes, n - 1));
        assert forall|i: int| 0 <= i < n && !superseded(notes, i) implies #[trigger] p.contains(i) by {
            if i < n - 1 {
                assert(q.contains(i));
                let k = choose|k: int| 0 <= k < q.len() && q[k] == i;
                assert(p[k] == i);
            } else {
                assert(p[p.len() - 1] == i);
            }
        }
    }
}

/// The last note of the tag of note `m`.
proof fn lemma_last_of_tag(notes: Seq<NoteView>, m: int) -> (p: int)
    requires
        0 <= m < notes.len(),
    ensures
        m <= p < notes.len(),
        notes[p].tag == notes[m].tag,
        !superseded(notes, p),
    decreases notes.len() - m,
{
    if superseded(notes, m) {
        let j = choose|j: int| m < j < notes.len() && (#[trigger] notes[j]).tag == notes[m].tag;
        lemma_last_of_tag(notes, j)
    } else {
        m
    }
}

/// How many of the first `m` notes have the tag of one of the first `n` that no later one supersedes.
spec fn covered(notes: Seq<NoteView>, n: int, m: int) -> int
    decreases n,
{
    if n <= 0 {
        0
    } else if superseded(notes, n - 1) {
        covered(notes, n - 1, m)
    } else {
        covered(notes, n - 1, m) + count(notes.take(m), notes[n - 1].tag)
    }
}

proof fn lemma_covered_by_one_more(notes: Seq<NoteView>, n: int, m: int, p: int)
    requires
        0 <= n <= notes.len(),
        0 <= m < notes.len(),
        0 <= p < notes.len(),
        notes[p].tag == notes[m].tag,
        !superseded(notes, p),
    ensures
        covered(notes, n, m + 1) == covered(notes, n, m) + if p < n {
            1int
        } else {
            0
        },
    decreases n,
{
    if n > 0 {
        lemma_covered_by_one_more(notes, n - 1, m, p);
        let i = n - 1;
        assert(notes.take(m + 1).drop_last() == notes.take(m));
        assert(notes.take(m + 1).last() == notes[m]);
        if !superseded(notes, i) && notes[i].tag == notes[m].tag {
            if i < p {
                assert(notes[p].tag == notes[i].tag);
            } else if p < i {
                assert(notes[i].tag == notes[p].tag);
            }
        }
    }
}

proof fn lemma_all_covered(notes: Seq<NoteView>, m: int)
    requires
        0 <= m <= notes.len(),
    ensures
        covered(notes, notes.len() as int, m) == m,
    decreases m,
{
    if m == 0 {
        lemma_none_covered(notes, notes.len() as int);
    } else {
        lemma_all_covered(notes, m - 1);
        let p = lemma_last_of_tag(notes, m - 1);
        lemma_covered_by_one_more(notes, notes.len() as int, m - 1, p);
    }
}

proof fn lemma_none_covered(notes: Seq<NoteView>, n: int)
    requires
        0 <= n <= notes.len(),
    ensures
        covered(notes, n, 0) == 0,
    decreases n,
{
    if n > 0 {
        lemma_none_covered(notes, n - 1);
        assert(notes.take(0).len() == 0);
    }
}

proof fn lemma_stood_for(notes: Seq<NoteView>, n: int)
    requires
        0 <= n <= notes.len(),
    ensures
        stood_for(latest(notes, n)) == covered(notes, n, notes.len() as int),
    decreases n,
{
    if n > 0 {
        lemma_stood_for(notes, n - 1);
        assert(notes.take(notes.len() as int) == notes);
        if !superseded(notes, n - 1) {
            assert(latest(notes, n).drop_last() == latest(notes, n - 1));
        }
    }
}

/// Collapsed to the latest of each tag, the notes stand for all of them: each is the last of its tag,
/// with how many others the tag has, in the order of the uncollapsed ones; no tag stands twice and
/// none is lost; and together they count every note once.
pub proof fn the_latest_of_a_tag_stands_for_it(s: Seq<char>, since: Option<i64>, tag: Option<Seq<char>>)
    ensures
        ({
            let all = selected(s, since, tag, false, 0);
            let kept = selected(s, since, tag, true, 0);
            let places = last_places(all, all.len() as int);
            &&& places.len() == kept.len()
            &&& forall|a: int, b: int|
                0 <= a < b < places.len() ==> #[trigger] places[a] < #[trigger] places[b]
            &&& forall|k: int|
                0 <= k < kept.len() ==> {
                    let i = #[trigger] places[k];
                    &&& 0 <= i < all.len()
                    &&& !superseded(all, i)
                    &&& kept[k] == (NoteView { dupes: count(all, all[i].tag) - 1, ..all[i] })
                }
            &&& forall|a: int, b: int|
                0 <= a < b < kept.len() ==> (#[trigger] kept[a]).tag != (#[trigger] kept[b]).tag
            &&& forall|i: int|
                0 <= i < all.len() ==> exists|k: int|
                    0 <= k < kept.len() && (#[trigger] kept[k]).tag == (#[trigger] all[i]).tag
            &&& stood_for(kept) == all.len()
        }),
{
    let all = selected(s, since, tag, false, 0);
    let kept = selected(s, since, tag, true, 0);
    let n = all.len() as int;
    let places = last_places(all, n);
    lemma_last_places(all, n);
    assert forall|a: int, b: int| 0 <= a < b < kept.len() implies (#[trigger] kept[a]).tag != (
    #[trigger] kept[b]).tag by {
        let (i, j) = (places[a], places[b]);
        assert(i < j);
        if kept[a].tag == kept[b].tag {
            assert(all[j].tag == all[i].tag);
        }
    }
    assert forall|i: int| 0 <= i < all.len() implies exists|k: int|
        0 <= k < kept.len() && (#[trigger] kept[k]).tag == (#[trigger] all[i]).tag by {
        let p = lemma_last_of_tag(all, i);
        assert(places.contains(p));
        let k = choose|k: int| 0 <= k < places.len() && places[k] == p;
        assert(kept[k].tag == all[i].tag);
    }
    lemma_stood_for(all, n);
    lemma_all_covered(all, n);
}

/// A cap keeps the last notes of what is read without one, as they are.
pub proof fn a_cap_keeps_the_last_notes(
    s: Seq<char>,
    since: Option<i64>,
    tag: Option<Seq<char>>,
    latest_per_tag: bool,
    max: int,
)
    requires
        max > 0,
    ensures
        ({
            let all = selected(s, since, tag, latest_per_tag, 0);
            let kept = selected(s, since, tag, latest_per_tag, max);
            &&& kept.len() == if max < all.len() {
                max
            } else {
                all.len() as int
            }
            &&& kept == all.skip(all.len() - kept.len())
        }),
{
    let all = selected(s, since, tag, latest_per_tag, 0);
    assert(all.skip(0) == all);
}

/// How a note stands on its line.
pub open spec fn note_tree(tag: Seq<char>, note: Seq<char>, trust: Seq<char>, timestamp: int) -> Tree {
    Tree::Object(
        map![
            "tag"@ => Tree::Text(tag),
            "note"@ => Tree::Text(note),
            "trust"@ => Tree::Text(trust),
            "timestamp"@ => Tree::Int(timestamp),
        ],
    )
}

/// The lines that are not blank.
pub open spec fn written(lines: Seq<Seq<char>>) -> Seq<Seq<char>>
    decreases lines.len(),
{
    if lines.len() == 0 {
        lines
    } else if text::blank(lines.last()) {
        written(lines.drop_last())
    } else {
        written(lines.drop_last()).push(lines.last())
    }
}

/// The lines of a catalogue with one more: the last `max` of them unless `max` is 0.
pub open spec fn with_line(existing: Seq<char>, line: Seq<char>, max: int) -> Seq<Seq<char>> {
    let all = written(text::lines(existing)).push(line);
    if max > 0 {
        text::last_of(all, max)
    } else {
        all
    }
}

fn written_lines(s: &str) -> (r: Vec<String>)
    ensures
        text::views(r@) == written(text::lines(s@)),
{
    let lines = text::lines_of(s);
    let ghost all = text::views(lines@);
    let mut r: Vec<String> = Vec::new();
    let mut i: usize = 0;
    assert(text::views(r@) == written(all.take(0)));
    while i < lines.len()
        invariant
            i <= lines.len(),
            all == text::views(lines@),
            text::views(r@) == written(all.take(i as int)),
        decreases lines.len() - i,
    {
        assert(all.take(i + 1).drop_last() == all.take(i as int));
        assert(all.take(i + 1).last() == lines@[i as int]@);
        if !text::trim(&lines[i]).as_str().is_empty() {
            let ghost before = r@;
            let l = lines[i].clone();
            r.push(l);
            assert(text::views(r@) == text::views(before).push(l@));
        }
        i += 1;
    }
    assert(all.take(i as int) == all);
    r
}

proof fn lemma_note_fields()
    ensures
        "tag"@ != "note"@,
        "tag"@ != "trust"@,
        "tag"@ != "timestamp"@,
        "note"@ != "trust"@,
        "note"@ != "timestamp"@,
        "trust"@ != "timestamp"@,
{
    reveal_strlit("tag");
    reveal_strlit("note");
    reveal_strlit("trust");
    reveal_strlit("timestamp");
    assert("tag"@.len() == 3 && "note"@.len() == 4 && "trust"@.len() == 5 && "timestamp"@.len() == 9);
}

/// A note as its tree gives it back.
pub open spec fn fresh_note(tag: Seq<char>, note: Seq<char>, trust: Seq<char>, timestamp: int) -> NoteView {
    NoteView { tag, note, trust, timestamp, dupes: 0 }
}

proof fn lemma_note_tree(tag: Seq<char>, note: Seq<char>, trust: Seq<char>, timestamp: int)
    requires
        i64::MIN <= timestamp <= i64::MAX,
    ensures
        note_in(note_tree(tag, note, trust, timestamp)) == Some(fresh_note(tag, note, trust, timestamp)),
        json::flat(note_tree(tag, note, trust, timestamp)),
{
    lemma_note_fields();
    let t = note_tree(tag, note, trust, timestamp);
    assert(json::member(t, "tag"@) == Some(Tree::Text(tag)));
    assert(json::member(t, "note"@) == Some(Tree::Text(note)));
    assert(json::member(t, "trust"@) == Some(Tree::Text(trust)));
    assert(json::member(t, "timestamp"@) == Some(Tree::Int(timestamp)));
}

/// The line of a note. It reads back as that note, and is one line that is not blank.
fn note_line(tag: &str, note: &str, trust: &str, timestamp: i64) -> (r: String)
    ensures
        r@ == json::rendered(note_tree(tag@, note@, trust@, timestamp as int)),
        note_on(r@) == Some(fresh_note(tag@, note@, trust@, timestamp as int)),
        text::one_line(r@),
        !text::blank(r@),
{
    let mut fields: Vec<(String, Value)> = Vec::new();
    fields.push(("tag".to_owned(), json::of_text(tag)));
    fields.push(("note".to_owned(), json::of_text(note)));
    fields.push(("trust".to_owned(), json::of_text(trust)));
    fields.push(("timestamp".to_owned(), json::of_int(timestamp)));
    let ghost want = note_tree(tag@, note@, trust@, timestamp as int);
    proof {
        reveal_with_fuel(json::fields, 5);
        let s = fields@;
        assert(s.drop_last().drop_last().drop_last().drop_last() == Seq::<(String, Value)>::empty());
        assert(Tree::Object(json::fields(s)) == want);
        lemma_note_tree(tag@, note@, trust@, timestamp as int);
    }
    let v = json::of_object(fields);
    let r = json::render(&v);
    assert(text::without_cr(r@) == r@) by {
        if r@.len() > 0 {
            assert(r@.contains(r@[r@.len() - 1]));
        }
    }
    r
}

proof fn lemma_joined_is_unlines(ls: Seq<Seq<char>>)
    requires
        ls.len() > 0,
    ensures
        text::joined(ls, "\n"@) + "\n"@ == text::unlines(ls),
    decreases ls.len(),
{
    reveal_strlit("\n");
    assert("\n"@ == seq!['\n']);
    if ls.len() == 1 {
        assert(ls.drop_last() == Seq::<Seq<char>>::empty());
        reveal_with_fuel(text::unlines, 2);
        assert(text::joined(ls, "\n"@) + "\n"@ == text::unlines(ls));
    } else {
        lemma_joined_is_unlines(ls.drop_last());
        assert(text::joined(ls, "\n"@) + "\n"@ == (text::joined(ls.drop_last(), "\n"@) + "\n"@) + ls.last()
            + "\n"@);
    }
}

proof fn lemma_written_lines_stay(ls: Seq<Seq<char>>)
    requires
        forall|i: int| 0 <= i < ls.len() ==> text::one_line(#[trigger] ls[i]),
    ensures
        forall|i: int| 0 <= i < written(ls).len() ==> text::one_line(#[trigger] written(ls)[i]),
    decreases ls.len(),
{
    if ls.len() > 0 {
        let d = ls.drop_last();
        assert forall|i: int| 0 <= i < d.len() implies text::one_line(#[trigger] d[i]) by {
            assert(d[i] == ls[i]);
        }
        lemma_written_lines_stay(d);
        assert(text::one_line(ls[ls.len() - 1]));
        assert forall|i: int| 0 <= i < written(ls).len() implies text::one_line(#[trigger] written(ls)[i]) by {
            if i < written(d).len() {
                assert(written(ls)[i] == written(d)[i]);
            }
        }
    }
}

proof fn lemma_notes_concat(a: Seq<Seq<char>>, b: Seq<Seq<char>>)
    ensures
        notes_on(a + b) == notes_on(a) + notes_on(b),
    decreases b.len(),
{
    if b.len() == 0 {
        assert(a + b == a);
        assert(notes_on(a) + notes_on(b) == notes_on(a));
    } else {
        lemma_notes_concat(a, b.drop_last());
        assert((a + b).drop_last() == a + b.drop_last());
        assert((a + b).last() == b.last());
        assert(notes_on(a + b) == notes_on(a) + notes_on(b));
    }
}

proof fn lemma_notes_are_written(ls: Seq<Seq<char>>)
    ensures
        notes_on(written(ls)) == notes_on(ls),
    decreases ls.len(),
{
    if ls.len() > 0 {
        lemma_notes_are_written(ls.drop_last());
        if !text::blank(ls.last()) {
            assert(written(ls).drop_last() == written(ls.drop_last()));
        }
    }
}

/// A catalogue of whole lines: no carriage return stands at the end of one.
pub open spec fn clean(s: Seq<char>) -> bool {
    forall|i: int| 0 <= i < text::lines(s).len() ==> text::one_line(#[trigger] text::lines(s)[i])
}

/// Whether the notes of `after` are those of `before` and a new one behind them, without some of the
/// oldest.
pub open spec fn grown(before: Seq<NoteView>, new: NoteView, after: Seq<NoteView>) -> bool {
    exists|k: int| 0 <= k <= before.len() && after == #[trigger] before.push(new).skip(k)
}

/// The catalogue with one more note, kept to its last `max` lines. Of a catalogue of whole lines every
/// note is read back but for the oldest that go, and the new one stands last.
pub fn append_tag_note(
    existing: &str,
    tag: &str,
    note: &str,
    trust: &str,
    timestamp: i64,
    max: usize,
) -> (r: String)
    ensures
        ({
            let line = json::rendered(note_tree(tag@, note@, trust@, timestamp as int));
            let kept = with_line(existing@, line, max as int);
            &&& r@ == text::joined(kept, "\n"@) + "\n"@
            &&& clean(existing@) ==> {
                &&& clean(r@)
                &&& text::lines(r@) == kept
                &&& grown(
                    all_notes(existing@),
                    fresh_note(tag@, note@, trust@, timestamp as int),
                    all_notes(r@),
                )
                &&& max == 0 ==> all_notes(r@) == all_notes(existing@).push(
                    fresh_note(tag@, note@, trust@, timestamp as int),
                )
            }
        }),
{
    let mut lines = written_lines(existing);
    let line = note_line(tag, note, trust, timestamp);
    let ghost before = lines@;
    lines.push(line);
    assert(text::views(lines@) == text::views(before).push(line@));
    let n: usize = lines.len();
    assert(text::views(lines@).len() == n);
    if max > 0 {
        lines = text::keep_last(lines, max);
    }
    let ghost kept = text::views(lines@);
    let mut r = text::join(&lines, "\n");
    r.append("\n");
    proof {
        assert(kept == with_line(existing@, line@, max as int));
        assert(kept.len() > 0);
        assert(kept.last() == line@);
        lemma_joined_is_unlines(kept);
        if clean(existing@) {
            let all = written(text::lines(existing@)).push(line@);
            lemma_written_lines_stay(text::lines(existing@));
            assert forall|i: int| 0 <= i < kept.len() implies text::one_line(#[trigger] kept[i]) by {
                let k = if max > 0 && all.len() > max { i + all.len() - max } else { i };
                assert(kept[i] == all[k]);
                if k < all.len() - 1 {
                    assert(all[k] == written(text::lines(existing@))[k]);
                }
            }
            let none = Seq::<char>::empty();
            text::lemma_lines_appended(none, kept);
            assert(none + text::unlines(kept) == text::unlines(kept));
            text::lemma_one_piece(none, '\n');
            assert(text::pieces(none, '\n').drop_last() == Seq::<Seq<char>>::empty());
            assert(text::lines(none) == Seq::<Seq<char>>::empty());
            assert(text::lines(none) + kept == kept);
            let fresh = fresh_note(tag@, note@, trust@, timestamp as int);
            let before = all_notes(existing@);
            lemma_notes_are_written(text::lines(existing@));
            assert(all.drop_last() == written(text::lines(existing@)));
            assert(notes_on(all) == before.push(fresh));
            let gone = if max > 0 && all.len() > max { all.len() - max } else { 0 };
            assert(kept == all.skip(gone));
            assert(all.take(gone) + all.skip(gone) == all);
            lemma_notes_concat(all.take(gone), all.skip(gone));
            let k = notes_on(all.take(gone)).len() as int;
            assert(kept.drop_last() + seq![kept.last()] == kept);
            assert(notes_on(kept).len() > 0);
            assert(notes_on(kept) == before.push(fresh).skip(k));
            assert(k <= before.len());
            assert(grown(before, fresh, all_notes(r@)));
            if max == 0 {
                assert(all.take(0) == Seq::<Seq<char>>::empty());
                assert(before.push(fresh).skip(0) == before.push(fresh));
            }
        }
    }
    r
}

/// A note reads as it stands: its tag, its text and its trust from the members of those names, and its
/// time. Without a tag there is no note; what else is absent is empty, or the beginning of time.
pub proof fn a_stored_note_reads_as_it_stands(t: Tree, tag: Seq<char>)
    ensures
        json::text_member(t, "tag"@) is None ==> note_in(t) is None,
        json::member(t, "tag"@) == Some(Tree::Text(tag)) ==> (note_in(t) matches Some(n) && {
            &&& n.tag == tag
            &&& n.dupes == 0
            &&& json::member(t, "note"@) matches Some(Tree::Text(x)) ==> n.note == x
            &&& json::text_member(t, "note"@) is None ==> n.note.len() == 0
            &&& json::member(t, "trust"@) matches Some(Tree::Text(x)) ==> n.trust == x
            &&& json::text_member(t, "trust"@) is None ==> n.trust.len() == 0
            &&& json::member(t, "timestamp"@) matches Some(Tree::Int(x)) ==> (i64::MIN <= x <= i64::MAX
                ==> n.timestamp == x)
            &&& json::member(t, "timestamp"@) is None ==> n.timestamp == 0
        }),
{
}

/// A catalogue holds the notes of its lines in their order: a line that is blank, that does not parse or
/// that has no tag holds none.
pub proof fn a_catalogue_holds_the_notes_of_its_lines(lines: Seq<Seq<char>>, l: Seq<char>)
    ensures
        notes_on(Seq::empty()) == Seq::<NoteView>::empty(),
        text::blank(l) || json::parsed(l) is None ==> notes_on(lines.push(l)) == notes_on(lines),
        !text::blank(l) ==> (json::parsed(l) matches Some(t) ==> notes_on(lines.push(l)) == (match note_in(t) {
            Some(n) => notes_on(lines).push(n),
            None => notes_on(lines),
        })),
{
    assert(lines.push(l).drop_last() == lines);
}

/// The gates of a catalogue let through what is later than the given time, not what is of it, and what
/// has exactly the given tag.
pub proof fn the_gates_of_a_catalogue(notes: Seq<NoteView>, n: NoteView, since: i64, tag: Seq<char>)
    ensures
        gated(Seq::empty(), Some(since), Some(tag)) == Seq::<NoteView>::empty(),
        gated(notes.push(n), None, None) == gated(notes, None, None).push(n),
        gated(notes.push(n), Some(since), None) == (if n.timestamp > since {
            gated(notes, Some(since), None).push(n)
        } else {
            gated(notes, Some(since), None)
        }),
        gated(notes.push(n), None, Some(tag)) == (if n.tag == tag {
            gated(notes, None, Some(tag)).push(n)
        } else {
            gated(notes, None, Some(tag))
        }),
        gated(notes.push(n), Some(since), Some(tag)) == (if n.timestamp > since && n.tag == tag {
            gated(notes, Some(since), Some(tag)).push(n)
        } else {
            gated(notes, Some(since), Some(tag))
        }),
{
    assert(notes.push(n).drop_last() == notes);
}

/// A reader is given the last of what passes the gates, as many as asked for, and all where none is
/// named; the latest of each tag alone where that is wanted.
pub proof fn a_reader_is_given_the_last_notes(
    s: Seq<char>,
    since: Option<i64>,
    tag: Option<Seq<char>>,
    max: int,
)
    ensures
        ({
            let g = gated(all_notes(s), since, tag);
            &&& max <= 0 || g.len() <= max ==> selected(s, since, tag, false, max) == g
            &&& 0 < max < g.len() ==> selected(s, since, tag, false, max) == g.subrange(
                g.len() - max,
                g.len() as int,
            )
        }),
        ({
            let g = gated(all_notes(s), since, tag);
            let l = latest(g, g.len() as int);
            &&& max <= 0 || l.len() <= max ==> selected(s, since, tag, true, max) == l
            &&& 0 < max < l.len() ==> selected(s, since, tag, true, max) == l.subrange(
                l.len() - max,
                l.len() as int,
            )
        }),
        all_notes(s) == notes_on(text::lines(s)),
{
}

/// A note is written with its tag, its text, its trust and its time under their own names.
pub proof fn a_note_is_written_whole(tag: Seq<char>, note: Seq<char>, trust: Seq<char>, timestamp: int)
    ensures
        json::member(note_tree(tag, note, trust, timestamp), "tag"@) == Some(Tree::Text(tag)),
        json::member(note_tree(tag, note, trust, timestamp), "note"@) == Some(Tree::Text(note)),
        json::member(note_tree(tag, note, trust, timestamp), "trust"@) == Some(Tree::Text(trust)),
        json::member(note_tree(tag, note, trust, timestamp), "timestamp"@) == Some(Tree::Int(timestamp)),
{
    reveal_strlit("tag");
    reveal_strlit("note");
    reveal_strlit("trust");
    reveal_strlit("timestamp");
    assert("tag"@.len() == 3 && "note"@.len() == 4 && "trust"@.len() == 5 && "timestamp"@.len() == 9);
}

/// A new line goes behind those of a catalogue that are not blank; past the cap the oldest go.
pub proof fn a_new_line_goes_last(existing: Seq<char>, line: Seq<char>, max: int)
    ensures
        with_line(existing, line, max).len() > 0,
        with_line(existing, line, max).last() == line,
        max <= 0 ==> with_line(existing, line, max).drop_last() == written(text::lines(existing)),
        max > 0 ==> with_line(existing, line, max).len() <= max,
        max > written(text::lines(existing)).len() ==> with_line(existing, line, max).drop_last() == written(
            text::lines(existing),
        ),
{
    let w = written(text::lines(existing));
    assert(w.push(line).drop_last() == w);
}

/// The lines of a catalogue that count are those that are not blank, each as it is and in its order.
pub proof fn blank_lines_do_not_count(lines: Seq<Seq<char>>, l: Seq<char>)
    ensures
        written(Seq::empty()) == Seq::<Seq<char>>::empty(),
        text::blank(l) ==> written(lines.push(l)) == written(lines),
        !text::blank(l) ==> written(lines.push(l)) == written(lines).push(l),
{
    assert(lines.push(l).drop_last() == lines);
}

} // verus!
