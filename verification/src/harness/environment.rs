//! The environment map: a short digest of the agent's own recent activity and notes.

use vstd::prelude::*;

use crate::clock;
use crate::prompt::RunlogContext;
use crate::runlog::notes;
use crate::runlog::notes::NoteView;
use crate::runlog::notes::TagNoteRecord;
use crate::runlog::reader;
use crate::runlog::reader::EntryMetaRecord;
use crate::runlog::reader::MetaView;
use crate::runlog::stats::Days;
use crate::runlog::stats::RunlogStats;
use crate::runlog::stats::StatsView;
use crate::runlog::stats;
use crate::text;
use crate::text_map;
use crate::text_map::Rank;
use crate::text_map::TextMap;

verus! {

/// How many sources are listed.
pub const MAX_SOURCES: usize = 12;

/// The short label of a trust tier.
pub open spec fn abbreviated(trust: Seq<char>) -> Seq<char> {
    if trust == "public"@ {
        "pub"@
    } else if trust == "operator_signed"@ {
        "op"@
    } else {
        trust
    }
}

/// The short label of a trust tier: `pub` and `op`, any other name as it is.
pub fn trust_abbrev(trust: &str) -> (r: &str)
    ensures
        r@ == abbreviated(trust@),
{
    if text::same(trust, "public") {
        "pub"
    } else if text::same(trust, "operator_signed") {
        "op"
    } else {
        trust
    }
}

/// One bucket: a name and its count.
pub open spec fn bucket(name: Seq<char>, count: int) -> Seq<char> {
    name + " "@ + text::decimal(count)
}

fn bucket_text(name: &str, count: u128) -> (r: String)
    ensures
        r@ == bucket(name@, count as int),
{
    let mut r = name.to_owned();
    r.append(" ");
    let c = text::nat_text(count);
    r.append(&c);
    r
}

/// The last `n` days, newest first.
pub open spec fn recent_days(m: Days, n: int) -> Seq<Seq<char>> {
    text::last_of(text_map::in_order(m.dom()), n).reverse()
}

/// The counts of the last `n` days, newest first.
pub open spec fn histogram(m: Days, n: int) -> Seq<char> {
    text::joined(recent_days(m, n).map_values(|d: Seq<char>| bucket(d, m[d] as int)), " · "@)
}

/// The counts of the last `n` days, newest first.
pub fn day_histogram(days: &TextMap<usize>, n: usize) -> (r: String)
    ensures
        r@ == histogram(days@, n as int),
{
    let len: usize = days.len();
    let ghost keys = days.keys();
    let ghost m = days@;
    let ghost want = recent_days(m, n as int).map_values(|d: Seq<char>| bucket(d, m[d] as int));
    let mut out: Vec<String> = Vec::new();
    let mut i: usize = 0;
    while i < len && i < n
        invariant
            i <= len,
            i <= n,
            len == keys.len(),
            keys == days.keys(),
            m == days@,
            want == recent_days(m, n as int).map_values(|d: Seq<char>| bucket(d, m[d] as int)),
            text::views(out@) == want.take(i as int),
        decreases len - i,
    {
        let d = days.key_at(len - 1 - i);
        let c: usize = *days.value_at(len - 1 - i);
        let line = bucket_text(d, c as u128);
        assert(recent_days(m, n as int)[i as int] == d@);
        assert(want[i as int] == line@);
        let ghost before = out@;
        out.push(line);
        assert(text::views(out@) == text::views(before).push(line@));
        i += 1;
        assert(text::views(out@) == want.take(i as int));
    }
    assert(want.take(i as int) == want);
    text::join(&out, " · ")
}

/// The sum of the counts on the given days.
pub open spec fn total(m: Days, days: Seq<Seq<char>>) -> int
    decreases days.len(),
{
    if days.len() == 0 {
        0
    } else {
        total(m, days.drop_last()) + m[days.last()]
    }
}

/// How often a source ran, over all days.
pub open spec fn runs(m: Days) -> int {
    total(m, text_map::in_order(m.dom()))
}

fn count_runs(days: &TextMap<usize>) -> (r: u128)
    ensures
        r == runs(days@),
{
    let n: usize = days.len();
    let ghost keys = days.keys();
    let ghost m = days@;
    let mut sum: u128 = 0;
    let mut i: usize = 0;
    while i < n
        invariant
            i <= n,
            n == keys.len(),
            keys == days.keys(),
            m == days@,
            sum == total(m, keys.take(i as int)),
            0 <= sum <= i * usize::MAX,
        decreases n - i,
    {
        let c: usize = *days.value_at(i);
        assert(keys.take(i + 1).drop_last() == keys.take(i as int));
        assert(keys.take(i + 1).last() == keys[i as int]);
        assert((i + 1) * usize::MAX == i * usize::MAX + usize::MAX) by (nonlinear_arith);
        assert((i + 1) * usize::MAX <= usize::MAX * usize::MAX) by (nonlinear_arith)
            requires
                i + 1 <= usize::MAX,
        ;
        assert(usize::MAX * usize::MAX <= u128::MAX) by {
            assert(usize::MAX <= 0xffff_ffff_ffff_ffff);
            assert(usize::MAX * usize::MAX <= 0xffff_ffff_ffff_ffff * 0xffff_ffff_ffff_ffff) by (nonlinear_arith)
                requires
                    0 <= usize::MAX <= 0xffff_ffff_ffff_ffff,
            ;
        }
        sum = sum + c as u128;
        i += 1;
    }
    assert(keys.take(i as int) == keys);
    sum
}

/// Whether one source stands in front of another: the busier one, and of two that ran equally
/// often the one whose name comes first.
pub open spec fn busier(a: (Seq<char>, int), b: (Seq<char>, int)) -> bool {
    a.1 > b.1 || (a.1 == b.1 && text_map::precedes(a.0, b.0))
}

/// A ranking with one more source in its place.
pub open spec fn placed(r: Seq<(Seq<char>, int)>, x: (Seq<char>, int)) -> Seq<(Seq<char>, int)>
    decreases r.len(),
{
    if r.len() > 0 && busier(x, r.last()) {
        placed(r.drop_last(), x).push(r.last())
    } else {
        r.push(x)
    }
}

/// The sources in their ranking.
pub open spec fn ranked(s: Seq<(Seq<char>, int)>) -> Seq<(Seq<char>, int)>
    decreases s.len(),
{
    if s.len() == 0 {
        s
    } else {
        placed(ranked(s.drop_last()), s.last())
    }
}

/// Whether no source stands behind one that it is busier than.
pub open spec fn descending(s: Seq<(Seq<char>, int)>) -> bool {
    forall|i: int, j: int| 0 <= i < j < s.len() ==> !busier(#[trigger] s[j], #[trigger] s[i])
}

proof fn lemma_placed(r: Seq<(Seq<char>, int)>, x: (Seq<char>, int))
    requires
        descending(r),
    ensures
        descending(placed(r, x)),
        placed(r, x).len() == r.len() + 1,
        placed(r, x).to_multiset() == r.to_multiset().insert(x),
        forall|y: (Seq<char>, int)|
            (forall|i: int| 0 <= i < r.len() ==> !busier(y, #[trigger] r[i])) && !busier(y, x) ==> forall|i: int|
                0 <= i < placed(r, x).len() ==> !busier(y, #[trigger] placed(r, x)[i]),
    decreases r.len(),
{
    broadcast use vstd::seq_lib::group_to_multiset_ensures;

    let p = placed(r, x);
    if r.len() > 0 && busier(x, r.last()) {
        let d = r.drop_last();
        assert(descending(d)) by {
            assert forall|i: int, j: int| 0 <= i < j < d.len() implies !busier(#[trigger] d[j], #[trigger] d[i]) by {
                assert(d[j] == r[j] && d[i] == r[i]);
            }
        }
        lemma_placed(d, x);
        let q = placed(d, x);
        let l = r.last();
        assert(r == d.push(l));
        assert(!busier(l, x)) by {
            if busier(l, x) {
                text_map::lemma_precedes_transitive(x.0, l.0, x.0);
                text_map::lemma_precedes_irreflexive(x.0);
            }
        }
        assert forall|i: int| 0 <= i < d.len() implies !busier(l, #[trigger] d[i]) by {
            assert(d[i] == r[i]);
            assert(r[r.len() - 1] == l);
        }
        assert(forall|i: int| 0 <= i < q.len() ==> !busier(l, #[trigger] q[i]));
        assert forall|i: int, j: int| 0 <= i < j < p.len() implies !busier(#[trigger] p[j], #[trigger] p[i]) by {
            if j < q.len() {
                assert(p[j] == q[j] && p[i] == q[i]);
            } else {
                assert(p[j] == l && p[i] == q[i]);
            }
        }
        assert forall|y: (Seq<char>, int)|
            (forall|i: int| 0 <= i < r.len() ==> !busier(y, #[trigger] r[i])) && !busier(y, x) implies forall|i: int|
            0 <= i < p.len() ==> !busier(y, #[trigger] p[i]) by {
            assert forall|i: int| 0 <= i < d.len() implies !busier(y, #[trigger] d[i]) by {
                assert(d[i] == r[i]);
            }
            assert forall|i: int| 0 <= i < p.len() implies !busier(y, #[trigger] p[i]) by {
                if i < q.len() {
                    assert(p[i] == q[i]);
                } else {
                    assert(p[i] == r[r.len() - 1]);
                }
            }
        }
        assert(p.to_multiset() == q.to_multiset().insert(l));
        assert(r.to_multiset() == d.to_multiset().insert(l));
        assert(p.to_multiset() =~= r.to_multiset().insert(x));
    } else {
        assert forall|i: int, j: int| 0 <= i < j < p.len() implies !busier(#[trigger] p[j], #[trigger] p[i]) by {
            if j < r.len() {
                assert(p[j] == r[j] && p[i] == r[i]);
            } else {
                assert(p[j] == x && p[i] == r[i]);
                let l = r.last();
                if busier(x, r[i]) {
                    if i < r.len() - 1 {
                        assert(!busier(r[r.len() - 1], r[i]));
                        assert(l == r[r.len() - 1]);
                        if x.1 == r[i].1 && l.1 == x.1 {
                            text_map::lemma_precedes_total(l.0, x.0);
                            if text_map::precedes(l.0, x.0) {
                                text_map::lemma_precedes_transitive(l.0, x.0, r[i].0);
                            }
                        }
                    }
                }
            }
        }
        assert forall|y: (Seq<char>, int)|
            (forall|i: int| 0 <= i < r.len() ==> !busier(y, #[trigger] r[i])) && !busier(y, x) implies forall|i: int|
            0 <= i < p.len() ==> !busier(y, #[trigger] p[i]) by {
            assert forall|i: int| 0 <= i < p.len() implies !busier(y, #[trigger] p[i]) by {
                if i < r.len() {
                    assert(p[i] == r[i]);
                }
            }
        }
    }
}

/// The ranking holds the sources it was made of, the busiest first.
pub proof fn the_busiest_stand_first(s: Seq<(Seq<char>, int)>)
    ensures
        descending(ranked(s)),
        ranked(s).to_multiset() == s.to_multiset(),
    decreases s.len(),
{
    broadcast use vstd::seq_lib::group_to_multiset_ensures;

    if s.len() > 0 {
        the_busiest_stand_first(s.drop_last());
        lemma_placed(ranked(s.drop_last()), s.last());
        assert(s == s.drop_last().push(s.last()));
    }
}

/// Each source with how often it ran, by name.
pub open spec fn totals(by_source: Map<Seq<char>, Days>) -> Seq<(Seq<char>, int)> {
    text_map::in_order(by_source.dom()).map_values(|s: Seq<char>| (s, runs(by_source[s])))
}

/// The first `n` of a sequence.
pub open spec fn first_of<T>(s: Seq<T>, n: int) -> Seq<T> {
    if s.len() <= n {
        s
    } else {
        s.take(n)
    }
}

/// The sources that drive the activity, the busiest first.
pub open spec fn sources_line(by_source: Map<Seq<char>, Days>) -> Seq<char> {
    "By source (recent): "@ + text::joined(
        first_of(ranked(totals(by_source)), MAX_SOURCES as int).map_values(|x: (Seq<char>, int)| bucket(x.0, x.1)),
        " · "@,
    ) + "."@
}

pub open spec fn total_views(v: Seq<(String, u128)>) -> Seq<(Seq<char>, int)> {
    v.map_values(|x: (String, u128)| (x.0@, x.1 as int))
}

fn stands_before(a: &(String, u128), b: &(String, u128)) -> (r: bool)
    ensures
        r == busier((a.0@, a.1 as int), (b.0@, b.1 as int)),
{
    if a.1 != b.1 {
        return a.1 > b.1;
    }
    match text_map::rank(&a.0, &b.0) {
        Rank::Before => true,
        Rank::Equal => {
            proof {
                text_map::lemma_precedes_irreflexive(a.0@);
            }
            false
        },
        Rank::After => {
            proof {
                if text_map::precedes(a.0@, b.0@) {
                    text_map::lemma_precedes_transitive(a.0@, b.0@, a.0@);
                    text_map::lemma_precedes_irreflexive(a.0@);
                }
            }
            false
        },
    }
}

proof fn lemma_placed_at(r: Seq<(Seq<char>, int)>, x: (Seq<char>, int), k: int)
    requires
        0 <= k <= r.len(),
        k == 0 || !busier(x, r[k - 1]),
        forall|i: int| k <= i < r.len() ==> busier(x, #[trigger] r[i]),
    ensures
        placed(r, x) == r.insert(k, x),
    decreases r.len(),
{
    if k < r.len() {
        let d = r.drop_last();
        assert(busier(x, r[r.len() - 1]));
        assert forall|i: int| k <= i < d.len() implies busier(x, #[trigger] d[i]) by {
            assert(d[i] == r[i]);
        }
        lemma_placed_at(d, x, k);
        assert(d.insert(k, x).push(r.last()) == r.insert(k, x));
    } else {
        assert(r.insert(k, x) == r.push(x));
    }
}

fn place(r: &mut Vec<(String, u128)>, x: (String, u128))
    ensures
        total_views(final(r)@) == placed(total_views(old(r)@), (x.0@, x.1 as int)),
{
    let ghost before = r@;
    let ghost xv = (x.0@, x.1 as int);
    let mut k: usize = r.len();
    while k > 0 && stands_before(&x, &r[k - 1])
        invariant
            k <= r.len(),
            r@ == before,
            xv == (x.0@, x.1 as int),
            forall|i: int| k <= i < r.len() ==> busier(xv, #[trigger] total_views(r@)[i]),
        decreases k,
    {
        k -= 1;
    }
    proof {
        lemma_placed_at(total_views(r@), xv, k as int);
    }
    r.insert(k, x);
    assert(total_views(r@) == total_views(before).insert(k as int, xv));
}

fn sources_text(by_source: &TextMap<TextMap<usize>>) -> (r: String)
    ensures
        r@ == sources_line(stats::nested(*by_source)),
{
    let ghost m = stats::nested(*by_source);
    assert(m.dom() == by_source@.dom());
    let n: usize = by_source.len();
    let ghost keys = by_source.keys();
    let ghost all = totals(m);
    let mut sorted: Vec<(String, u128)> = Vec::new();
    let mut i: usize = 0;
    assert(total_views(sorted@) == ranked(all.take(0)));
    while i < n
        invariant
            i <= n == keys.len(),
            keys == by_source.keys(),
            m == stats::nested(*by_source),
            m.dom() == by_source@.dom(),
            all == totals(m),
            total_views(sorted@) == ranked(all.take(i as int)),
        decreases n - i,
    {
        let name = by_source.key_at(i);
        let days = by_source.value_at(i);
        let c: u128 = count_runs(days);
        assert(m[keys[i as int]] == days@);
        assert(all.take(i + 1).drop_last() == all.take(i as int));
        assert(all.take(i + 1).last() == (name@, c as int));
        place(&mut sorted, (name.clone(), c));
        i += 1;
    }
    assert(all.take(i as int) == all);
    let ghost top = first_of(ranked(all), MAX_SOURCES as int);
    let ghost want = top.map_values(|x: (Seq<char>, int)| bucket(x.0, x.1));
    let mut out: Vec<String> = Vec::new();
    let mut j: usize = 0;
    while j < sorted.len() && j < MAX_SOURCES
        invariant
            j <= sorted.len(),
            j <= MAX_SOURCES,
            total_views(sorted@) == ranked(all),
            top == first_of(ranked(all), MAX_SOURCES as int),
            want == top.map_values(|x: (Seq<char>, int)| bucket(x.0, x.1)),
            text::views(out@) == want.take(j as int),
        decreases sorted.len() - j,
    {
        let b = bucket_text(&sorted[j].0, sorted[j].1);
        assert(total_views(sorted@)[j as int] == (sorted@[j as int].0@, sorted@[j as int].1 as int));
        assert(top[j as int] == ranked(all)[j as int]);
        assert(b@ == want[j as int]);
        let ghost before = out@;
        out.push(b);
        assert(text::views(out@) == text::views(before).push(b@));
        j += 1;
        assert(text::views(out@) == want.take(j as int));
    }
    assert(total_views(sorted@).len() == sorted@.len());
    assert(want.take(j as int) == want);
    let list = text::join(&out, " · ");
    let mut r = "By source (recent): ".to_owned();
    r.append(&list);
    r.append(".");
    r
}

/// How many other notes a tag has, where it has any.
pub open spec fn more(dupes: int) -> Seq<char> {
    if dupes > 0 {
        " [+"@ + text::decimal(dupes) + " more]"@
    } else {
        Seq::empty()
    }
}

fn more_text(dupes: usize) -> (r: String)
    ensures
        r@ == more(dupes as int),
{
    if dupes > 0 {
        let mut r = " [+".to_owned();
        let d = text::nat_text(dupes as u128);
        r.append(&d);
        r.append(" more]");
        r
    } else {
        String::new()
    }
}

/// One note of another thread.
pub open spec fn note_line(n: NoteView) -> Seq<char> {
    "\n- "@ + n.tag + " ("@ + abbreviated(n.trust) + " · "@ + clock::utc(n.timestamp) + "): \""@ + n.note + "\""@
        + more(n.dupes)
}

fn note_text(n: &TagNoteRecord) -> (r: String)
    ensures
        r@ == note_line(n@),
{
    let mut r = "\n- ".to_owned();
    r.append(&n.tag);
    r.append(" (");
    r.append(trust_abbrev(&n.trust));
    r.append(" · ");
    let t = clock::fmt_utc(n.timestamp);
    r.append(&t);
    r.append("): \"");
    r.append(&n.note);
    r.append("\"");
    let m = more_text(n.dupes);
    r.append(&m);
    r
}

/// The notes that do not belong to this thread.
pub open spec fn elsewhere(all: Seq<NoteView>, tag: Option<Seq<char>>) -> Seq<NoteView>
    decreases all.len(),
{
    if all.len() == 0 {
        all
    } else {
        let rest = elsewhere(all.drop_last(), tag);
        if Some(all.last().tag) == tag {
            rest
        } else {
            rest.push(all.last())
        }
    }
}

/// The notes, the newest first.
pub open spec fn listing(all: Seq<NoteView>) -> Seq<char>
    decreases all.len(),
{
    if all.len() == 0 {
        Seq::empty()
    } else {
        note_line(all.last()) + listing(all.drop_last())
    }
}

/// The notes of other threads, under a heading that says how they were chosen.
pub open spec fn recent_notes(all: Seq<NoteView>, dedup: bool) -> Seq<char> {
    "Recent notes (your sticky memory across threads, "@ + (if dedup {
        "latest per tag"@
    } else {
        "all, newest first"@
    }) + "):"@ + listing(all)
}

fn keep_elsewhere(all: Vec<TagNoteRecord>, tag: Option<&str>) -> (r: Vec<TagNoteRecord>)
    ensures
        notes::note_views(r@) == elsewhere(notes::note_views(all@), text::opt_str(tag)),
{
    let ghost s = notes::note_views(all@);
    let len: usize = all.len();
    let mut all = all;
    let mut r: Vec<TagNoteRecord> = Vec::new();
    let mut i: usize = 0;
    assert(s.skip(0) == s);
    assert(s.take(0) == Seq::<NoteView>::empty());
    while all.len() > 0
        invariant
            i <= len == s.len(),
            i + all.len() == len,
            notes::note_views(all@) == s.skip(i as int),
            notes::note_views(r@) == elsewhere(s.take(i as int), text::opt_str(tag)),
        decreases all.len(),
    {
        let ghost a = all@;
        let n = all.remove(0);
        assert(notes::note_views(a)[0] == n@);
        assert(notes::note_views(all@) == s.skip(i + 1)) by {
            assert(notes::note_views(all@) == notes::note_views(a).skip(1));
            assert(s.skip(i as int).skip(1) == s.skip(i + 1));
        }
        assert(s[i as int] == n@) by {
            assert(s.skip(i as int)[0] == s[i as int]);
        }
        assert(s.take(i + 1).drop_last() == s.take(i as int));
        assert(s.take(i + 1).last() == n@);
        let own = match tag {
            Some(t) => text::same(&n.tag, t),
            None => false,
        };
        if !own {
            let ghost before = r@;
            r.push(n);
            assert(notes::note_views(r@) == notes::note_views(before).push(n@));
        }
        i += 1;
    }
    assert(s.take(i as int) == s);
    r
}

fn recent_text(all: &[TagNoteRecord], dedup: bool) -> (r: String)
    ensures
        r@ == recent_notes(notes::note_views(all@), dedup),
{
    let ghost s = notes::note_views(all@);
    let mut r = "Recent notes (your sticky memory across threads, ".to_owned();
    if dedup {
        r.append("latest per tag");
    } else {
        r.append("all, newest first");
    }
    r.append("):");
    let mut i: usize = all.len();
    assert(s.take(i as int) == s);
    assert(r@ + listing(s.take(i as int)) == recent_notes(s, dedup));
    while i > 0
        invariant
            i <= all.len(),
            s == notes::note_views(all@),
            r@ + listing(s.take(i as int)) == recent_notes(s, dedup),
        decreases i,
    {
        assert(s.take(i as int).drop_last() == s.take(i - 1));
        assert(s.take(i as int).last() == all@[i - 1]@);
        let line = note_text(&all[i - 1]);
        let ghost before = r@;
        r.append(&line);
        assert(before + (line@ + listing(s.take(i - 1))) == before + line@ + listing(s.take(i - 1)));
        i -= 1;
    }
    assert(listing(s.take(0)) == Seq::<char>::empty());
    assert(r@ == recent_notes(s, dedup));
    r
}

/// The note of this thread.
pub open spec fn own_note(n: NoteView) -> Seq<char> {
    "This thread's note: \""@ + n.note + "\" ("@ + n.trust + " · "@ + clock::utc(n.timestamp) + ")"@ + more(n.dupes)
        + "."@
}

fn own_note_text(n: &TagNoteRecord) -> (r: String)
    ensures
        r@ == own_note(n@),
{
    let mut r = "This thread's note: \"".to_owned();
    r.append(&n.note);
    r.append("\" (");
    r.append(&n.trust);
    r.append(" · ");
    let t = clock::fmt_utc(n.timestamp);
    r.append(&t);
    r.append(")");
    let m = more_text(n.dupes);
    r.append(&m);
    r.append(".");
    r
}

/// The tags gathered so far, with those of one more entry that are new and not the thread's own.
pub open spec fn gathered(so_far: Seq<Seq<char>>, tags: Seq<Seq<char>>, tag: Seq<char>) -> Seq<Seq<char>>
    decreases tags.len(),
{
    if tags.len() == 0 {
        so_far
    } else {
        let r = gathered(so_far, tags.drop_last(), tag);
        if tags.last() == tag || r.contains(tags.last()) {
            r
        } else {
            r.push(tags.last())
        }
    }
}

/// The other tags of those entries that carry this thread's tag, each once.
pub open spec fn co_tags(metas: Seq<MetaView>, tag: Seq<char>) -> Seq<Seq<char>>
    decreases metas.len(),
{
    if metas.len() == 0 {
        Seq::empty()
    } else {
        let r = co_tags(metas.drop_last(), tag);
        if metas.last().tags.contains(tag) {
            gathered(r, metas.last().tags, tag)
        } else {
            r
        }
    }
}

fn gather(so_far: &mut Vec<String>, tags: &[String], tag: &str)
    ensures
        text::views(final(so_far)@) == gathered(text::views(old(so_far)@), text::views(tags@), tag@),
{
    let ghost all = text::views(tags@);
    let ghost start = text::views(so_far@);
    let mut i: usize = 0;
    assert(all.take(0) == Seq::<Seq<char>>::empty());
    while i < tags.len()
        invariant
            i <= tags.len(),
            all == text::views(tags@),
            text::views(so_far@) == gathered(start, all.take(i as int), tag@),
        decreases tags.len() - i,
    {
        assert(all.take(i + 1).drop_last() == all.take(i as int));
        assert(all.take(i + 1).last() == tags@[i as int]@);
        if !text::same(&tags[i], tag) && !text::member(so_far, &tags[i]) {
            let ghost before = so_far@;
            let t = tags[i].clone();
            so_far.push(t);
            assert(text::views(so_far@) == text::views(before).push(t@));
        }
        i += 1;
    }
    assert(all.take(i as int) == all);
}

fn collect_co_tags(metas: &[EntryMetaRecord], tag: &str) -> (r: Vec<String>)
    ensures
        text::views(r@) == co_tags(reader::meta_views(metas@), tag@),
{
    let ghost all = reader::meta_views(metas@);
    let mut r: Vec<String> = Vec::new();
    let mut i: usize = 0;
    assert(all.take(0) == Seq::<MetaView>::empty());
    assert(text::views(r@) == co_tags(all.take(0), tag@));
    while i < metas.len()
        invariant
            i <= metas.len(),
            all == reader::meta_views(metas@),
            text::views(r@) == co_tags(all.take(i as int), tag@),
        decreases metas.len() - i,
    {
        assert(all.take(i + 1).drop_last() == all.take(i as int));
        assert(all.take(i + 1).last() == metas@[i as int]@);
        if text::member(&metas[i].tags, tag) {
            gather(&mut r, &metas[i].tags, tag);
        }
        i += 1;
    }
    assert(all.take(i as int) == all);
    r
}

/// One line, where there is something to say.
pub open spec fn line_if(say: bool, line: Seq<char>) -> Seq<Seq<char>> {
    if say {
        seq![line]
    } else {
        Seq::empty()
    }
}

/// This thread's runs by day.
pub open spec fn thread_line(by_tag: Map<Seq<char>, Days>, tag: Seq<char>, n: int) -> Seq<char> {
    if by_tag.dom().contains(tag) && by_tag[tag] != Map::<Seq<char>, usize>::empty() {
        "This thread (`"@ + tag + "`)/day: "@ + histogram(by_tag[tag], n) + "."@
    } else {
        "This thread (`"@ + tag + "`): no runs recorded yet."@
    }
}

/// The activity: by day, by source where asked for, and of this thread.
pub open spec fn activity(s: StatsView, tag: Option<Seq<char>>, n: int, by_source: bool) -> Seq<Seq<char>> {
    line_if(s.days != Map::<Seq<char>, usize>::empty(), "Runs/day: "@ + histogram(s.days, n) + "."@) + line_if(
        by_source && s.by_source != Map::<Seq<char>, Days>::empty(),
        sources_line(s.by_source),
    ) + (match tag {
        Some(t) => seq![thread_line(s.by_tag, t, n)],
        None => Seq::empty(),
    })
}

/// What stands in the notes and tags of this thread.
pub open spec fn about_thread(catalogue: Seq<char>, today: Seq<char>, tag: Option<Seq<char>>) -> Seq<Seq<char>> {
    match tag {
        Some(t) => {
            let own = notes::selected(catalogue, None, Some(t), true, 1);
            let co = co_tags(reader::metas(today), t);
            (if own.len() > 0 {
                seq![own_note(own.last())]
            } else {
                Seq::empty()
            }) + line_if(co.len() > 0, "This thread's co-tags: "@ + text::joined(co, ", "@) + "."@)
        },
        None => Seq::empty(),
    }
}

/// All that the environment map says.
pub open spec fn environment_lines(
    s: StatsView,
    catalogue: Seq<char>,
    today: Seq<char>,
    tag: Option<Seq<char>>,
    cfg: RunlogContext,
    by_source: bool,
) -> Seq<Seq<char>> {
    let n = if cfg.environment > 0 {
        cfg.environment as int
    } else {
        1
    };
    let others = elsewhere(
        notes::selected(catalogue, None, None, cfg.dedup_notes, cfg.recent_notes as int),
        tag,
    );
    activity(s, tag, n, by_source) + line_if(others.len() > 0, recent_notes(others, cfg.dedup_notes)) + about_thread(
        catalogue,
        today,
        tag,
    )
}

/// A text of lines, unless there are none.
pub open spec fn text_of_lines(lines: Seq<Seq<char>>, sep: Seq<char>) -> Option<Seq<char>> {
    if lines.len() == 0 {
        None
    } else {
        Some(text::joined(lines, sep))
    }
}

fn push_line(lines: &mut Vec<String>, line: String)
    ensures
        text::views(final(lines)@) == text::views(old(lines)@) + seq![line@],
{
    let ghost before = lines@;
    lines.push(line);
    assert(text::views(lines@) == text::views(before) + seq![line@]);
}

fn thread_text(by_tag: &TextMap<TextMap<usize>>, tag: &str, n: usize) -> (r: String)
    ensures
        r@ == thread_line(stats::nested(*by_tag), tag@, n as int),
{
    assert(stats::nested(*by_tag).dom() == by_tag@.dom());
    let mut r = "This thread (`".to_owned();
    r.append(tag);
    match by_tag.get(tag) {
        Some(days) => {
            if !days.is_empty() {
                r.append("`)/day: ");
                let h = day_histogram(days, n);
                r.append(&h);
                r.append(".");
                return r;
            }
        },
        None => {},
    }
    r.append("`): no runs recorded yet.");
    r
}

fn activity_text(s: &RunlogStats, tag: Option<&str>, n: usize, by_source: bool) -> (r: Vec<String>)
    ensures
        text::views(r@) == activity(s@, text::opt_str(tag), n as int, by_source),
{
    let mut lines: Vec<String> = Vec::new();
    assert(text::views(lines@) == Seq::<Seq<char>>::empty());
    if !s.days.is_empty() {
        let mut l = "Runs/day: ".to_owned();
        let h = day_histogram(&s.days, n);
        l.append(&h);
        l.append(".");
        push_line(&mut lines, l);
    }
    let ghost first = text::views(lines@);
    let none = s.by_source.is_empty();
    proof {
        let m = stats::nested(s.by_source);
        assert(m.dom() == s.by_source@.dom());
        if m == Map::<Seq<char>, Days>::empty() {
            assert(s.by_source@ == Map::<Seq<char>, TextMap<usize>>::empty());
        }
        if none {
            assert(m == Map::<Seq<char>, Days>::empty());
        }
    }
    if by_source && !none {
        push_line(&mut lines, sources_text(&s.by_source));
    }
    let ghost second = text::views(lines@);
    if let Some(t) = tag {
        push_line(&mut lines, thread_text(&s.by_tag, t, n));
    }
    assert(text::views(lines@) == activity(s@, text::opt_str(tag), n as int, by_source));
    lines
}

fn thread_notes(lines: &mut Vec<String>, catalogue: &str, today: &str, tag: &str)
    ensures
        text::views(final(lines)@) == text::views(old(lines)@) + about_thread(catalogue@, today@, Some(tag@)),
{
    let ghost start = text::views(lines@);
    let own = notes::tag_notes(catalogue, None, Some(tag), true, 1);
    assert(notes::note_views(own@).len() == own@.len());
    if own.len() > 0 {
        push_line(lines, own_note_text(&own[own.len() - 1]));
    }
    let ghost mid = text::views(lines@);
    let metas = reader::entries_meta(today);
    let co = collect_co_tags(&metas, tag);
    assert(text::views(co@).len() == co@.len());
    if co.len() > 0 {
        let mut l = "This thread's co-tags: ".to_owned();
        let j = text::join(&co, ", ");
        l.append(&j);
        l.append(".");
        push_line(lines, l);
    }
    assert(text::views(lines@) == start + about_thread(catalogue@, today@, Some(tag@)));
}

/// The environment map of a fresh wake: the agent's recent activity, this thread's, the notes of
/// other threads, and this thread's own note and related tags. None where there is nothing to say.
pub fn environment_block(
    s: &RunlogStats,
    catalogue: &str,
    today: &str,
    tag: Option<&str>,
    cfg: &RunlogContext,
    for_reflect: bool,
) -> (r: Option<String>)
    ensures
        text::opt(r) == text_of_lines(
            environment_lines(s@, catalogue@, today@, text::opt_str(tag), *cfg, for_reflect),
            "\n"@,
        ),
{
    let n: usize = if cfg.environment > 0 {
        cfg.environment
    } else {
        1
    };
    let mut lines = activity_text(s, tag, n, for_reflect);
    let ghost first = text::views(lines@);
    let recent = notes::tag_notes(catalogue, None, None, cfg.dedup_notes, cfg.recent_notes);
    let others = keep_elsewhere(recent, tag);
    assert(notes::note_views(others@).len() == others@.len());
    if others.len() > 0 {
        push_line(&mut lines, recent_text(&others, cfg.dedup_notes));
    }
    let ghost second = text::views(lines@);
    if let Some(t) = tag {
        thread_notes(&mut lines, catalogue, today, t);
    }
    assert(text::views(lines@) == environment_lines(
        s@,
        catalogue@,
        today@,
        text::opt_str(tag),
        *cfg,
        for_reflect,
    ));
    assert(text::views(lines@).len() == lines@.len());
    if lines.len() == 0 {
        None
    } else {
        Some(text::join(&lines, "\n"))
    }
}

/// A note that came while the session slept.
pub open spec fn new_note(n: NoteView) -> Seq<char> {
    "- "@ + n.tag + ": \""@ + n.note + "\" ("@ + n.trust + ")"@
}

/// What happened elsewhere since the session last woke: the runs, then the notes.
pub open spec fn news(day: Seq<char>, catalogue: Seq<char>, since: i64) -> Seq<Seq<char>> {
    let runs = reader::filtered_headings(day, Some(since), 40, None);
    let fresh = notes::selected(catalogue, Some(since), None, false, 40);
    line_if(!text::blank(runs), "Other runs since you last woke:\n"@ + runs) + line_if(
        fresh.len() > 0,
        "New notes:\n"@ + text::joined(fresh.map_values(|n: NoteView| new_note(n)), "\n"@),
    )
}

/// The block of a resumed session: what else happened since it last woke. None where nothing did.
pub fn environment_recent_block(day: &str, catalogue: &str, since: i64) -> (r: Option<String>)
    ensures
        text::opt(r) == text_of_lines(news(day@, catalogue@, since), "\n\n"@),
{
    let mut parts: Vec<String> = Vec::new();
    assert(text::views(parts@) == Seq::<Seq<char>>::empty());
    let runs = reader::filter_headings(day, Some(since), 40, None);
    let t = text::trim(&runs);
    if !t.as_str().is_empty() {
        let mut p = "Other runs since you last woke:\n".to_owned();
        p.append(&runs);
        push_line(&mut parts, p);
    }
    let ghost first = text::views(parts@);
    let fresh = notes::tag_notes(catalogue, Some(since), None, false, 40);
    let ghost nv = notes::note_views(fresh@);
    assert(nv.len() == fresh@.len());
    if fresh.len() > 0 {
        let ghost want = nv.map_values(|n: NoteView| new_note(n));
        let mut out: Vec<String> = Vec::new();
        let mut i: usize = 0;
        while i < fresh.len()
            invariant
                i <= fresh.len(),
                nv == notes::note_views(fresh@),
                want == nv.map_values(|n: NoteView| new_note(n)),
                text::views(out@) == want.take(i as int),
            decreases fresh.len() - i,
        {
            let mut l = "- ".to_owned();
            l.append(&fresh[i].tag);
            l.append(": \"");
            l.append(&fresh[i].note);
            l.append("\" (");
            l.append(&fresh[i].trust);
            l.append(")");
            assert(nv[i as int] == fresh@[i as int]@);
            assert(l@ == want[i as int]);
            let ghost before = out@;
            out.push(l);
            assert(text::views(out@) == text::views(before).push(l@));
            i += 1;
            assert(text::views(out@) == want.take(i as int));
        }
        assert(want.take(i as int) == want);
        let mut p = "New notes:\n".to_owned();
        let j = text::join(&out, "\n");
        p.append(&j);
        push_line(&mut parts, p);
    }
    assert(text::views(parts@) == news(day@, catalogue@, since));
    assert(text::views(parts@).len() == parts@.len());
    if parts.len() == 0 {
        None
    } else {
        Some(text::join(&parts, "\n\n"))
    }
}

/// A tier stands by its short label where it has one, and by its name otherwise.
pub proof fn a_tier_has_a_short_label(t: Seq<char>)
    ensures
        abbreviated("public"@) == "pub"@,
        abbreviated("operator_signed"@) == "op"@,
        t != "public"@ && t != "operator_signed"@ ==> abbreviated(t) == t,
{
    reveal_strlit("public");
    reveal_strlit("operator_signed");
    assert("public"@.len() != "operator_signed"@.len());
}

/// The last days stand newest first: the last of the days in their order is the first shown, and no
/// more are shown than asked for.
pub proof fn the_newest_day_stands_first(m: Days, n: int, i: int)
    requires
        m.dom().finite(),
        n >= 0,
        0 <= i < recent_days(m, n).len(),
    ensures
        recent_days(m, n)[i] == text_map::in_order(m.dom())[text_map::in_order(m.dom()).len() - 1 - i],
        recent_days(m, n).len() <= n,
        m.contains_key(recent_days(m, n)[i]),
        i > 0 ==> text_map::precedes(recent_days(m, n)[i], recent_days(m, n)[i - 1]),
{
    let all = text_map::in_order(m.dom());
    text_map::a_set_in_order_holds_its_members(m.dom());
    let k = all.len() - 1 - i;
    assert(recent_days(m, n)[i] == all[k]);
    assert(all.contains(all[k]));
    if i > 0 {
        assert(recent_days(m, n)[i - 1] == all[k + 1]);
    }
}

/// The total over some days is the sum of their counts, each once: one more day adds its own.
pub proof fn one_more_day_adds_its_count(m: Days, days: Seq<Seq<char>>, d: Seq<char>)
    ensures
        total(m, Seq::empty()) == 0,
        total(m, days.push(d)) == total(m, days) + m[d],
{
    assert(days.push(d).drop_last() == days);
}

/// The notes of other threads are those of any other tag, in their order; without a thread they are all.
pub proof fn the_notes_of_other_threads(all: Seq<NoteView>, n: NoteView, tag: Seq<char>)
    ensures
        elsewhere(Seq::empty(), Some(tag)) == Seq::<NoteView>::empty(),
        n.tag == tag ==> elsewhere(all.push(n), Some(tag)) == elsewhere(all, Some(tag)),
        n.tag != tag ==> elsewhere(all.push(n), Some(tag)) == elsewhere(all, Some(tag)).push(n),
        elsewhere(all.push(n), None) == elsewhere(all, None).push(n),
{
    assert(all.push(n).drop_last() == all);
}

/// Notes are listed newest first, a line each: the tag, the short label of its trust, its time, its text,
/// and how many others the tag has.
pub proof fn the_newest_note_is_listed_first(all: Seq<NoteView>, n: NoteView)
    ensures
        listing(Seq::empty()) == Seq::<char>::empty(),
        n.dupes <= 0 ==> listing(all.push(n)) == "\n- "@ + n.tag + " ("@ + abbreviated(n.trust) + " · "@ + clock::utc(
            n.timestamp,
        ) + "): \""@ + n.note + "\""@ + listing(all),
        n.dupes > 0 ==> listing(all.push(n)) == "\n- "@ + n.tag + " ("@ + abbreviated(n.trust) + " · "@ + clock::utc(
            n.timestamp,
        ) + "): \""@ + n.note + "\""@ + " [+"@ + text::decimal(n.dupes as int) + " more]"@ + listing(all),
{
    assert(all.push(n).drop_last() == all);
    let l = "\n- "@ + n.tag + " ("@ + abbreviated(n.trust) + " · "@ + clock::utc(n.timestamp) + "): \""@ + n.note
        + "\""@;
    if n.dupes <= 0 {
        assert(l + Seq::<char>::empty() == l);
    } else {
        assert(l + (" [+"@ + text::decimal(n.dupes as int) + " more]"@) == l + " [+"@ + text::decimal(n.dupes as int)
            + " more]"@);
    }
}

proof fn lemma_gathered(so_far: Seq<Seq<char>>, tags: Seq<Seq<char>>, tag: Seq<char>, x: Seq<char>)
    ensures
        gathered(so_far, tags, tag).contains(x) <==> so_far.contains(x) || (tags.contains(x) && x != tag),
        so_far.no_duplicates() ==> gathered(so_far, tags, tag).no_duplicates(),
    decreases tags.len(),
{
    if tags.len() > 0 {
        let d = tags.drop_last();
        let r = gathered(so_far, d, tag);
        let g = gathered(so_far, tags, tag);
        lemma_gathered(so_far, d, tag, x);
        assert(tags == d.push(tags.last()));
        assert(tags[tags.len() - 1] == tags.last());
        if tags.contains(x) && x != tags.last() {
            let i = choose|i: int| 0 <= i < tags.len() && tags[i] == x;
            assert(d[i] == x);
        }
        if d.contains(x) {
            let i = choose|i: int| 0 <= i < d.len() && d[i] == x;
            assert(tags[i] == x);
        }
        if g.len() > r.len() {
            assert(g == r.push(tags.last()));
            assert(g[g.len() - 1] == tags.last());
            if g.contains(x) && x != tags.last() {
                let i = choose|i: int| 0 <= i < g.len() && g[i] == x;
                assert(r[i] == x);
            }
            if r.contains(x) {
                let i = choose|i: int| 0 <= i < r.len() && r[i] == x;
                assert(g[i] == x);
            }
        }
    }
}

/// The co-tags of a thread are the other tags that stand beside its own on some entry, each once.
pub proof fn co_tags_stand_beside_the_thread(metas: Seq<MetaView>, tag: Seq<char>, x: Seq<char>)
    ensures
        co_tags(metas, tag).contains(x) <==> x != tag && exists|i: int|
            0 <= i < metas.len() && (#[trigger] metas[i]).tags.contains(tag) && metas[i].tags.contains(x),
        co_tags(metas, tag).no_duplicates(),
    decreases metas.len(),
{
    if metas.len() > 0 {
        let d = metas.drop_last();
        let l = metas[metas.len() - 1];
        co_tags_stand_beside_the_thread(d, tag, x);
        lemma_gathered(co_tags(d, tag), l.tags, tag, x);
        if exists|i: int| 0 <= i < d.len() && (#[trigger] d[i]).tags.contains(tag) && d[i].tags.contains(x) {
            let i = choose|i: int|
                0 <= i < d.len() && (#[trigger] d[i]).tags.contains(tag) && d[i].tags.contains(x);
            assert(metas[i] == d[i]);
        }
        if exists|i: int|
            0 <= i < metas.len() && (#[trigger] metas[i]).tags.contains(tag) && metas[i].tags.contains(x) {
            let i = choose|i: int|
                0 <= i < metas.len() && (#[trigger] metas[i]).tags.contains(tag) && metas[i].tags.contains(x);
            if i < d.len() {
                assert(d[i] == metas[i]);
            }
        }
    }
}

proof fn lemma_line_in_either(a: Seq<Seq<char>>, b: Seq<Seq<char>>, x: Seq<char>)
    ensures
        a.contains(x) ==> (a + b).contains(x),
        b.contains(x) ==> (a + b).contains(x),
{
    if a.contains(x) {
        let i = choose|i: int| 0 <= i < a.len() && a[i] == x;
        assert((a + b)[i] == x);
    }
    if b.contains(x) {
        let i = choose|i: int| 0 <= i < b.len() && b[i] == x;
        assert((a + b)[a.len() + i] == x);
    }
}

/// What the map of the environment says: the runs by day where there are any, the sources where they are
/// asked for, the notes of other threads, and of this thread its runs, its latest note and its co-tags.
pub proof fn the_map_says_what_there_is(
    s: StatsView,
    catalogue: Seq<char>,
    today: Seq<char>,
    tag: Option<Seq<char>>,
    cfg: RunlogContext,
    by_source: bool,
)
    requires
        cfg.environment > 0,
    ensures
        ({
            let all = environment_lines(s, catalogue, today, tag, cfg, by_source);
            let others = elsewhere(
                notes::selected(catalogue, None, None, cfg.dedup_notes, cfg.recent_notes as int),
                tag,
            );
            let n = cfg.environment as int;
            &&& s.days != Map::<Seq<char>, usize>::empty() ==> all.contains(
                "Runs/day: "@ + histogram(s.days, n) + "."@,
            )
            &&& by_source && s.by_source != Map::<Seq<char>, Days>::empty() ==> all.contains(
                sources_line(s.by_source),
            )
            &&& others.len() > 0 && cfg.dedup_notes ==> all.contains(
                "Recent notes (your sticky memory across threads, "@ + "latest per tag"@ + "):"@ + listing(others),
            )
            &&& others.len() > 0 && !cfg.dedup_notes ==> all.contains(
                "Recent notes (your sticky memory across threads, "@ + "all, newest first"@ + "):"@ + listing(others),
            )
            &&& tag matches Some(t) ==> {
                let own = notes::selected(catalogue, None, Some(t), true, 1);
                let co = co_tags(reader::metas(today), t);
                &&& !s.by_tag.contains_key(t) ==> all.contains(
                    "This thread (`"@ + t + "`): no runs recorded yet."@,
                )
                &&& s.by_tag.contains_key(t) && s.by_tag[t] != Map::<Seq<char>, usize>::empty() ==> all.contains(
                    "This thread (`"@ + t + "`)/day: "@ + histogram(s.by_tag[t], n) + "."@,
                )
                &&& own.len() > 0 ==> all.contains(own_note(own.last()))
                &&& co.len() > 0 ==> all.contains("This thread's co-tags: "@ + text::joined(co, ", "@) + "."@)
            }
        }),
{
    let all = environment_lines(s, catalogue, today, tag, cfg, by_source);
    let others = elsewhere(
        notes::selected(catalogue, None, None, cfg.dedup_notes, cfg.recent_notes as int),
        tag,
    );
    let n = cfg.environment as int;
    let a1 = line_if(s.days != Map::<Seq<char>, usize>::empty(), "Runs/day: "@ + histogram(s.days, n) + "."@);
    let a2 = line_if(
        by_source && s.by_source != Map::<Seq<char>, Days>::empty(),
        sources_line(s.by_source),
    );
    let a3 = match tag {
        Some(t) => seq![thread_line(s.by_tag, t, n)],
        None => Seq::empty(),
    };
    let b = line_if(others.len() > 0, recent_notes(others, cfg.dedup_notes));
    let c = about_thread(catalogue, today, tag);
    assert(all == a1 + a2 + a3 + b + c);
    if s.days != Map::<Seq<char>, usize>::empty() {
        lemma_shown(a1, a1[0], a2, a3, b, c, 0);
    }
    if by_source && s.by_source != Map::<Seq<char>, Days>::empty() {
        lemma_shown(a1, a2[0], a2, a3, b, c, 1);
    }
    if others.len() > 0 {
        lemma_shown(a1, b[0], a2, a3, b, c, 3);
    }
    if let Some(t) = tag {
        lemma_shown(a1, a3[0], a2, a3, b, c, 2);
        let own = notes::selected(catalogue, None, Some(t), true, 1);
        let co = co_tags(reader::metas(today), t);
        if own.len() > 0 {
            assert(c[0] == own_note(own.last()));
            lemma_shown(a1, c[0], a2, a3, b, c, 4);
        }
        if co.len() > 0 {
            let k = c.len() - 1;
            assert(c[k] == "This thread's co-tags: "@ + text::joined(co, ", "@) + "."@);
            lemma_shown(a1, c[k], a2, a3, b, c, 4);
        }
    }
}

proof fn lemma_shown(
    a1: Seq<Seq<char>>,
    x: Seq<char>,
    a2: Seq<Seq<char>>,
    a3: Seq<Seq<char>>,
    b: Seq<Seq<char>>,
    c: Seq<Seq<char>>,
    part: int,
)
    requires
        part == 0 ==> a1.contains(x),
        part == 1 ==> a2.contains(x),
        part == 2 ==> a3.contains(x),
        part == 3 ==> b.contains(x),
        part == 4 ==> c.contains(x),
        0 <= part <= 4,
    ensures
        (a1 + a2 + a3 + b + c).contains(x),
{
    lemma_line_in_either(a1, a2, x);
    lemma_line_in_either(a1 + a2, a3, x);
    lemma_line_in_either(a1 + a2 + a3, b, x);
    lemma_line_in_either(a1 + a2 + a3 + b, c, x);
}

/// The note of this thread says its text, its trust in full and its time.
pub proof fn the_own_note_says_its_text(n: NoteView)
    ensures
        ("This thread's note: \""@ + n.note + "\" ("@ + n.trust + " · "@ + clock::utc(n.timestamp) + ")"@).is_prefix_of(
            own_note(n),
        ),
{
    let p = "This thread's note: \""@ + n.note + "\" ("@ + n.trust + " · "@ + clock::utc(n.timestamp) + ")"@;
    assert(own_note(n).subrange(0, p.len() as int) == p);
}

/// The news of a resumed session: the headings of the runs since it last woke, where there are any, and
/// then the notes since then, each with its tag, its text and its trust.
pub proof fn the_news_are_of_since(day: Seq<char>, catalogue: Seq<char>, since: i64, i: int)
    ensures
        ({
            let all = news(day, catalogue, since);
            let runs = reader::filtered_headings(day, Some(since), 40, None);
            let fresh = notes::selected(catalogue, Some(since), None, false, 40);
            &&& text::blank(runs) && fresh.len() == 0 ==> all.len() == 0
            &&& !text::blank(runs) ==> all.len() > 0 && all[0] == "Other runs since you last woke:\n"@ + runs
            &&& 0 <= i < fresh.len() ==> all.len() > 0 && "New notes:\n"@.is_prefix_of(all.last()) && text::occurs(
                all.last(),
                "- "@ + fresh[i].tag + ": \""@ + fresh[i].note + "\" ("@ + fresh[i].trust + ")"@,
            )
        }),
{
    let fresh = notes::selected(catalogue, Some(since), None, false, 40);
    if 0 <= i < fresh.len() {
        let parts = fresh.map_values(|n: NoteView| new_note(n));
        let h = "New notes:\n"@;
        let l = h + text::joined(parts, "\n"@);
        assert(l.subrange(0, h.len() as int) == h);
        let j = text::lemma_joined_holds(parts, "\n"@, i);
        let w = parts[i];
        assert(w == "- "@ + fresh[i].tag + ": \""@ + fresh[i].note + "\" ("@ + fresh[i].trust + ")"@);
        assert(l.subrange(h.len() + j, h.len() + j + w.len()) == text::joined(parts, "\n"@).subrange(
            j,
            j + w.len(),
        ));
        assert(text::at(l, w, h.len() + j));
        assert(news(day, catalogue, since).last() == l);
    }
}

/// One source stands in front of another where it ran more often, and of two that ran as often by its
/// name.
pub proof fn the_busier_source_stands_first(a: Seq<char>, n: int, b: Seq<char>, m: int)
    ensures
        n > m ==> busier((a, n), (b, m)),
        n < m ==> !busier((a, n), (b, m)),
        n == m ==> (busier((a, n), (b, m)) <==> text_map::precedes(a, b)),
{
}

/// The sources that are shown are the twelve busiest at most, each with how often it ran over all days.
pub proof fn the_busiest_sources_are_shown(by_source: Map<Seq<char>, Days>, i: int)
    requires
        0 <= i < 12,
        i < ranked(totals(by_source)).len(),
    ensures
        text::occurs(
            sources_line(by_source),
            ranked(totals(by_source))[i].0 + " "@ + text::decimal(ranked(totals(by_source))[i].1),
        ),
        "By source (recent): "@.is_prefix_of(sources_line(by_source)),
        by_source.dom().finite() ==> forall|s: Seq<char>| #[trigger] by_source.contains_key(s) ==> totals(
            by_source,
        ).contains((s, total(by_source[s], text_map::in_order(by_source[s].dom())))),
{
    let all = ranked(totals(by_source));
    let shown = first_of(all, 12);
    let parts = shown.map_values(|x: (Seq<char>, int)| bucket(x.0, x.1));
    assert(shown[i] == all[i]);
    let w = parts[i];
    assert(w == all[i].0 + " "@ + text::decimal(all[i].1));
    let j = text::lemma_joined_holds(parts, " · "@, i);
    let h = "By source (recent): "@;
    let l = sources_line(by_source);
    let t = text::joined(parts, " · "@);
    assert(l == h + t + "."@);
    assert(l.subrange(0, h.len() as int) == h);
    assert(l.subrange(h.len() + j, h.len() + j + w.len()) == t.subrange(j, j + w.len()));
    assert(text::at(l, w, h.len() + j));
    if by_source.dom().finite() {
        text_map::a_set_in_order_holds_its_members(by_source.dom());
        let keys = text_map::in_order(by_source.dom());
        assert forall|s: Seq<char>| #[trigger] by_source.contains_key(s) implies totals(by_source).contains(
            (s, total(by_source[s], text_map::in_order(by_source[s].dom()))),
        ) by {
            assert(keys.contains(s));
            let k = choose|k: int| 0 <= k < keys.len() && keys[k] == s;
            assert(totals(by_source)[k] == (s, runs(by_source[s])));
        }
    }
}

/// The counts by day show each of the last days with its own count.
pub proof fn each_day_shows_its_count(m: Days, n: int, i: int)
    requires
        0 <= i < recent_days(m, n).len(),
    ensures
        text::occurs(
            histogram(m, n),
            recent_days(m, n)[i] + " "@ + text::decimal(m[recent_days(m, n)[i]] as int),
        ),
{
    let parts = recent_days(m, n).map_values(|d: Seq<char>| bucket(d, m[d] as int));
    let j = text::lemma_joined_holds(parts, " · "@, i);
    assert(parts[i] == recent_days(m, n)[i] + " "@ + text::decimal(m[recent_days(m, n)[i]] as int));
}

/// A map that is asked to span no days spans one.
pub proof fn a_map_spans_a_day_at_least(
    s: StatsView,
    catalogue: Seq<char>,
    today: Seq<char>,
    tag: Option<Seq<char>>,
    none: RunlogContext,
    one: RunlogContext,
    by_source: bool,
)
    requires
        none.environment == 0,
        one.environment == 1,
        none.dedup_notes == one.dedup_notes,
        none.recent_notes == one.recent_notes,
    ensures
        environment_lines(s, catalogue, today, tag, none, by_source) == environment_lines(
            s,
            catalogue,
            today,
            tag,
            one,
            by_source,
        ),
{
}

/// The note of this thread ends on how many others its tag has, where it has any.
pub proof fn the_own_note_counts_the_others(n: NoteView)
    ensures
        n.dupes > 0 ==> (" [+"@ + text::decimal(n.dupes as int) + " more]"@ + "."@).is_suffix_of(own_note(n)),
        n.dupes <= 0 ==> own_note(n) == "This thread's note: \""@ + n.note + "\" ("@ + n.trust + " · "@ + clock::utc(
            n.timestamp,
        ) + ")"@ + "."@,
{
    let p = "This thread's note: \""@ + n.note + "\" ("@ + n.trust + " · "@ + clock::utc(n.timestamp) + ")"@;
    let o = own_note(n);
    if n.dupes > 0 {
        let z = " [+"@ + text::decimal(n.dupes as int) + " more]"@ + "."@;
        assert(o.subrange(o.len() - z.len(), o.len() as int) == z);
    } else {
        assert(p + Seq::<char>::empty() + "."@ == p + "."@);
    }
}

} // verus!
