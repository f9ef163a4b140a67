//! Aggregate runlog activity, bucketed by day and cross-cut by source and by tag.

use vstd::prelude::*;

use crate::model::runlog::EntryView;
use crate::runlog::laws;
use crate::runlog::reader;
use crate::runlog::reader::MetaView;
use crate::runlog::render;
use crate::text;
use crate::text_map::TextMap;

verus! {

/// Counts by date.
pub type Days = Map<Seq<char>, usize>;

/// Runs by day, and by day for each source and each tag.
pub struct RunlogStats {
    pub days: TextMap<usize>,
    pub by_source: TextMap<TextMap<usize>>,
    pub by_tag: TextMap<TextMap<usize>>,
}

/// The contents of the aggregate.
#[verifier::ext_equal]
pub struct StatsView {
    pub days: Days,
    pub by_source: Map<Seq<char>, Days>,
    pub by_tag: Map<Seq<char>, Days>,
}

impl View for RunlogStats {
    type V = StatsView;

    open spec fn view(&self) -> StatsView {
        StatsView {
            days: self.days@,
            by_source: nested(self.by_source),
            by_tag: nested(self.by_tag),
        }
    }
}

/// The contents of a map of maps.
pub open spec fn nested(m: TextMap<TextMap<usize>>) -> Map<Seq<char>, Days> {
    m@.map_values(|x: TextMap<usize>| x@)
}

/// One more, up to the largest count there is.
pub open spec fn one_more(n: usize) -> usize {
    if n < usize::MAX {
        (n + 1) as usize
    } else {
        n
    }
}

/// The counts with one more on that date.
pub open spec fn bumped(m: Days, date: Seq<char>) -> Days {
    m.insert(
        date,
        if m.dom().contains(date) {
            one_more(m[date])
        } else {
            1
        },
    )
}

/// The counts of a group with one more on that date.
pub open spec fn bumped_in(m: Map<Seq<char>, Days>, group: Seq<char>, date: Seq<char>) -> Map<Seq<char>, Days> {
    m.insert(
        group,
        bumped(
            if m.dom().contains(group) {
                m[group]
            } else {
                Map::empty()
            },
            date,
        ),
    )
}

/// The counts of each tag with one more on that date.
pub open spec fn tagged(m: Map<Seq<char>, Days>, tags: Seq<Seq<char>>, date: Seq<char>) -> Map<Seq<char>, Days>
    decreases tags.len(),
{
    if tags.len() == 0 {
        m
    } else {
        bumped_in(tagged(m, tags.drop_last(), date), tags.last(), date)
    }
}

/// The aggregate with one more run: one more that day, for its source if it names one, and for each
/// of its tags.
pub open spec fn recorded(s: StatsView, date: Seq<char>, source: Seq<char>, tags: Seq<Seq<char>>) -> StatsView {
    StatsView {
        days: bumped(s.days, date),
        by_source: if source.len() > 0 {
            bumped_in(s.by_source, source, date)
        } else {
            s.by_source
        },
        by_tag: tagged(s.by_tag, tags, date),
    }
}

/// The empty aggregate.
pub open spec fn no_stats() -> StatsView {
    StatsView { days: Map::empty(), by_source: Map::empty(), by_tag: Map::empty() }
}

fn bump(m: &mut TextMap<usize>, date: &str)
    ensures
        final(m)@ == bumped(old(m)@, date@),
{
    let n: usize = match m.get(date) {
        Some(n) => if *n < usize::MAX {
            *n + 1
        } else {
            *n
        },
        None => 1,
    };
    m.insert(date, n);
}

fn bump_in(m: &mut TextMap<TextMap<usize>>, group: &str, date: &str)
    ensures
        nested(*final(m)) == bumped_in(nested(*old(m)), group@, date@),
{
    let ghost before = nested(*m);
    let mut days = match m.remove(group) {
        Some(d) => d,
        None => TextMap::new(),
    };
    assert(days@ == (if before.dom().contains(group@) {
        before[group@]
    } else {
        Map::empty()
    }));
    bump(&mut days, date);
    let ghost d = days@;
    m.insert(group, days);
    assert(nested(*m) == before.insert(group@, d));
}

impl Default for RunlogStats {
    fn default() -> (r: Self)
        ensures
            r@ == no_stats(),
    {
        let r = RunlogStats { days: TextMap::new(), by_source: TextMap::new(), by_tag: TextMap::new() };
        assert(r@ == no_stats());
        r
    }
}

impl RunlogStats {
    /// Counts one run.
    pub fn record(&mut self, date: &str, source: &str, tags: &[String])
        ensures
            final(self)@ == recorded(old(self)@, date@, source@, text::views(tags@)),
    {
        bump(&mut self.days, date);
        if !source.is_empty() {
            bump_in(&mut self.by_source, source, date);
        }
        let ghost all = text::views(tags@);
        let ghost start = nested(self.by_tag);
        let ghost days = self.days;
        let ghost by_source = self.by_source;
        let mut i: usize = 0;
        assert(all.take(0) == Seq::<Seq<char>>::empty());
        while i < tags.len()
            invariant
                i <= tags.len(),
                all == text::views(tags@),
                nested(self.by_tag) == tagged(start, all.take(i as int), date@),
                self.days == days,
                self.by_source == by_source,
            decreases tags.len() - i,
        {
            assert(all.take(i + 1).drop_last() == all.take(i as int));
            assert(all.take(i + 1).last() == tags@[i as int]@);
            bump_in(&mut self.by_tag, &tags[i], date);
            i += 1;
        }
        assert(all.take(i as int) == all);
    }

    /// Counts every entry of one day's file.
    fn record_day(&mut self, date: &str, text: &str)
        ensures
            final(self)@ == day_counted(old(self)@, date@, reader::metas(text@)),
    {
        let entries = reader::entries_meta(text);
        let ghost all = reader::meta_views(entries@);
        let ghost start = self@;
        let mut i: usize = 0;
        assert(all.take(0) == Seq::<MetaView>::empty());
        while i < entries.len()
            invariant
                i <= entries.len(),
                all == reader::meta_views(entries@),
                self@ == day_counted(start, date@, all.take(i as int)),
            decreases entries.len() - i,
        {
            assert(all.take(i + 1).drop_last() == all.take(i as int));
            assert(all.take(i + 1).last() == entries@[i as int]@);
            self.record(date, &entries[i].source, &entries[i].tags);
            i += 1;
        }
        assert(all.take(i as int) == all);
    }

    /// Rebuilds the aggregate from the day files, each a date and its text.
    pub fn rebuild(files: &[(String, String)]) -> (r: Self)
        ensures
            r@ == rebuilt(file_views(files@)),
    {
        let ghost all = file_views(files@);
        let mut r = RunlogStats::default();
        let mut i: usize = 0;
        assert(all.take(0) == Seq::<(Seq<char>, Seq<char>)>::empty());
        while i < files.len()
            invariant
                i <= files.len(),
                all == file_views(files@),
                r@ == rebuilt(all.take(i as int)),
            decreases files.len() - i,
        {
            assert(all.take(i + 1).drop_last() == all.take(i as int));
            assert(all.take(i + 1).last() == (files@[i as int].0@, files@[i as int].1@));
            r.record_day(&files[i].0, &files[i].1);
            i += 1;
        }
        assert(all.take(i as int) == all);
        r
    }
}

/// The aggregate with the entries of one day counted.
pub open spec fn day_counted(s: StatsView, date: Seq<char>, entries: Seq<MetaView>) -> StatsView
    decreases entries.len(),
{
    if entries.len() == 0 {
        s
    } else {
        recorded(
            day_counted(s, date, entries.drop_last()),
            date,
            entries.last().source,
            entries.last().tags,
        )
    }
}

/// The contents of several day files.
pub open spec fn file_views(v: Seq<(String, String)>) -> Seq<(Seq<char>, Seq<char>)> {
    v.map_values(|f: (String, String)| (f.0@, f.1@))
}

/// The aggregate of some day files.
pub open spec fn rebuilt(files: Seq<(Seq<char>, Seq<char>)>) -> StatsView
    decreases files.len(),
{
    if files.len() == 0 {
        no_stats()
    } else {
        day_counted(rebuilt(files.drop_last()), files.last().0, reader::metas(files.last().1))
    }
}

/// The counts that several files add to an aggregate.
pub open spec fn files_counted(s: StatsView, files: Seq<(Seq<char>, Seq<char>)>) -> StatsView
    decreases files.len(),
{
    if files.len() == 0 {
        s
    } else {
        day_counted(files_counted(s, files.drop_last()), files.last().0, reader::metas(files.last().1))
    }
}

proof fn lemma_rebuilt_concat(a: Seq<(Seq<char>, Seq<char>)>, b: Seq<(Seq<char>, Seq<char>)>)
    ensures
        rebuilt(a + b) == files_counted(rebuilt(a), b),
    decreases b.len(),
{
    if b.len() == 0 {
        assert(a + b == a);
    } else {
        lemma_rebuilt_concat(a, b.drop_last());
        assert((a + b).drop_last() == a + b.drop_last());
        assert((a + b).last() == b.last());
    }
}

proof fn lemma_bumps_commute(m: Days, a: Seq<char>, b: Seq<char>)
    ensures
        bumped(bumped(m, a), b) == bumped(bumped(m, b), a),
{
    let (x, y) = (bumped(bumped(m, a), b), bumped(bumped(m, b), a));
    assert(x.dom() == y.dom());
    assert(x == y);
}

proof fn lemma_group_bumps_commute(
    m: Map<Seq<char>, Days>,
    g: Seq<char>,
    a: Seq<char>,
    h: Seq<char>,
    b: Seq<char>,
)
    ensures
        bumped_in(bumped_in(m, g, a), h, b) == bumped_in(bumped_in(m, h, b), g, a),
{
    let (x, y) = (bumped_in(bumped_in(m, g, a), h, b), bumped_in(bumped_in(m, h, b), g, a));
    let start = if m.dom().contains(g) {
        m[g]
    } else {
        Map::empty()
    };
    lemma_bumps_commute(start, a, b);
    assert(x.dom() == y.dom());
    assert(x == y);
}

proof fn lemma_tag_bump_commutes(
    m: Map<Seq<char>, Days>,
    tags: Seq<Seq<char>>,
    a: Seq<char>,
    h: Seq<char>,
    b: Seq<char>,
)
    ensures
        bumped_in(tagged(m, tags, a), h, b) == tagged(bumped_in(m, h, b), tags, a),
    decreases tags.len(),
{
    if tags.len() > 0 {
        lemma_tag_bump_commutes(m, tags.drop_last(), a, h, b);
        lemma_group_bumps_commute(tagged(m, tags.drop_last(), a), tags.last(), a, h, b);
    }
}

proof fn lemma_tags_commute(
    m: Map<Seq<char>, Days>,
    tags: Seq<Seq<char>>,
    a: Seq<char>,
    others: Seq<Seq<char>>,
    b: Seq<char>,
)
    ensures
        tagged(tagged(m, tags, a), others, b) == tagged(tagged(m, others, b), tags, a),
    decreases others.len(),
{
    if others.len() > 0 {
        lemma_tags_commute(m, tags, a, others.drop_last(), b);
        lemma_tag_bump_commutes(tagged(m, others.drop_last(), b), tags, a, others.last(), b);
    }
}

/// The order in which runs are counted does not matter.
pub proof fn counting_commutes(
    s: StatsView,
    a: Seq<char>,
    source: Seq<char>,
    tags: Seq<Seq<char>>,
    b: Seq<char>,
    other_source: Seq<char>,
    other_tags: Seq<Seq<char>>,
)
    ensures
        recorded(recorded(s, a, source, tags), b, other_source, other_tags) == recorded(
            recorded(s, b, other_source, other_tags),
            a,
            source,
            tags,
        ),
{
    lemma_bumps_commute(s.days, a, b);
    lemma_group_bumps_commute(s.by_source, source, a, other_source, b);
    lemma_tags_commute(s.by_tag, tags, a, other_tags, b);
}

proof fn lemma_day_commutes(
    s: StatsView,
    date: Seq<char>,
    entries: Seq<MetaView>,
    a: Seq<char>,
    source: Seq<char>,
    tags: Seq<Seq<char>>,
)
    ensures
        day_counted(recorded(s, a, source, tags), date, entries) == recorded(
            day_counted(s, date, entries),
            a,
            source,
            tags,
        ),
    decreases entries.len(),
{
    if entries.len() > 0 {
        lemma_day_commutes(s, date, entries.drop_last(), a, source, tags);
        counting_commutes(
            day_counted(s, date, entries.drop_last()),
            a,
            source,
            tags,
            date,
            entries.last().source,
            entries.last().tags,
        );
    }
}

proof fn lemma_files_commute(
    s: StatsView,
    files: Seq<(Seq<char>, Seq<char>)>,
    a: Seq<char>,
    source: Seq<char>,
    tags: Seq<Seq<char>>,
)
    ensures
        files_counted(recorded(s, a, source, tags), files) == recorded(
            files_counted(s, files),
            a,
            source,
            tags,
        ),
    decreases files.len(),
{
    if files.len() > 0 {
        lemma_files_commute(s, files.drop_last(), a, source, tags);
        lemma_day_commutes(
            files_counted(s, files.drop_last()),
            files.last().0,
            reader::metas(files.last().1),
            a,
            source,
            tags,
        );
    }
}

/// Counting an entry as it is appended comes to the same as rebuilding from the grown file, wherever
/// the file stands among the others: the live aggregate never drifts from the files.
pub proof fn live_counts_match_the_files(
    earlier: Seq<(Seq<char>, Seq<char>)>,
    date: Seq<char>,
    existing: Seq<char>,
    later: Seq<(Seq<char>, Seq<char>)>,
    e: EntryView,
)
    requires
        laws::whole(existing),
        laws::well_rendered(e),
        reader::metas(render::title(date)) == Seq::<MetaView>::empty(),
        laws::whole(render::title(date)),
    ensures
        rebuilt(earlier.push((date, render::appended(existing, date, e))) + later) == recorded(
            rebuilt(earlier.push((date, existing)) + later),
            date,
            e.source,
            e.tags,
        ),
{
    let grown = render::appended(existing, date, e);
    laws::the_runlog_only_grows(existing, date, e);
    let m = reader::metas(existing);
    assert(m.push(laws::meta_of(e)).drop_last() == m);
    assert(earlier.push((date, existing)).drop_last() == earlier);
    assert(earlier.push((date, grown)).drop_last() == earlier);
    lemma_rebuilt_concat(earlier.push((date, existing)), later);
    lemma_rebuilt_concat(earlier.push((date, grown)), later);
    lemma_files_commute(rebuilt(earlier.push((date, existing))), later, date, e.source, e.tags);
}

/// A day without a file counts as one with an empty file.
pub proof fn an_empty_file_counts_nothing(
    earlier: Seq<(Seq<char>, Seq<char>)>,
    date: Seq<char>,
    later: Seq<(Seq<char>, Seq<char>)>,
)
    ensures
        laws::whole(Seq::empty()),
        rebuilt(earlier.push((date, Seq::empty())) + later) == rebuilt(earlier + later),
{
    laws::lemma_no_lines();
    let one = earlier.push((date, Seq::<char>::empty()));
    assert(one.drop_last() == earlier);
    assert(rebuilt(one) == rebuilt(earlier));
    lemma_rebuilt_concat(one, later);
    lemma_rebuilt_concat(earlier, later);
}

/// The live aggregate never drifts from the files where the appended entry is plain: after it, a
/// rebuild from the grown files changes nothing.
pub proof fn a_plain_entry_keeps_the_counts(
    earlier: Seq<(Seq<char>, Seq<char>)>,
    date: Seq<char>,
    existing: Seq<char>,
    later: Seq<(Seq<char>, Seq<char>)>,
    e: EntryView,
)
    requires
        laws::whole(existing),
        laws::plain_entry(e),
        !date.contains('\n'),
    ensures
        rebuilt(earlier.push((date, render::appended(existing, date, e))) + later) == recorded(
            rebuilt(earlier.push((date, existing)) + later),
            date,
            e.source,
            e.tags,
        ),
{
    laws::a_title_is_no_entry(date);
    laws::a_plain_entry_is_well_rendered(e);
    live_counts_match_the_files(earlier, date, existing, later, e);
}

/// One more run counts once on its day, once for its source on that day, where it names one, and leaves
/// every other day and every other source as it was.
pub proof fn one_more_run_counts_once(
    s: StatsView,
    date: Seq<char>,
    day: Seq<char>,
    source: Seq<char>,
    other: Seq<char>,
    tags: Seq<Seq<char>>,
)
    ensures
        ({
            let r = recorded(s, date, source, tags);
            &&& r.days.contains_key(date)
            &&& !s.days.contains_key(date) ==> r.days[date] == 1
            &&& s.days.contains_key(date) && s.days[date] < usize::MAX ==> r.days[date] == s.days[date] + 1
            &&& day != date ==> (r.days.contains_key(day) <==> s.days.contains_key(day))
            &&& day != date && s.days.contains_key(day) ==> r.days[day] == s.days[day]
            &&& source.len() == 0 ==> r.by_source == s.by_source
            &&& source.len() > 0 ==> r.by_source.contains_key(source) && r.by_source[source].contains_key(date)
            &&& source.len() > 0 && !s.by_source.contains_key(source) ==> r.by_source[source][date] == 1
            &&& source.len() > 0 && s.by_source.contains_key(source) && s.by_source[source].contains_key(date)
                && s.by_source[source][date] < usize::MAX ==> r.by_source[source][date] == s.by_source[source][date]
                + 1
            &&& other != source ==> (r.by_source.contains_key(other) <==> s.by_source.contains_key(other))
            &&& other != source && s.by_source.contains_key(other) ==> r.by_source[other] == s.by_source[other]
            &&& tags.len() == 0 ==> r.by_tag == s.by_tag
        }),
{
}

/// A run counts for each of its tags: one more tag counts once more under its own name on that day, and
/// under no other.
pub proof fn a_run_counts_for_each_tag(
    s: StatsView,
    date: Seq<char>,
    source: Seq<char>,
    tags: Seq<Seq<char>>,
    tag: Seq<char>,
    other: Seq<char>,
)
    ensures
        ({
            let before = recorded(s, date, source, tags).by_tag;
            let after = recorded(s, date, source, tags.push(tag)).by_tag;
            &&& after.contains_key(tag) && after[tag].contains_key(date)
            &&& !before.contains_key(tag) ==> after[tag][date] == 1
            &&& before.contains_key(tag) && before[tag].contains_key(date) && before[tag][date] < usize::MAX
                ==> after[tag][date] == before[tag][date] + 1
            &&& other != tag ==> (after.contains_key(other) <==> before.contains_key(other))
            &&& other != tag && before.contains_key(other) ==> after[other] == before[other]
        }),
{
    assert(tags.push(tag).drop_last() == tags);
}

/// What is rebuilt is the count of every entry of every file, each file under its own date: one more
/// file adds its entries, and one more entry counts as one more run of its source and its tags.
pub proof fn every_entry_of_every_file_counts(
    files: Seq<(Seq<char>, Seq<char>)>,
    date: Seq<char>,
    text: Seq<char>,
    s: StatsView,
    entries: Seq<MetaView>,
    m: MetaView,
)
    ensures
        rebuilt(Seq::empty()).days.dom().is_empty(),
        rebuilt(Seq::empty()).by_source.dom().is_empty(),
        rebuilt(Seq::empty()).by_tag.dom().is_empty(),
        rebuilt(files.push((date, text))) == day_counted(rebuilt(files), date, reader::metas(text)),
        day_counted(s, date, Seq::empty()) == s,
        day_counted(s, date, entries.push(m)) == recorded(day_counted(s, date, entries), date, m.source, m.tags),
{
    assert(files.push((date, text)).drop_last() == files);
    assert(entries.push(m).drop_last() == entries);
}

/// A count goes up by one, and stays where it is at the largest there is.
pub proof fn a_count_stops_at_the_largest(n: usize)
    ensures
        n < usize::MAX ==> one_more(n) == n + 1,
        one_more(usize::MAX) == usize::MAX,
{
}

} // verus!
