//! The two runlog writers, as functions on the text of a day's file.

use vstd::prelude::*;

use crate::model::runlog::EntryView;
use crate::model::runlog::RunLogEntry;
use crate::runlog::reader;
use crate::runlog::render;
use crate::runlog::stats;
use crate::runlog::stats::RunlogStats;
use crate::text;

verus! {

/// What came of appending an entry.
pub struct Appended {
    /// The new text of the day's file.
    pub content: String,
    /// Where the entry can be found.
    pub reference: String,
}

/// A writer of runlogs.
pub trait RunLogWriter {
    /// The day's file with one more entry.
    spec fn grown(existing: Seq<char>, date: Seq<char>, e: EntryView) -> Seq<char>;

    /// The tail of a day's file that passes the gates.
    spec fn shown(day: Seq<char>, since: Option<i64>, max: int, tag: Option<Seq<char>>) -> Seq<char>;

    /// Appends one entry to the text of the day's file.
    fn append(&mut self, existing: &str, date: &str, entry: &RunLogEntry) -> (r: Appended)
        ensures
            r.content@ == Self::grown(existing@, date@, entry@),
            r.reference@ == render::reference(date@, entry@.run_id),
    ;

    /// The tail of a day's file, by the optional time and tag gates.
    fn tail_filtered(&self, day: &str, since: Option<i64>, max_entries: usize, tag: Option<&str>) -> (r: String)
        ensures
            r@ == Self::shown(day@, since, max_entries as int, text::opt_str(tag)),
    ;

    /// The recent tail of a day's file.
    fn tail(&self, day: &str, max_entries: usize) -> (r: String)
        ensures
            r@ == Self::shown(day@, None, max_entries as int, None),
    {
        self.tail_filtered(day, None, max_entries, None)
    }
}

/// The writer of full entries, which also counts what it appends.
pub struct DailyFileRunLog {
    /// Who the commits are attributed to.
    pub author_did: String,
    pub stats: RunlogStats,
}

impl DailyFileRunLog {
    /// A writer that has counted nothing yet.
    pub fn new(author_did: &str) -> (r: Self)
        ensures
            r.author_did@ == author_did@,
            r.stats@ == stats::no_stats(),
    {
        DailyFileRunLog { author_did: author_did.to_owned(), stats: RunlogStats::default() }
    }

    /// Counts the retained day files anew.
    pub fn rebuild_stats(&mut self, files: &[(String, String)])
        ensures
            final(self).stats@ == stats::rebuilt(stats::file_views(files@)),
            final(self).author_did == old(self).author_did,
    {
        self.stats = RunlogStats::rebuild(files);
    }
}

impl RunLogWriter for DailyFileRunLog {
    open spec fn grown(existing: Seq<char>, date: Seq<char>, e: EntryView) -> Seq<char> {
        render::appended(existing, date, e)
    }

    open spec fn shown(day: Seq<char>, since: Option<i64>, max: int, tag: Option<Seq<char>>) -> Seq<char> {
        reader::filtered_headings(day, since, max, tag)
    }

    fn append(&mut self, existing: &str, date: &str, entry: &RunLogEntry) -> (r: Appended)
        ensures
            final(self).stats@ == stats::recorded(old(self).stats@, date@, entry@.source, entry@.tags),
            final(self).author_did == old(self).author_did,
    {
        let content = render::append_entry(existing, date, entry);
        self.stats.record(date, &entry.source, &entry.tags);
        Appended { content, reference: render::runlog_ref(date, &entry.run_id) }
    }

    fn tail_filtered(&self, day: &str, since: Option<i64>, max_entries: usize, tag: Option<&str>) -> (r: String) {
        reader::filter_headings(day, since, max_entries, tag)
    }
}

/// The minimal writer: one line an entry, which carries no metadata to filter by.
pub struct FileRunLog {
    /// The directory of the day files.
    pub dir: String,
}

impl FileRunLog {
    /// A writer to that directory.
    pub fn new(dir: &str) -> (r: Self)
        ensures
            r.dir@ == dir@,
    {
        FileRunLog { dir: dir.to_owned() }
    }
}

impl RunLogWriter for FileRunLog {
    open spec fn grown(existing: Seq<char>, date: Seq<char>, e: EntryView) -> Seq<char> {
        existing + render::compact_line(e)
    }

    open spec fn shown(day: Seq<char>, since: Option<i64>, max: int, tag: Option<Seq<char>>) -> Seq<char> {
        text::joined(text::last_of(text::lines(day), max), "\n"@)
    }

    fn append(&mut self, existing: &str, date: &str, entry: &RunLogEntry) -> (r: Appended)
        ensures
            *final(self) == *old(self),
    {
        let mut content = existing.to_owned();
        content.append(&render::render_compact(entry));
        Appended { content, reference: render::runlog_ref(date, &entry.run_id) }
    }

    fn tail_filtered(&self, day: &str, since: Option<i64>, max_entries: usize, tag: Option<&str>) -> (r: String) {
        let lines = text::keep_last(text::lines_of(day), max_entries);
        text::join(&lines, "\n")
    }
}

} // verus!
