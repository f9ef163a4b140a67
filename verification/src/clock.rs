//! Points in time as the model reads them.

use vstd::prelude::*;

use crate::text;

verus! {

/// The text of a unix time in universal time under a `strftime` format; none for a time that the
/// calendar does not reach.
pub uninterp spec fn utc_form(ts: int, fmt: Seq<char>) -> Option<Seq<char>>;

/// The format of every time that the model reads.
pub open spec fn plain_format() -> Seq<char> {
    "%Y-%m-%d %H:%M:%S UTC"@
}

/// The format of the present time, which also names the weekday.
pub open spec fn now_format() -> Seq<char> {
    "%Y-%m-%d %H:%M:%S UTC (%a)"@
}

/// `chrono::DateTime::from_timestamp` and `DateTime::format` with one of the two formats of this
/// crate: a text of the time alone, or none where the time is out of chrono's range.
#[verifier::external_body]
pub(crate) fn format_utc(ts: i64, fmt: &str) -> (r: Option<String>)
    requires
        fmt@ == plain_format() || fmt@ == now_format(),
    ensures
        text::opt(r) == utc_form(ts as int, fmt@),
{
    chrono::DateTime::from_timestamp(ts, 0).map(|dt| dt.format(fmt).to_string())
}

/// A unix time in universal time, or nothing where the calendar does not reach it.
pub open spec fn utc(ts: int) -> Seq<char> {
    or_nothing(utc_form(ts, plain_format()))
}

/// The present time with its weekday.
pub open spec fn utc_now(ts: int) -> Seq<char> {
    or_nothing(utc_form(ts, now_format()))
}

/// A text, or the empty one.
pub open spec fn or_nothing(s: Option<Seq<char>>) -> Seq<char> {
    match s {
        Some(x) => x,
        None => Seq::empty(),
    }
}

fn or_empty(s: Option<String>) -> (r: String)
    ensures
        r@ == or_nothing(text::opt(s)),
{
    match s {
        Some(x) => x,
        None => String::new(),
    }
}

/// Unix seconds as `YYYY-MM-DD HH:MM:SS UTC`, so that every time the model reads can be compared.
pub fn fmt_utc(ts: i64) -> (r: String)
    ensures
        r@ == utc(ts as int),
{
    or_empty(format_utc(ts, "%Y-%m-%d %H:%M:%S UTC"))
}

/// Unix seconds as `YYYY-MM-DD HH:MM:SS UTC (Www)`.
pub fn fmt_now(ts: i64) -> (r: String)
    ensures
        r@ == utc_now(ts as int),
{
    or_empty(format_utc(ts, "%Y-%m-%d %H:%M:%S UTC (%a)"))
}

/// The time that a line carries as unix seconds.
pub open spec fn stamp_on(line: Seq<char>) -> Option<int> {
    if "- timestamp: "@.is_prefix_of(line) {
        text::parsed_i64(text::trimmed(line.skip("- timestamp: "@.len() as int)))
    } else {
        None
    }
}

/// What a line's unix time reads as; none for a line without one, or with one out of range.
pub open spec fn shown_on(line: Seq<char>) -> Option<Seq<char>> {
    match stamp_on(line) {
        Some(ts) => utc_form(ts, plain_format()),
        None => None,
    }
}

/// A line whose time has a readable form, and any other line as it is.
pub open spec fn readable(line: Seq<char>, shown: Option<Seq<char>>) -> Seq<char> {
    match shown {
        Some(t) => "- at: "@ + t,
        None => line,
    }
}

/// Puts the readable form of its time in place of a line, where it has one.
pub fn readable_line(line: &str, shown: Option<&str>) -> (r: String)
    ensures
        r@ == readable(line@, text::opt_str(shown)),
{
    match shown {
        Some(t) => {
            let mut a = "- at: ".to_owned();
            a.append(t);
            a
        },
        None => line.to_owned(),
    }
}

/// A text with the unix times of its lines made readable.
pub open spec fn humanized(s: Seq<char>) -> Seq<char> {
    text::joined(text::lines(s).map_values(|l: Seq<char>| readable(l, shown_on(l))), "\n"@)
}

fn line_stamp(line: &str) -> (r: Option<i64>)
    ensures
        (match r {
            Some(n) => stamp_on(line@) == Some(n as int),
            None => stamp_on(line@) is None,
        }),
{
    match text::strip_prefix(line, "- timestamp: ") {
        Some(rest) => text::parse_i64(&text::trim(&rest)),
        None => None,
    }
}

/// Rewrites the `- timestamp: ` lines of rendered entries into readable `- at: ` lines.
pub fn humanize_entry_times(s: &str) -> (r: String)
    ensures
        r@ == humanized(s@),
{
    let lines = text::lines_of(s);
    let ghost want = text::lines(s@).map_values(|l: Seq<char>| readable(l, shown_on(l)));
    let mut out: Vec<String> = Vec::new();
    let mut i: usize = 0;
    while i < lines.len()
        invariant
            i <= lines.len(),
            text::views(lines@) == text::lines(s@),
            want == text::lines(s@).map_values(|l: Seq<char>| readable(l, shown_on(l))),
            text::views(out@) == want.take(i as int),
        decreases lines.len() - i,
    {
        let ghost l = text::views(lines@)[i as int];
        let shown = match line_stamp(&lines[i]) {
            Some(ts) => format_utc(ts, "%Y-%m-%d %H:%M:%S UTC"),
            None => None,
        };
        let line = match &shown {
            Some(t) => readable_line(&lines[i], Some(t.as_str())),
            None => readable_line(&lines[i], None),
        };
        assert(line@ == readable(l, shown_on(l)));
        let ghost before = out@;
        out.push(line);
        assert(text::views(out@) == text::views(before).push(line@));
        i += 1;
        assert(text::views(out@) == want.take(i as int));
    }
    assert(want.take(i as int) == want);
    text::join(&out, "\n")
}

/// A time is shown in universal time to the second, the present one with its weekday, and a time that the
/// calendar does not reach as nothing.
pub proof fn a_time_is_shown_in_universal_time(ts: int, s: Seq<char>)
    ensures
        utc_form(ts, "%Y-%m-%d %H:%M:%S UTC"@) == Some(s) ==> utc(ts) == s,
        utc_form(ts, "%Y-%m-%d %H:%M:%S UTC"@) is None ==> utc(ts).len() == 0,
        utc_form(ts, "%Y-%m-%d %H:%M:%S UTC (%a)"@) == Some(s) ==> utc_now(ts) == s,
        utc_form(ts, "%Y-%m-%d %H:%M:%S UTC (%a)"@) is None ==> utc_now(ts).len() == 0,
{
}

/// A line with a readable time is shown with it, and every other line stays as it is and where it is.
pub proof fn only_times_are_made_readable(s: Seq<char>, i: int, ts: int, shown: Seq<char>)
    requires
        0 <= i < text::lines(s).len(),
    ensures
        ({
            let all = Seq::new(text::lines(s).len(), |j: int| readable(text::lines(s)[j], shown_on(text::lines(s)[j])));
            let l = text::lines(s)[i];
            &&& humanized(s) == text::joined(all, "\n"@)
            &&& !"- timestamp: "@.is_prefix_of(l) ==> all[i] == l
            &&& i64::MIN <= ts <= i64::MAX && l == "- timestamp: "@ + text::decimal(ts) && utc_form(
                ts,
                "%Y-%m-%d %H:%M:%S UTC"@,
            ) == Some(shown) ==> all[i] == "- at: "@ + shown
            &&& i64::MIN <= ts <= i64::MAX && l == "- timestamp: "@ + text::decimal(ts) && utc_form(
                ts,
                "%Y-%m-%d %H:%M:%S UTC"@,
            ) is None ==> all[i] == l
        }),
{
    let ls = text::lines(s);
    let all = Seq::new(ls.len(), |j: int| readable(ls[j], shown_on(ls[j])));
    assert(ls.map_values(|l: Seq<char>| readable(l, shown_on(l))) == all);
    let m = "- timestamp: "@;
    let l = ls[i];
    if i64::MIN <= ts <= i64::MAX && l == m + text::decimal(ts) {
        assert(l.subrange(0, m.len() as int) == m);
        assert(l.skip(m.len() as int) == text::decimal(ts));
        text::lemma_decimal_is_trimmed(ts);
        text::decimal_reads_back(ts as i64);
    }
}

} // verus!
