//! The day files of a runlog: which they are, and which of them retention drops.

use vstd::prelude::*;

use crate::text;
use crate::text_map;
use crate::text_map::Rank;

verus! {

/// `a` stands before `b` or is the same text.
pub open spec fn no_later(a: Seq<char>, b: Seq<char>) -> bool {
    a == b || text_map::precedes(a, b)
}

/// The texts stand in order.
pub open spec fn ordered(s: Seq<Seq<char>>) -> bool {
    forall|i: int, j: int| 0 <= i < j < s.len() ==> no_later(#[trigger] s[i], #[trigger] s[j])
}

/// Sorts texts by their characters.
pub fn sort_texts(v: Vec<String>) -> (r: Vec<String>)
    ensures
        ordered(text::views(r@)),
        text::views(r@).to_multiset() == text::views(v@).to_multiset(),
{
    let ghost all = text::views(v@);
    let mut v = v;
    let n: usize = v.len();
    let mut r: Vec<String> = Vec::new();
    let mut i: usize = 0;
    assert(all.skip(0) == all);
    assert(text::views(r@) == all.take(0));
    while i < n
        invariant
            i <= n == all.len(),
            text::views(v@) == all.skip(i as int),
            r@.len() == i,
            ordered(text::views(r@)),
            text::views(r@).to_multiset() == all.take(i as int).to_multiset(),
        decreases n - i,
    {
        let ghost left = v@;
        assert(text::views(left).len() == left.len());
        let x = v.remove(0);
        assert(text::views(left)[0] == x@);
        assert(all.skip(i as int)[0] == all[i as int]);
        assert(text::views(v@) == text::views(left).drop_first());
        assert(all.skip(i as int).drop_first() == all.skip(i + 1));
        let ghost before = text::views(r@);
        let k: usize = place(&r, &x);
        let ghost xs = x@;
        r.insert(k, x);
        assert(text::views(r@) == before.insert(k as int, xs));
        proof {
            lemma_inserted_stays_ordered(before, k as int, xs);
            vstd::seq_lib::to_multiset_insert(before, k as int, xs);
            assert(all.take(i + 1) == all.take(i as int).push(xs));
            vstd::seq_lib::to_multiset_build(all.take(i as int), xs);
        }
        i += 1;
    }
    assert(all.take(i as int) == all);
    r
}

fn place(r: &[String], x: &str) -> (k: usize)
    requires
        ordered(text::views(r@)),
    ensures
        k <= r@.len(),
        forall|j: int| 0 <= j < k ==> no_later(#[trigger] text::views(r@)[j], x@),
        k < r@.len() ==> text_map::precedes(x@, text::views(r@)[k as int]),
{
    let ghost s = text::views(r@);
    let mut k: usize = 0;
    while k < r.len()
        invariant
            k <= r.len(),
            s == text::views(r@),
            forall|j: int| 0 <= j < k ==> no_later(#[trigger] s[j], x@),
        decreases r.len() - k,
    {
        assert(s[k as int] == r@[k as int]@);
        match text_map::rank(&r[k], x) {
            Rank::After => {
                return k;
            },
            _ => {
                k += 1;
            },
        }
    }
    k
}

proof fn lemma_inserted_stays_ordered(s: Seq<Seq<char>>, k: int, x: Seq<char>)
    requires
        ordered(s),
        0 <= k <= s.len(),
        forall|j: int| 0 <= j < k ==> no_later(#[trigger] s[j], x),
        k < s.len() ==> text_map::precedes(x, s[k]),
    ensures
        ordered(s.insert(k, x)),
{
    let t = s.insert(k, x);
    assert forall|i: int, j: int| 0 <= i < j < t.len() implies no_later(#[trigger] t[i], #[trigger] t[j]) by {
        if j < k {
            assert(t[i] == s[i] && t[j] == s[j]);
        } else if j == k {
            assert(t[i] == s[i]);
        } else if i < k {
            assert(t[i] == s[i] && t[j] == s[j - 1]);
        } else if i == k {
            assert(t[j] == s[j - 1]);
            if j - 1 > k {
                assert(no_later(s[k], s[j - 1]));
                if s[k] != s[j - 1] {
                    text_map::lemma_precedes_transitive(x, s[k], s[j - 1]);
                }
            }
        } else {
            assert(t[i] == s[i - 1] && t[j] == s[j - 1]);
        }
    }
}

/// Whether a file name without its ending is a date: ten bytes, a hyphen at the fifth.
pub open spec fn dated(name: Seq<char>) -> bool {
    let b = vstd::utf8::encode_utf8(name);
    b.len() == 10 && b[4] == 0x2d
}

/// The dates of the day files among some file names.
pub open spec fn dates(names: Seq<Seq<char>>) -> Seq<Seq<char>>
    decreases names.len(),
{
    if names.len() == 0 {
        names
    } else {
        let rest = dates(names.drop_last());
        let n = names.last();
        if ".md"@.is_suffix_of(n) && dated(n.take(n.len() - 3)) {
            rest.push(n.take(n.len() - 3))
        } else {
            rest
        }
    }
}

/// The dates of the day files among some file names, oldest first.
pub fn day_files(names: &[String]) -> (r: Vec<String>)
    ensures
        ordered(text::views(r@)),
        text::views(r@).to_multiset() == dates(text::views(names@)).to_multiset(),
{
    let ghost all = text::views(names@);
    let mut r: Vec<String> = Vec::new();
    let mut i: usize = 0;
    assert(text::views(r@) == dates(all.take(0)));
    while i < names.len()
        invariant
            i <= names.len(),
            all == text::views(names@),
            text::views(r@) == dates(all.take(i as int)),
        decreases names.len() - i,
    {
        proof {
            reveal_strlit(".md");
        }
        assert(all.take(i + 1).drop_last() == all.take(i as int));
        assert(all.take(i + 1).last() == names@[i as int]@);
        if let Some(d) = text::strip_suffix(&names[i], ".md") {
            let b = d.as_str().as_bytes();
            if b.len() == 10 && b[4] == 0x2d {
                let ghost before = r@;
                r.push(d);
                assert(text::views(r@) == text::views(before).push(d@));
            }
        }
        i += 1;
    }
    assert(all.take(i as int) == all);
    sort_texts(r)
}

/// The dates that retention drops: all but the most recent `keep_days`, none where retention is off.
/// Every date that stays is no earlier than every date that goes.
pub fn expired_days(names: &[String], keep_days: u64) -> (r: Vec<String>)
    ensures
        exists|days: Seq<Seq<char>>|
            {
                &&& ordered(days)
                &&& #[trigger] days.to_multiset() == dates(text::views(names@)).to_multiset()
                &&& text::views(r@) == (if keep_days == 0 || days.len() <= keep_days {
                    Seq::empty()
                } else {
                    days.take(days.len() - keep_days)
                })
            },
{
    let mut days = day_files(names);
    let ghost all = text::views(days@);
    let n: usize = days.len();
    if keep_days == 0 || n as u128 <= keep_days as u128 {
        let r: Vec<String> = Vec::new();
        assert(text::views(r@) == Seq::<Seq<char>>::empty());
        assert(all.to_multiset() == dates(text::views(names@)).to_multiset());
        return r;
    }
    let drop: usize = n - keep_days as usize;
    days.truncate(drop);
    assert(text::views(days@) == all.take(all.len() - keep_days));
    assert(all.to_multiset() == dates(text::views(names@)).to_multiset());
    days
}

/// Retention keeps the most recent: of an ordered list of days, none that stays is earlier than one
/// that goes.
pub proof fn retention_keeps_the_most_recent(days: Seq<Seq<char>>, keep: int, gone: int, kept: int)
    requires
        ordered(days),
        0 < keep <= days.len(),
        0 <= gone < days.len() - keep,
        days.len() - keep <= kept < days.len(),
    ensures
        no_later(days[gone], days[kept]),
{
}

/// How many of some removals succeeded.
pub open spec fn succeeded(removals: Seq<bool>) -> int
    decreases removals.len(),
{
    if removals.len() == 0 {
        0
    } else {
        succeeded(removals.drop_last()) + if removals.last() {
            1int
        } else {
            0
        }
    }
}

/// How many day files retention dropped, by whether the removal of each succeeded.
pub fn dropped_days(removals: &[bool]) -> (r: usize)
    ensures
        r == succeeded(removals@),
{
    let mut r: usize = 0;
    let mut i: usize = 0;
    assert(removals@.take(0) == Seq::<bool>::empty());
    while i < removals.len()
        invariant
            i <= removals.len(),
            r <= i,
            r == succeeded(removals@.take(i as int)),
        decreases removals.len() - i,
    {
        assert(removals@.take(i + 1).drop_last() == removals@.take(i as int));
        if removals[i] {
            r += 1;
        }
        i += 1;
    }
    assert(removals@.take(i as int) == removals@);
    r
}

/// The message of the commit that drops a day file.
pub fn drop_message(date: &str, keep_days: u64) -> (r: String)
    ensures
        r@ == "runlog retention: drop "@ + date@ + ".md (> "@ + text::decimal(keep_days as int) + "d)"@,
{
    let mut r = "runlog retention: drop ".to_owned();
    r.append(date);
    r.append(".md (> ");
    r.append(&text::nat_text(keep_days as u128));
    r.append("d)");
    r
}

/// The day files are those named by a date and `.md`: each adds its date, in order, and any other file
/// adds none.
pub proof fn a_day_file_is_named_by_its_date(names: Seq<Seq<char>>, date: Seq<char>, other: Seq<char>)
    ensures
        dates(Seq::empty()) == Seq::<Seq<char>>::empty(),
        dated(date) ==> dates(names.push(date + ".md"@)) == dates(names).push(date),
        !dated(date) ==> dates(names.push(date + ".md"@)) == dates(names),
        !".md"@.is_suffix_of(other) ==> dates(names.push(other)) == dates(names),
{
    reveal_strlit(".md");
    let n = date + ".md"@;
    assert(names.push(n).drop_last() == names);
    assert(names.push(other).drop_last() == names);
    assert(n.subrange(n.len() - 3, n.len() as int) == ".md"@);
    assert(n.take(n.len() - 3) == date);
}

/// What a sweep counts are the removals that succeeded.
pub proof fn only_what_was_removed_counts(removals: Seq<bool>)
    ensures
        succeeded(Seq::empty()) == 0,
        succeeded(removals.push(true)) == succeeded(removals) + 1,
        succeeded(removals.push(false)) == succeeded(removals),
{
    assert(removals.push(true).drop_last() == removals);
    assert(removals.push(false).drop_last() == removals);
}

/// A date takes ten bytes and has a hyphen for its fifth; what is shorter, longer or has none there is no
/// date.
pub proof fn a_date_is_ten_bytes(name: Seq<char>)
    ensures
        ({
            let b = vstd::utf8::encode_utf8(name);
            &&& dated(name) ==> b.len() == 10 && b[4] == 0x2du8
            &&& b.len() == 10 && b[4] == 0x2du8 ==> dated(name)
        }),
{
}

} // verus!
