//! Reading a runlog back: headings, metadata, and the safe bodies of entries.

use vstd::prelude::*;

use crate::text;

verus! {

/// One parsed entry: its heading, and the timestamp, source and tags that follow it.
#[derive(Debug)]
pub struct EntryMetaRecord {
    pub heading: String,
    pub timestamp: i64,
    pub source: String,
    pub tags: Vec<String>,
}

/// The contents of a parsed entry.
#[verifier::ext_equal]
pub struct MetaView {
    pub heading: Seq<char>,
    pub timestamp: int,
    pub source: Seq<char>,
    pub tags: Seq<Seq<char>>,
}

impl View for EntryMetaRecord {
    type V = MetaView;

    open spec fn view(&self) -> MetaView {
        MetaView {
            heading: self.heading@,
            timestamp: self.timestamp as int,
            source: self.source@,
            tags: text::views(self.tags@),
        }
    }
}

/// The contents of several parsed entries.
pub open spec fn meta_views(v: Seq<EntryMetaRecord>) -> Seq<MetaView> {
    v.map_values(|e: EntryMetaRecord| e@)
}

/// The lines without those that repeat the one before.
pub open spec fn deduped(lines: Seq<Seq<char>>) -> Seq<Seq<char>>
    decreases lines.len(),
{
    if lines.len() == 0 {
        lines
    } else {
        let r = deduped(lines.drop_last());
        if r.len() > 0 && r.last() == lines.last() {
            r
        } else {
            r.push(lines.last())
        }
    }
}

/// Collapses consecutive identical lines.
pub fn dedup_consecutive(lines: &[String]) -> (r: Vec<String>)
    ensures
        text::views(r@) == deduped(text::views(lines@)),
{
    let ghost all = text::views(lines@);
    let mut r: Vec<String> = Vec::new();
    let mut i: usize = 0;
    assert(text::views(r@) == deduped(all.take(0)));
    while i < lines.len()
        invariant
            i <= lines.len(),
            all == text::views(lines@),
            text::views(r@) == deduped(all.take(i as int)),
        decreases lines.len() - i,
    {
        assert(all.take(i + 1).drop_last() == all.take(i as int));
        assert(all.take(i + 1).last() == lines@[i as int]@);
        let n: usize = r.len();
        assert(text::views(r@).len() == n);
        let repeats = n > 0 && text::same(&r[n - 1], &lines[i]);
        assert(n > 0 ==> text::views(r@).last() == r@[n - 1]@);
        if !repeats {
            let ghost before = r@;
            let l = lines[i].clone();
            r.push(l);
            assert(text::views(r@) == text::views(before).push(l@));
        }
        i += 1;
    }
    assert(all.take(i as int) == all);
    r
}

/// After collapsing, no line repeats the one before, and collapsing again changes nothing.
pub proof fn no_line_repeats_after_dedup(lines: Seq<Seq<char>>)
    ensures
        forall|i: int|
            #![trigger deduped(lines)[i]]
            0 < i < deduped(lines).len() ==> deduped(lines)[i] != deduped(lines)[i - 1],
        deduped(deduped(lines)) == deduped(lines),
    decreases lines.len(),
{
    if lines.len() > 0 {
        no_line_repeats_after_dedup(lines.drop_last());
        let r = deduped(lines.drop_last());
        if !(r.len() > 0 && r.last() == lines.last()) {
            assert(r.push(lines.last()).drop_last() == r);
        }
    }
}

/// Whether some lines end inside an untrusted fence: it opens directly under its label, and only its
/// closing line ends it.
pub open spec fn in_fence(lines: Seq<Seq<char>>) -> bool
    decreases lines.len(),
{
    if lines.len() == 0 {
        false
    } else if in_fence(lines.drop_last()) {
        lines.last() != "```"@
    } else {
        lines.last() == "```untrusted"@ && labelled(lines.drop_last())
    }
}

/// Whether some lines end in the label of an untrusted fence.
pub open spec fn labelled(lines: Seq<Seq<char>>) -> bool {
    lines.len() > 0 && fence(lines.last())
}

fn still_fenced(fenced: bool, under_label: bool, line: &str) -> (r: bool)
    ensures
        r == if fenced {
            line@ != "```"@
        } else {
            line@ == "```untrusted"@ && under_label
        },
{
    if fenced {
        !text::same(line, "```")
    } else {
        under_label && text::same(line, "```untrusted")
    }
}

/// The entries after one more line outside a fence: a heading opens an entry, a metadata line belongs
/// to the last one.
pub open spec fn meta_step(metas: Seq<MetaView>, line: Seq<char>) -> Seq<MetaView> {
    if "## "@.is_prefix_of(line) {
        metas.push(MetaView { heading: line.skip(3), timestamp: 0, source: Seq::empty(), tags: Seq::empty() })
    } else if metas.len() == 0 {
        metas
    } else {
        let last = metas.last();
        if "- timestamp: "@.is_prefix_of(line) {
            match text::parsed_i64(text::trimmed(line.skip(13))) {
                Some(n) => metas.drop_last().push(MetaView { timestamp: n, ..last }),
                None => metas,
            }
        } else if "- source: "@.is_prefix_of(line) {
            metas.drop_last().push(MetaView { source: text::trimmed(line.skip(10)), ..last })
        } else if "- tags: "@.is_prefix_of(line) {
            metas.drop_last().push(MetaView { tags: text::listed(line.skip(8)), ..last })
        } else {
            metas
        }
    }
}

/// The entries of some lines. A line inside an untrusted fence is neither a heading nor metadata.
pub open spec fn metas_of(lines: Seq<Seq<char>>) -> Seq<MetaView>
    decreases lines.len(),
{
    if lines.len() == 0 {
        Seq::empty()
    } else if in_fence(lines.drop_last()) {
        metas_of(lines.drop_last())
    } else {
        meta_step(metas_of(lines.drop_last()), lines.last())
    }
}

/// The entries of a runlog.
pub open spec fn metas(s: Seq<char>) -> Seq<MetaView> {
    metas_of(text::lines(s))
}

pub proof fn lemma_marks()
    ensures
        "## "@.len() == 3,
        "- timestamp: "@.len() == 13,
        "- source: "@.len() == 10,
        "- tags: "@.len() == 8,
{
    reveal_strlit("## ");
    reveal_strlit("- timestamp: ");
    reveal_strlit("- source: ");
    reveal_strlit("- tags: ");
}

/// The entries of a runlog, in file order.
pub fn entries_meta(s: &str) -> (r: Vec<EntryMetaRecord>)
    ensures
        meta_views(r@) == metas(s@),
{
    let lines = text::lines_of(s);
    let ghost all = text::views(lines@);
    let mut r: Vec<EntryMetaRecord> = Vec::new();
    let mut i: usize = 0;
    let mut fenced = false;
    let mut under_label = false;
    assert(meta_views(r@) == metas_of(all.take(0)));
    while i < lines.len()
        invariant
            i <= lines.len(),
            all == text::views(lines@),
            fenced == in_fence(all.take(i as int)),
            under_label == labelled(all.take(i as int)),
            meta_views(r@) == metas_of(all.take(i as int)),
        decreases lines.len() - i,
    {
        proof {
            lemma_marks();
        }
        assert(all.take(i + 1).drop_last() == all.take(i as int));
        assert(all.take(i + 1).last() == lines@[i as int]@);
        let line = &lines[i];
        let ghost before = r@;
        assert(meta_views(before).len() == before.len());
        if fenced {
        } else if let Some(h) = text::strip_prefix(line, "## ") {
            let e = EntryMetaRecord { heading: h, timestamp: 0, source: String::new(), tags: Vec::new() };
            assert(e@.tags == Seq::<Seq<char>>::empty());
            r.push(e);
            assert(meta_views(r@) == meta_views(before).push(e@));
        } else if r.len() > 0 {
            let n: usize = r.len() - 1;
            assert(meta_views(before).last() == before[n as int]@);
            assert(meta_views(before).drop_last() == meta_views(before.drop_last()));
            if let Some(ts) = text::strip_prefix(line, "- timestamp: ") {
                let t = text::trim(&ts);
                if let Some(v) = text::parse_i64(&t) {
                    r[n].timestamp = v;
                    assert(r@.drop_last() == before.drop_last());
                    assert(meta_views(r@) == meta_views(before.drop_last()).push(r@[n as int]@));
                }
            } else if let Some(src) = text::strip_prefix(line, "- source: ") {
                let t = text::trim(&src);
                r[n].source = t;
                assert(r@.drop_last() == before.drop_last());
                assert(meta_views(r@) == meta_views(before.drop_last()).push(r@[n as int]@));
            } else if let Some(tags) = text::strip_prefix(line, "- tags: ") {
                let t = text::comma_list(&tags);
                r[n].tags = t;
                assert(r@.drop_last() == before.drop_last());
                assert(meta_views(r@) == meta_views(before.drop_last()).push(r@[n as int]@));
            }
        }
        fenced = still_fenced(fenced, under_label, line);
        under_label = text::starts_with(line, "- raw stimulus (UNTRUSTED");
        i += 1;
    }
    assert(all.take(i as int) == all);
    r
}

/// Whether an entry of that time and those tags passes the gates.
pub open spec fn passes(
    timestamp: int,
    tags: Seq<Seq<char>>,
    since: Option<i64>,
    tag: Option<Seq<char>>,
) -> bool {
    &&& since matches Some(s) ==> timestamp > s
    &&& tag matches Some(t) ==> tags.contains(t)
}

fn gate(timestamp: i64, tags: &[String], since: Option<i64>, tag: Option<&str>) -> (r: bool)
    ensures
        r == passes(timestamp as int, text::views(tags@), since, text::opt_str(tag)),
{
    let in_time = match since {
        Some(s) => timestamp > s,
        None => true,
    };
    let tagged = match tag {
        Some(t) => text::member(tags, t),
        None => true,
    };
    in_time && tagged
}

/// The headings of the entries that pass the gates.
pub open spec fn headings(metas: Seq<MetaView>, since: Option<i64>, tag: Option<Seq<char>>) -> Seq<Seq<char>>
    decreases metas.len(),
{
    if metas.len() == 0 {
        Seq::empty()
    } else {
        let rest = headings(metas.drop_last(), since, tag);
        if passes(metas.last().timestamp, metas.last().tags, since, tag) {
            rest.push(metas.last().heading)
        } else {
            rest
        }
    }
}

/// The headings that pass the gates, collapsed, the last `max` of them, one a line.
pub open spec fn filtered_headings(s: Seq<char>, since: Option<i64>, max: int, tag: Option<Seq<char>>) -> Seq<char> {
    text::joined(text::last_of(deduped(headings(metas(s), since, tag)), max), "\n"@)
}

/// The heading lines of the entries that pass the optional time and tag gates.
pub fn filter_headings(s: &str, since: Option<i64>, max: usize, tag: Option<&str>) -> (r: String)
    ensures
        r@ == filtered_headings(s@, since, max as int, text::opt_str(tag)),
{
    let entries = entries_meta(s);
    let ghost all = meta_views(entries@);
    let mut kept: Vec<String> = Vec::new();
    let mut i: usize = 0;
    assert(text::views(kept@) == headings(all.take(0), since, text::opt_str(tag)));
    while i < entries.len()
        invariant
            i <= entries.len(),
            all == meta_views(entries@),
            text::views(kept@) == headings(all.take(i as int), since, text::opt_str(tag)),
        decreases entries.len() - i,
    {
        assert(all.take(i + 1).drop_last() == all.take(i as int));
        assert(all.take(i + 1).last() == entries@[i as int]@);
        if gate(entries[i].timestamp, &entries[i].tags, since, tag) {
            let ghost before = kept@;
            let h = entries[i].heading.clone();
            kept.push(h);
            assert(text::views(kept@) == text::views(before).push(h@));
        }
        i += 1;
    }
    assert(all.take(i as int) == all);
    let lines = text::keep_last(dedup_consecutive(&kept), max);
    text::join(&lines, "\n")
}

/// A whole entry: every line from its heading to the next one, and its timestamp and tags.
pub struct EntryBlock {
    pub timestamp: i64,
    pub tags: Vec<String>,
    pub lines: Vec<String>,
}

/// The contents of a whole entry.
#[verifier::ext_equal]
pub struct BlockView {
    pub timestamp: int,
    pub tags: Seq<Seq<char>>,
    pub lines: Seq<Seq<char>>,
}

impl View for EntryBlock {
    type V = BlockView;

    open spec fn view(&self) -> BlockView {
        BlockView {
            timestamp: self.timestamp as int,
            tags: text::views(self.tags@),
            lines: text::views(self.lines@),
        }
    }
}

/// The contents of several whole entries.
pub open spec fn block_views(v: Seq<EntryBlock>) -> Seq<BlockView> {
    v.map_values(|e: EntryBlock| e@)
}

/// The entries after one more line outside a fence; lines before the first heading belong to none.
pub open spec fn block_step(blocks: Seq<BlockView>, line: Seq<char>) -> Seq<BlockView> {
    if "## "@.is_prefix_of(line) {
        blocks.push(BlockView { timestamp: 0, tags: Seq::empty(), lines: seq![line] })
    } else if blocks.len() == 0 {
        blocks
    } else {
        let last = blocks.last();
        let lines = last.lines.push(line);
        blocks.drop_last().push(
            if "- timestamp: "@.is_prefix_of(line) {
                match text::parsed_i64(text::trimmed(line.skip(13))) {
                    Some(n) => BlockView { timestamp: n, lines, ..last },
                    None => BlockView { lines, ..last },
                }
            } else if "- tags: "@.is_prefix_of(line) {
                BlockView { tags: text::listed(line.skip(8)), lines, ..last }
            } else {
                BlockView { lines, ..last }
            },
        )
    }
}

/// The entries after one more line inside a fence: whatever it says, it belongs to the last one.
pub open spec fn block_held(blocks: Seq<BlockView>, line: Seq<char>) -> Seq<BlockView> {
    if blocks.len() == 0 {
        blocks
    } else {
        blocks.drop_last().push(BlockView { lines: blocks.last().lines.push(line), ..blocks.last() })
    }
}

/// The whole entries of some lines. A line inside an untrusted fence opens no entry.
pub open spec fn blocks_of(lines: Seq<Seq<char>>) -> Seq<BlockView>
    decreases lines.len(),
{
    if lines.len() == 0 {
        Seq::empty()
    } else if in_fence(lines.drop_last()) {
        block_held(blocks_of(lines.drop_last()), lines.last())
    } else {
        block_step(blocks_of(lines.drop_last()), lines.last())
    }
}

/// The whole entries of a runlog, in file order.
pub fn entry_blocks(s: &str) -> (r: Vec<EntryBlock>)
    ensures
        block_views(r@) == blocks_of(text::lines(s@)),
{
    let lines = text::lines_of(s);
    let ghost all = text::views(lines@);
    let mut r: Vec<EntryBlock> = Vec::new();
    let mut i: usize = 0;
    let mut fenced = false;
    let mut under_label = false;
    assert(block_views(r@) == blocks_of(all.take(0)));
    while i < lines.len()
        invariant
            i <= lines.len(),
            all == text::views(lines@),
            fenced == in_fence(all.take(i as int)),
            under_label == labelled(all.take(i as int)),
            block_views(r@) == blocks_of(all.take(i as int)),
        decreases lines.len() - i,
    {
        proof {
            lemma_marks();
        }
        assert(all.take(i + 1).drop_last() == all.take(i as int));
        assert(all.take(i + 1).last() == lines@[i as int]@);
        let line = &lines[i];
        let ghost before = r@;
        assert(block_views(before).len() == before.len());
        if !fenced && text::starts_with(line, "## ") {
            let mut one: Vec<String> = Vec::new();
            one.push(line.clone());
            let b = EntryBlock { timestamp: 0, tags: Vec::new(), lines: one };
            assert(b@.tags == Seq::<Seq<char>>::empty());
            assert(b@.lines == seq![line@]);
            r.push(b);
            assert(block_views(r@) == block_views(before).push(b@));
        } else if r.len() > 0 {
            let mut b = match r.pop() {
                Some(b) => b,
                None => EntryBlock { timestamp: 0, tags: Vec::new(), lines: Vec::new() },
            };
            let ghost last = b@;
            assert(block_views(before).last() == last);
            assert(block_views(r@) == block_views(before).drop_last());
            if fenced {
            } else if let Some(ts) = text::strip_prefix(line, "- timestamp: ") {
                let t = text::trim(&ts);
                if let Some(v) = text::parse_i64(&t) {
                    b.timestamp = v;
                }
            } else if let Some(tags) = text::strip_prefix(line, "- tags: ") {
                b.tags = text::comma_list(&tags);
            }
            let l = line.clone();
            b.lines.push(l);
            assert(b@.lines == last.lines.push(l@));
            let ghost rest = r@;
            let ghost bv = b@;
            r.push(b);
            assert(block_views(r@) == block_views(rest).push(bv));
        }
        fenced = still_fenced(fenced, under_label, line);
        under_label = text::starts_with(line, "- raw stimulus (UNTRUSTED");
        i += 1;
    }
    assert(all.take(i as int) == all);
    r
}

/// Whether a line is the label of the untrusted fence.
pub open spec fn fence(line: Seq<char>) -> bool {
    "- raw stimulus (UNTRUSTED"@.is_prefix_of(line)
}

/// The lines in front of the first label of an untrusted fence.
pub open spec fn before_fence(lines: Seq<Seq<char>>) -> Seq<Seq<char>>
    decreases lines.len(),
{
    if lines.len() == 0 {
        lines
    } else {
        let b = before_fence(lines.drop_last());
        if b.len() < lines.len() - 1 || fence(lines.last()) {
            b
        } else {
            lines
        }
    }
}

/// The lines without the blank ones at the end.
pub open spec fn unpadded(lines: Seq<Seq<char>>) -> Seq<Seq<char>>
    decreases lines.len(),
{
    if lines.len() > 0 && text::blank(lines.last()) {
        unpadded(lines.drop_last())
    } else {
        lines
    }
}

/// What of an entry is safe to show: the lines in front of the untrusted fence.
pub open spec fn safe(lines: Seq<Seq<char>>) -> Seq<char> {
    text::joined(unpadded(before_fence(lines)), "\n"@)
}

/// The safe rendering of an entry: everything in front of the untrusted fence.
pub fn safe_body(block: &EntryBlock) -> (r: String)
    ensures
        r@ == safe(block@.lines),
{
    let ghost all = text::views(block.lines@);
    let mut out: Vec<String> = Vec::new();
    let mut i: usize = 0;
    let mut open = true;
    assert(text::views(out@) == before_fence(all.take(0)));
    while i < block.lines.len()
        invariant
            i <= block.lines.len(),
            all == text::views(block.lines@),
            text::views(out@) == before_fence(all.take(i as int)),
            open == (before_fence(all.take(i as int)).len() == i),
            before_fence(all.take(i as int)).len() <= i,
        decreases block.lines.len() - i,
    {
        assert(all.take(i + 1).drop_last() == all.take(i as int));
        assert(all.take(i + 1).last() == block.lines@[i as int]@);
        if open {
            proof {
                lemma_before_fence(all.take(i as int));
            }
            if text::starts_with(&block.lines[i], "- raw stimulus (UNTRUSTED") {
                open = false;
            } else {
                let ghost before = out@;
                let l = block.lines[i].clone();
                out.push(l);
                assert(text::views(out@) == text::views(before).push(l@));
                assert(text::views(out@) == all.take(i + 1));
            }
        }
        i += 1;
    }
    assert(all.take(i as int) == all);
    let ghost kept = text::views(out@);
    let mut n: usize = out.len();
    assert(kept.take(n as int) == kept);
    while n > 0 && is_blank(&out[n - 1])
        invariant
            n <= out.len(),
            kept == text::views(out@),
            unpadded(kept.take(n as int)) == unpadded(kept),
        decreases n,
    {
        assert(kept.take(n as int).drop_last() == kept.take(n - 1));
        assert(kept.take(n as int).last() == out@[n - 1]@);
        n -= 1;
    }
    assert(n > 0 ==> kept.take(n as int).last() == out@[n - 1]@);
    out.truncate(n);
    assert(text::views(out@) == kept.take(n as int));
    text::join(&out, "\n")
}

fn is_blank(s: &str) -> (r: bool)
    ensures
        r == text::blank(s@),
{
    text::trim(s).as_str().is_empty()
}

proof fn lemma_before_fence(lines: Seq<Seq<char>>)
    ensures
        before_fence(lines).len() <= lines.len(),
        before_fence(lines).len() == lines.len() ==> before_fence(lines) == lines,
    decreases lines.len(),
{
    if lines.len() > 0 {
        lemma_before_fence(lines.drop_last());
    }
}

/// The safe bodies of the entries that pass the gates.
pub open spec fn safe_bodies(blocks: Seq<BlockView>, since: Option<i64>, tag: Option<Seq<char>>) -> Seq<Seq<char>>
    decreases blocks.len(),
{
    if blocks.len() == 0 {
        Seq::empty()
    } else {
        let rest = safe_bodies(blocks.drop_last(), since, tag);
        if passes(blocks.last().timestamp, blocks.last().tags, since, tag) {
            rest.push(safe(blocks.last().lines))
        } else {
            rest
        }
    }
}

/// The safe bodies that pass the gates, the last `max` of them, with a blank line between.
pub open spec fn filtered_entries(s: Seq<char>, since: Option<i64>, max: int, tag: Option<Seq<char>>) -> Seq<char> {
    text::joined(text::last_of(safe_bodies(blocks_of(text::lines(s)), since, tag), max), "\n\n"@)
}

/// The safe bodies of the entries that pass the optional time and tag gates.
pub fn filter_entries(s: &str, since: Option<i64>, max: usize, tag: Option<&str>) -> (r: String)
    ensures
        r@ == filtered_entries(s@, since, max as int, text::opt_str(tag)),
{
    let blocks = entry_blocks(s);
    let ghost all = block_views(blocks@);
    let mut kept: Vec<String> = Vec::new();
    let mut i: usize = 0;
    assert(text::views(kept@) == safe_bodies(all.take(0), since, text::opt_str(tag)));
    while i < blocks.len()
        invariant
            i <= blocks.len(),
            all == block_views(blocks@),
            text::views(kept@) == safe_bodies(all.take(i as int), since, text::opt_str(tag)),
        decreases blocks.len() - i,
    {
        assert(all.take(i + 1).drop_last() == all.take(i as int));
        assert(all.take(i + 1).last() == blocks@[i as int]@);
        if gate(blocks[i].timestamp, &blocks[i].tags, since, tag) {
            let ghost before = kept@;
            let h = safe_body(&blocks[i]);
            kept.push(h);
            assert(text::views(kept@) == text::views(before).push(h@));
        }
        i += 1;
    }
    assert(all.take(i as int) == all);
    let parts = text::keep_last(kept, max);
    text::join(&parts, "\n\n")
}

/// The safe bodies of two days that pass the gates.
pub open spec fn two_days(
    yesterday: Seq<char>,
    today: Seq<char>,
    since: Option<i64>,
    max: int,
    tag: Option<Seq<char>>,
) -> Seq<char> {
    filtered_entries(yesterday + "\n"@ + today, since, max, tag)
}

/// The safe bodies of the entries of two days that pass the gates, so that a window across midnight
/// stays whole.
pub fn tail_entries(yesterday: &str, today: &str, since: Option<i64>, max_entries: usize, tag: Option<&str>) -> (r:
    String)
    ensures
        r@ == two_days(yesterday@, today@, since, max_entries as int, text::opt_str(tag)),
{
    let mut s = yesterday.to_owned();
    s.append("\n");
    s.append(today);
    filter_entries(&s, since, max_entries, tag)
}

/// A fence opens on its mark directly under its label and nowhere else, and only its closing mark ends
/// it.
pub proof fn a_fence_opens_under_its_label(lines: Seq<Seq<char>>, l: Seq<char>, rest: Seq<char>)
    ensures
        !in_fence(Seq::empty()),
        in_fence(lines) && l != "```"@ ==> in_fence(lines.push(l)),
        in_fence(lines) ==> !in_fence(lines.push("```"@)),
        !in_fence(lines) && l != "```untrusted"@ ==> !in_fence(lines.push(l)),
        !in_fence(lines) && lines.len() > 0 && lines.last() == "- raw stimulus (UNTRUSTED"@ + rest ==> in_fence(
            lines.push("```untrusted"@),
        ),
        !in_fence(lines) && (lines.len() == 0 || !"- raw stimulus (UNTRUSTED"@.is_prefix_of(lines.last()))
            ==> !in_fence(lines.push("```untrusted"@)),
{
    assert(lines.push(l).drop_last() == lines);
    assert(lines.push("```"@).drop_last() == lines);
    assert(lines.push("```untrusted"@).drop_last() == lines);
    let p = "- raw stimulus (UNTRUSTED"@;
    assert((p + rest).subrange(0, p.len() as int) == p);
}

/// One more line of a runlog, as its entries are read: in a fence it changes nothing; a heading opens an
/// entry with nothing else known; a line of metadata sets its own part of the last entry, and every
/// other line changes nothing.
pub proof fn one_more_line_of_the_entries(lines: Seq<Seq<char>>, h: Seq<char>, n: i64, s: Seq<char>, l: Seq<char>)
    ensures
        in_fence(lines) ==> metas_of(lines.push(l)) == metas_of(lines),
        !in_fence(lines) ==> metas_of(lines.push("## "@ + h)) == metas_of(lines).push(
            MetaView { heading: h, timestamp: 0, source: Seq::empty(), tags: Seq::empty() },
        ),
        !in_fence(lines) && metas_of(lines).len() > 0 ==> ({
            let all = metas_of(lines);
            let last = all.last();
            &&& metas_of(lines.push("- timestamp: "@ + text::decimal(n as int))) == all.drop_last().push(
                MetaView { timestamp: n as int, ..last },
            )
            &&& metas_of(lines.push("- source: "@ + s)) == all.drop_last().push(
                MetaView { source: text::trimmed(s), ..last },
            )
            &&& metas_of(lines.push("- tags: "@ + s)) == all.drop_last().push(
                MetaView { tags: text::listed(s), ..last },
            )
        }),
        !in_fence(lines) && !"## "@.is_prefix_of(l) && !"- timestamp: "@.is_prefix_of(l) && !"- source: "@.is_prefix_of(
            l,
        ) && !"- tags: "@.is_prefix_of(l) ==> metas_of(lines.push(l)) == metas_of(lines),
        !in_fence(lines) && !"## "@.is_prefix_of(l) && metas_of(lines).len() == 0 ==> metas_of(lines.push(l)).len() == 0,
        metas_of(Seq::empty()) == Seq::<MetaView>::empty(),
{
    lemma_marks();
    lemma_marked_lines(h, n, s);
    assert(lines.push(l).drop_last() == lines);
    assert(lines.push("## "@ + h).drop_last() == lines);
    assert(lines.push("- timestamp: "@ + text::decimal(n as int)).drop_last() == lines);
    assert(lines.push("- source: "@ + s).drop_last() == lines);
    assert(lines.push("- tags: "@ + s).drop_last() == lines);
}

/// How the lines that carry something are told apart.
proof fn lemma_marked_lines(h: Seq<char>, n: i64, s: Seq<char>)
    ensures
        "## "@.is_prefix_of("## "@ + h) && ("## "@ + h).skip(3) == h,
        ({
            let l = "- timestamp: "@ + text::decimal(n as int);
            &&& !"## "@.is_prefix_of(l)
            &&& "- timestamp: "@.is_prefix_of(l)
            &&& text::parsed_i64(text::trimmed(l.skip(13))) == Some(n as int)
        }),
        ({
            let l = "- source: "@ + s;
            &&& !"## "@.is_prefix_of(l)
            &&& !"- timestamp: "@.is_prefix_of(l)
            &&& "- source: "@.is_prefix_of(l)
            &&& !"- tags: "@.is_prefix_of(l)
            &&& l.skip(10) == s
        }),
        ({
            let l = "- tags: "@ + s;
            &&& !"## "@.is_prefix_of(l)
            &&& !"- timestamp: "@.is_prefix_of(l)
            &&& !"- source: "@.is_prefix_of(l)
            &&& "- tags: "@.is_prefix_of(l)
            &&& l.skip(8) == s
        }),
{
    reveal_strlit("## ");
    reveal_strlit("- timestamp: ");
    reveal_strlit("- source: ");
    reveal_strlit("- tags: ");
    let a = "## "@ + h;
    assert(a.subrange(0, 3) == "## "@);
    assert(a.skip(3) == h);
    let t = text::decimal(n as int);
    let b = "- timestamp: "@ + t;
    assert(b.subrange(0, 13) == "- timestamp: "@);
    assert(b.skip(13) == t);
    text::lemma_decimal_is_trimmed(n as int);
    text::decimal_reads_back(n);
    lemma_apart("## "@, b, 0);
    let c = "- source: "@ + s;
    assert(c.subrange(0, 10) == "- source: "@);
    assert(c.skip(10) == s);
    lemma_apart("## "@, c, 0);
    lemma_apart("- timestamp: "@, c, 2);
    lemma_apart("- tags: "@, c, 2);
    let d = "- tags: "@ + s;
    assert(d.subrange(0, 8) == "- tags: "@);
    assert(d.skip(8) == s);
    lemma_apart("## "@, d, 0);
    lemma_apart("- timestamp: "@, d, 3);
    lemma_apart("- source: "@, d, 2);
}

proof fn lemma_apart(p: Seq<char>, line: Seq<char>, i: int)
    requires
        0 <= i < p.len(),
        i < line.len(),
        p[i] != line[i],
    ensures
        !p.is_prefix_of(line),
{
    if p.is_prefix_of(line) {
        assert(line.subrange(0, p.len() as int)[i] == line[i]);
    }
}

/// One more line of a runlog, as its whole entries are read: outside a fence a heading opens an entry,
/// and every other line belongs to the last one, of which a line of metadata sets the time or the tags;
/// in a fence every line belongs to it and sets nothing.
pub proof fn one_more_line_of_the_blocks(lines: Seq<Seq<char>>, h: Seq<char>, n: i64, s: Seq<char>, l: Seq<char>)
    ensures
        blocks_of(Seq::empty()) == Seq::<BlockView>::empty(),
        !in_fence(lines) ==> blocks_of(lines.push("## "@ + h)) == blocks_of(lines).push(
            BlockView { timestamp: 0, tags: Seq::empty(), lines: seq!["## "@ + h] },
        ),
        blocks_of(lines).len() > 0 ==> ({
            let all = blocks_of(lines);
            let last = all.last();
            &&& in_fence(lines) ==> blocks_of(lines.push(l)) == all.drop_last().push(
                BlockView { lines: last.lines.push(l), ..last },
            )
            &&& !in_fence(lines) && !"## "@.is_prefix_of(l) && !"- timestamp: "@.is_prefix_of(l)
                && !"- tags: "@.is_prefix_of(l) ==> blocks_of(lines.push(l)) == all.drop_last().push(
                BlockView { lines: last.lines.push(l), ..last },
            )
            &&& !in_fence(lines) ==> blocks_of(lines.push("- timestamp: "@ + text::decimal(n as int)))
                == all.drop_last().push(
                BlockView {
                    timestamp: n as int,
                    lines: last.lines.push("- timestamp: "@ + text::decimal(n as int)),
                    ..last
                },
            )
            &&& !in_fence(lines) ==> blocks_of(lines.push("- tags: "@ + s)) == all.drop_last().push(
                BlockView { tags: text::listed(s), lines: last.lines.push("- tags: "@ + s), ..last },
            )
        }),
        blocks_of(lines).len() == 0 && !(!in_fence(lines) && "## "@.is_prefix_of(l)) ==> blocks_of(
            lines.push(l),
        ).len() == 0,
{
    lemma_marks();
    lemma_marked_lines(h, n, s);
    assert(lines.push(l).drop_last() == lines);
    assert(lines.push("## "@ + h).drop_last() == lines);
    assert(lines.push("- timestamp: "@ + text::decimal(n as int)).drop_last() == lines);
    assert(lines.push("- tags: "@ + s).drop_last() == lines);
}

/// What is safe of an entry are its lines up to the label of its fence, without the blank ones that end
/// them.
pub proof fn only_what_stands_before_the_fence_is_safe(own: Seq<Seq<char>>, label: Seq<char>, rest: Seq<Seq<char>>)
    requires
        forall|i: int| 0 <= i < own.len() ==> !"- raw stimulus (UNTRUSTED"@.is_prefix_of(#[trigger] own[i]),
        "- raw stimulus (UNTRUSTED"@.is_prefix_of(label),
    ensures
        own.len() > 0 && !text::blank(own.last()) ==> safe(own) == text::joined(own, "\n"@),
        own.len() > 0 && !text::blank(own.last()) ==> safe(own + seq![label] + rest) == text::joined(own, "\n"@),
        safe(own + seq![label] + rest) == safe(own),
        own.len() > 0 && text::blank(own.last()) ==> safe(own) == safe(own.drop_last()),
{
    lemma_all_shown(own);
    lemma_cut_at_label(own, label, rest);
    if own.len() > 0 {
        let d = own.drop_last();
        assert forall|i: int| 0 <= i < d.len() implies !fence(#[trigger] d[i]) by {
            assert(d[i] == own[i]);
        }
        lemma_all_shown(d);
    }
}

proof fn lemma_all_shown(own: Seq<Seq<char>>)
    requires
        forall|i: int| 0 <= i < own.len() ==> !fence(#[trigger] own[i]),
    ensures
        before_fence(own) == own,
    decreases own.len(),
{
    if own.len() > 0 {
        let d = own.drop_last();
        assert forall|i: int| 0 <= i < d.len() implies !fence(#[trigger] d[i]) by {
            assert(d[i] == own[i]);
        }
        lemma_all_shown(d);
        assert(!fence(own[own.len() - 1]));
    }
}

proof fn lemma_cut_at_label(own: Seq<Seq<char>>, label: Seq<char>, rest: Seq<Seq<char>>)
    requires
        before_fence(own) == own,
        fence(label),
    ensures
        before_fence(own + seq![label] + rest) == own,
    decreases rest.len(),
{
    let all = own + seq![label] + rest;
    if rest.len() == 0 {
        assert(all.drop_last() == own);
        assert(all.last() == label);
    } else {
        lemma_cut_at_label(own, label, rest.drop_last());
        assert(all.drop_last() == own + seq![label] + rest.drop_last());
    }
}

} // verus!
