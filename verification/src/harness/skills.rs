//! What the agent has at hand in its own files: its skills, and the head of its memory index.

use vstd::prelude::*;

use crate::runlog::days;
use crate::text;

verus! {

/// The longest description shown of a skill, in characters.
pub const MAX_DESCRIPTION: usize = 240;

/// How many lines of the memory index are shown.
pub const INDEX_LINES: usize = 30;

/// The words of a text: its longest runs without white space.
pub open spec fn words(s: Seq<char>) -> Seq<Seq<char>>
    decreases s.len(),
{
    if s.len() == 0 {
        Seq::empty()
    } else {
        let before = words(s.drop_last());
        if text::white(s.last()) {
            before
        } else if s.len() > 1 && !text::white(s[s.len() - 2]) {
            before.drop_last().push(before.last().push(s.last()))
        } else {
            before.push(seq![s.last()])
        }
    }
}

/// A text on one line, its words one space apart.
pub open spec fn collapsed(s: Seq<char>) -> Seq<char> {
    text::joined(words(s), " "@)
}

/// Puts a text on one line, its words one space apart.
pub fn collapse_ws(s: &str) -> (r: String)
    ensures
        r@ == collapsed(s@),
{
    let v = text::chars_of(s);
    let mut done: Vec<String> = Vec::new();
    let mut cur = String::new();
    let mut open = false;
    let mut i: usize = 0;
    assert(text::views(done@) == words(v@.take(0)));
    while i < v.len()
        invariant
            i <= v.len(),
            open == (i > 0 && !text::white(v@[i - 1])),
            open ==> words(v@.take(i as int)) == text::views(done@).push(cur@),
            !open ==> words(v@.take(i as int)) == text::views(done@),
        decreases v.len() - i,
    {
        let c = v[i];
        let ghost t = v@.take(i + 1);
        assert(t.drop_last() == v@.take(i as int));
        assert(t.last() == c);
        if i > 0 {
            assert(t[t.len() - 2] == v@[i - 1]);
        }
        if text::is_white(c) {
            if open {
                let ghost before = done@;
                let w = cur;
                done.push(w);
                assert(text::views(done@) == text::views(before).push(w@));
                cur = String::new();
            }
            open = false;
        } else if open {
            let ghost w = cur@;
            cur.push(c);
            assert(text::views(done@).push(w).drop_last() == text::views(done@));
            assert(text::views(done@).push(w).last() == w);
        } else {
            cur = String::new();
            cur.push(c);
            assert(cur@ == seq![c]);
            open = true;
        }
        i += 1;
    }
    assert(v@.take(i as int) == v@);
    if open {
        let ghost before = done@;
        done.push(cur);
        assert(text::views(done@) == text::views(before).push(cur@));
    }
    text::join(&done, " ")
}

/// At most `max` characters of a text, with a mark where it was cut.
pub open spec fn truncated(s: Seq<char>, max: int) -> Seq<char> {
    if s.len() <= max {
        s
    } else {
        text::trimmed_end(s.take(max)) + "…"@
    }
}

/// Cuts a text to at most `max` characters and marks the cut.
pub fn truncate_chars(s: &str, max: usize) -> (r: String)
    ensures
        r@ == truncated(s@, max as int),
{
    let v = text::chars_of(s);
    if v.len() <= max {
        s.to_owned()
    } else {
        let cut = text::text_of(&v, 0, max);
        assert(cut@ == s@.take(max as int));
        let mut r = text::trim_end(&cut);
        r.append("…");
        r
    }
}

/// Whether a file starts with frontmatter that ends at line `k`.
pub open spec fn fenced_at(lines: Seq<Seq<char>>, k: int) -> bool {
    &&& 0 < k < lines.len()
    &&& lines[0] == "---"@
    &&& lines[k] == "---"@
    &&& forall|j: int| 0 < j < k ==> lines[j] != "---"@
}

/// The frontmatter of a file and what follows it, where the file starts with a fence line and has
/// another one.
pub fn split_frontmatter(s: &str) -> (r: Option<(String, String)>)
    ensures
        (match r {
            Some((yaml, body)) => exists|k: int| #[trigger]
                fenced_at(text::lines(s@), k) && yaml@ == text::joined(text::lines(s@).subrange(1, k), "\n"@) && body@
                    == text::joined(text::lines(s@).skip(k + 1), "\n"@),
            None => forall|k: int| !#[trigger] fenced_at(text::lines(s@), k),
        }),
{
    let lines = text::lines_of(s);
    let ghost all = text::lines(s@);
    assert(text::views(lines@).len() == lines@.len());
    if lines.len() == 0 {
        return None;
    }
    assert(all[0] == lines@[0]@);
    if !text::same(&lines[0], "---") {
        return None;
    }
    let mut k: usize = 1;
    let mut yaml: Vec<String> = Vec::new();
    assert(text::views(yaml@) == all.subrange(1, 1));
    while k < lines.len()
        invariant
            1 <= k <= lines.len(),
            text::views(lines@) == all,
            all.len() == lines@.len(),
            text::views(yaml@) == all.subrange(1, k as int),
            forall|j: int| 0 < j < k ==> all[j] != "---"@,
            all == text::lines(s@),
            all[0] == "---"@,
        decreases lines.len() - k,
    {
        assert(all[k as int] == lines@[k as int]@);
        if text::same(&lines[k], "---") {
            let mut body: Vec<String> = Vec::new();
            let mut j: usize = k + 1;
            assert(text::views(body@) == all.subrange(k + 1, k + 1));
            while j < lines.len()
                invariant
                    k < j <= lines.len(),
                    text::views(lines@) == all,
                    all.len() == lines@.len(),
                    text::views(body@) == all.subrange(k + 1, j as int),
                decreases lines.len() - j,
            {
                let l = lines[j].clone();
                let ghost before = body@;
                body.push(l);
                assert(text::views(body@) == text::views(before).push(l@));
                j += 1;
                assert(text::views(body@) == all.subrange(k + 1, j as int));
            }
            assert(all.subrange(k + 1, j as int) == all.skip(k + 1));
            assert(fenced_at(all, k as int));
            return Some((text::join(&yaml, "\n"), text::join(&body, "\n")));
        }
        let l = lines[k].clone();
        let ghost before = yaml@;
        yaml.push(l);
        assert(text::views(yaml@) == text::views(before).push(l@));
        k += 1;
        assert(text::views(yaml@) == all.subrange(1, k as int));
    }
    None
}

/// The line of a skill: its name, or that of its directory, and its description. None without a
/// description.
pub open spec fn skill_line(dir: Seq<char>, name: Seq<char>, description: Seq<char>) -> Option<Seq<char>> {
    let d = collapsed(description);
    if d.len() == 0 {
        None
    } else {
        Some(
            "- "@ + (if text::blank(name) {
                dir
            } else {
                text::trimmed(name)
            }) + " — "@ + truncated(d, MAX_DESCRIPTION as int),
        )
    }
}

/// The catalogue line of a skill, from the name and the description that its frontmatter carries.
pub fn skill_catalogue_entry(dir_name: &str, name: &str, description: &str) -> (r: Option<String>)
    ensures
        text::opt(r) == skill_line(dir_name@, name@, description@),
{
    let d = collapse_ws(description);
    if d.as_str().is_empty() {
        return None;
    }
    let n = text::trim(name);
    let mut r = "- ".to_owned();
    if n.as_str().is_empty() {
        r.append(dir_name);
    } else {
        r.append(&n);
    }
    r.append(" — ");
    let t = truncate_chars(&d, MAX_DESCRIPTION);
    r.append(&t);
    Some(r)
}

/// The directory of a skill, of a path that is exactly `skills/<name>/SKILL.md`.
pub open spec fn skill_of(path: Seq<char>) -> Option<Seq<char>> {
    if !"skills/"@.is_prefix_of(path) {
        None
    } else {
        let rest = path.skip("skills/"@.len() as int);
        if !"/SKILL.md"@.is_suffix_of(rest) {
            None
        } else {
            let name = rest.take(rest.len() - "/SKILL.md"@.len());
            if name.len() == 0 || name.contains('/') {
                None
            } else {
                Some(name)
            }
        }
    }
}

/// The directory of a skill whose file stands at `path`; none of any other file.
pub fn skill_dir(path: &str) -> (r: Option<String>)
    ensures
        text::opt(r) == skill_of(path@),
{
    let rest = match text::strip_prefix(path, "skills/") {
        Some(x) => x,
        None => {
            return None;
        },
    };
    let name = match text::strip_suffix(&rest, "/SKILL.md") {
        Some(x) => x,
        None => {
            return None;
        },
    };
    if name.as_str().is_empty() || text::has_char(&name, '/') {
        return None;
    }
    Some(name)
}

/// One skill as its file describes it.
pub struct Skill {
    pub dir: String,
    pub name: String,
    pub description: String,
}

/// The lines of those skills that have a description.
pub open spec fn skill_lines(skills: Seq<Skill>) -> Seq<Seq<char>>
    decreases skills.len(),
{
    if skills.len() == 0 {
        Seq::empty()
    } else {
        let rest = skill_lines(skills.drop_last());
        let s = skills.last();
        match skill_line(s.dir@, s.name@, s.description@) {
            Some(l) => rest.push(l),
            None => rest,
        }
    }
}

/// Whether a text is made of the given lines in sorted order.
pub open spec fn sorted_text(t: Seq<char>, lines: Seq<Seq<char>>) -> bool {
    exists|s: Seq<Seq<char>>| #[trigger]
        days::ordered(s) && s.to_multiset() == lines.to_multiset() && t == text::joined(s, "\n"@)
}

/// One line for each skill with a description, in sorted order.
pub fn skills_catalogue(skills: &[Skill]) -> (r: String)
    ensures
        sorted_text(r@, skill_lines(skills@)),
{
    let mut lines: Vec<String> = Vec::new();
    let mut i: usize = 0;
    assert(text::views(lines@) == skill_lines(skills@.take(0)));
    while i < skills.len()
        invariant
            i <= skills.len(),
            text::views(lines@) == skill_lines(skills@.take(i as int)),
        decreases skills.len() - i,
    {
        assert(skills@.take(i + 1).drop_last() == skills@.take(i as int));
        assert(skills@.take(i + 1).last() == skills@[i as int]);
        if let Some(l) = skill_catalogue_entry(&skills[i].dir, &skills[i].name, &skills[i].description) {
            let ghost before = lines@;
            lines.push(l);
            assert(text::views(lines@) == text::views(before).push(l@));
        }
        i += 1;
    }
    assert(skills@.take(i as int) == skills@);
    let sorted = days::sort_texts(lines);
    assert(days::ordered(text::views(sorted@)));
    text::join(&sorted, "\n")
}

/// The first `n` lines of a text.
pub open spec fn head(s: Seq<char>, n: int) -> Seq<char> {
    let l = text::lines(s);
    text::joined(
        if l.len() <= n {
            l
        } else {
            l.take(n)
        },
        "\n"@,
    )
}

/// The first `max_lines` lines of the memory index.
pub fn memory_index_head(index: &str, max_lines: usize) -> (r: String)
    ensures
        r@ == head(index@, max_lines as int),
{
    let mut lines = text::lines_of(index);
    let ghost all = text::lines(index@);
    assert(text::views(lines@).len() == lines@.len());
    if lines.len() > max_lines {
        let ghost before = lines@;
        lines.truncate(max_lines);
        assert(text::views(lines@) == all.take(max_lines as int));
    }
    text::join(&lines, "\n")
}

/// The sections of the self-orientation, from the catalogue of skills and the head of the index.
pub open spec fn sections(skills: Seq<char>, index: Seq<char>) -> Seq<Seq<char>> {
    (if skills.len() > 0 {
        seq![
            "skills available — your how-to guides; Read `skills/<name>/SKILL.md` before using one:\n"@ + skills,
        ]
    } else {
        Seq::empty()
    }) + (if !text::blank(index) {
        seq![
            "memory index (`memory/INDEX.md` — your catalogue; start here, Read entries on demand):\n"@
                + text::trimmed_end(index),
        ]
    } else {
        Seq::empty()
    })
}

/// What the agent has at hand that it would otherwise have to look for; empty where it has nothing.
pub fn self_orientation(skills: &[Skill], index: &str) -> (r: String)
    ensures
        exists|c: Seq<char>| #[trigger]
            sorted_text(c, skill_lines(skills@)) && r@ == text::joined(
                sections(c, head(index@, INDEX_LINES as int)),
                "\n\n"@,
            ),
{
    let c = skills_catalogue(skills);
    let h = memory_index_head(index, INDEX_LINES);
    let mut out: Vec<String> = Vec::new();
    assert(text::views(out@) == Seq::<Seq<char>>::empty());
    if !c.as_str().is_empty() {
        let mut s =
            "skills available — your how-to guides; Read `skills/<name>/SKILL.md` before using one:\n".to_owned();
        s.append(&c);
        out.push(s);
        assert(text::views(out@) == seq![s@]);
    }
    let ghost first = text::views(out@);
    let t = text::trim(&h);
    if !t.as_str().is_empty() {
        let mut s =
            "memory index (`memory/INDEX.md` — your catalogue; start here, Read entries on demand):\n".to_owned();
        let e = text::trim_end(&h);
        s.append(&e);
        let ghost before = out@;
        out.push(s);
        assert(text::views(out@) == text::views(before) + seq![s@]);
    }
    assert(text::views(out@) == sections(c@, h@));
    text::join(&out, "\n\n")
}

/// The words of a text are its runs without white space, in order: white space parts words, and a text
/// without any is one.
pub proof fn white_space_parts_words(a: Seq<char>, c: char, b: Seq<char>, w: Seq<char>)
    requires
        text::white(c),
        w.len() > 0,
        forall|i: int| 0 <= i < w.len() ==> !text::white(#[trigger] w[i]),
    ensures
        words(a + seq![c] + b) == words(a) + words(b),
        words(w) == seq![w],
        words(Seq::empty()) == Seq::<Seq<char>>::empty(),
{
    lemma_words_parted(a, c, b);
    lemma_one_word(w);
}

proof fn lemma_words_parted(a: Seq<char>, c: char, b: Seq<char>)
    requires
        text::white(c),
    ensures
        words(a + seq![c] + b) == words(a) + words(b),
        b.len() > 0 && !text::white(b.last()) ==> words(b).len() > 0,
    decreases b.len(),
{
    let t = a + seq![c] + b;
    if b.len() == 0 {
        assert(t.drop_last() == a);
        assert(t.last() == c);
        assert(words(a) + words(b) == words(a));
    } else {
        let d = b.drop_last();
        lemma_words_parted(a, c, d);
        assert(t.drop_last() == a + seq![c] + d);
        assert(t.last() == b.last());
        if !text::white(b.last()) {
            if b.len() > 1 {
                assert(t[t.len() - 2] == b[b.len() - 2]);
                if !text::white(b[b.len() - 2]) {
                    assert(d.last() == b[b.len() - 2]);
                    assert((words(a) + words(d)).drop_last() == words(a) + words(d).drop_last());
                    assert((words(a) + words(d)).last() == words(d).last());
                }
            } else {
                assert(t[t.len() - 2] == c);
                assert(words(d) == Seq::<Seq<char>>::empty());
            }
            assert(words(t) == words(a) + words(b));
        }
    }
}

proof fn lemma_one_word(w: Seq<char>)
    requires
        w.len() > 0,
        forall|i: int| 0 <= i < w.len() ==> !text::white(#[trigger] w[i]),
    ensures
        words(w) == seq![w],
    decreases w.len(),
{
    let d = w.drop_last();
    assert(!text::white(w[w.len() - 1]));
    if w.len() == 1 {
        assert(words(d) == Seq::<Seq<char>>::empty());
        assert(seq![w.last()] == w);
        assert(words(w) == seq![w]);
    } else {
        assert(!text::white(w[w.len() - 2]));
        assert forall|i: int| 0 <= i < d.len() implies !text::white(#[trigger] d[i]) by {
            assert(d[i] == w[i]);
        }
        lemma_one_word(d);
        assert(seq![d].drop_last() == Seq::<Seq<char>>::empty());
        assert(d.push(w.last()) == w);
        assert(words(w) == seq![w]);
    }
}

/// The line of a skill: its name, or that of its directory where it has none, and its description on one
/// line, cut at two hundred and forty characters with a mark. A skill without a description has no line.
pub proof fn a_skill_has_its_line(dir: Seq<char>, name: Seq<char>, description: Seq<char>)
    ensures
        ({
            let d = text::joined(words(description), " "@);
            let n = if text::blank(name) {
                dir
            } else {
                text::trimmed(name)
            };
            &&& d.len() == 0 ==> skill_line(dir, name, description) is None
            &&& 0 < d.len() <= 240 ==> skill_line(dir, name, description) == Some("- "@ + n + " — "@ + d)
            &&& d.len() > 240 ==> skill_line(dir, name, description) == Some(
                "- "@ + n + " — "@ + (text::trimmed_end(d.take(240)) + "…"@),
            )
        }),
{
}

/// A skill is found by its file, directly in a directory of its own under `skills/`.
pub proof fn a_skill_is_found_by_its_file(name: Seq<char>, path: Seq<char>)
    ensures
        name.len() > 0 && !name.contains('/') ==> skill_of("skills/"@ + name + "/SKILL.md"@) == Some(name),
        name.contains('/') ==> skill_of("skills/"@ + name + "/SKILL.md"@) is None,
        !"skills/"@.is_prefix_of(path) ==> skill_of(path) is None,
        !"/SKILL.md"@.is_suffix_of(path) ==> skill_of(path) is None,
{
    let a = "skills/"@;
    let z = "/SKILL.md"@;
    let p = a + name + z;
    assert(p.subrange(0, a.len() as int) == a);
    let rest = p.skip(a.len() as int);
    assert(rest == name + z);
    assert(rest.subrange(rest.len() - z.len(), rest.len() as int) == z);
    assert(rest.take(rest.len() - z.len()) == name);
    if skill_of(path) is Some {
        let r = path.skip(a.len() as int);
        assert(r.subrange(r.len() - z.len(), r.len() as int) == path.subrange(
            path.len() - z.len(),
            path.len() as int,
        ));
    }
}

/// Each skill that has a line adds it, in order; one without adds none.
pub proof fn one_more_skill_is_one_more_line(skills: Seq<Skill>, s: Skill)
    ensures
        skill_lines(Seq::empty()) == Seq::<Seq<char>>::empty(),
        skill_lines(skills.push(s)) == (match skill_line(s.dir@, s.name@, s.description@) {
            Some(l) => skill_lines(skills).push(l),
            None => skill_lines(skills),
        }),
{
    assert(skills.push(s).drop_last() == skills);
}

/// The head of a text is its first lines, as many as asked for, or all of them.
pub proof fn a_head_is_the_first_lines(s: Seq<char>, n: int)
    requires
        n >= 0,
    ensures
        text::lines(s).len() <= n ==> head(s, n) == text::joined(text::lines(s), "\n"@),
        text::lines(s).len() > n ==> head(s, n) == text::joined(text::lines(s).subrange(0, n), "\n"@),
{
    assert(text::lines(s).len() > n ==> text::lines(s).take(n) == text::lines(s).subrange(0, n));
}

/// The self-orientation holds the skills and then the index of memory, each where there is one.
pub proof fn the_orientation_holds_skills_and_index(skills: Seq<char>, index: Seq<char>)
    ensures
        ({
            let all = sections(skills, index);
            &&& skills.len() == 0 && text::blank(index) ==> all.len() == 0
            &&& skills.len() > 0 ==> all.len() > 0 && skills.is_suffix_of(all[0])
            &&& !text::blank(index) ==> all.len() > 0 && text::trimmed_end(index).is_suffix_of(all.last())
            &&& skills.len() > 0 && !text::blank(index) ==> all.len() == 2
            &&& all.len() <= 2
        }),
{
    let all = sections(skills, index);
    if skills.len() > 0 {
        let l = all[0];
        assert(l.subrange(l.len() - skills.len(), l.len() as int) == skills);
    }
    if !text::blank(index) {
        let l = all.last();
        let t = text::trimmed_end(index);
        assert(l.subrange(l.len() - t.len(), l.len() as int) == t);
    }
}

/// Frontmatter stands between the first line and the first line behind it that is a fence too: there is
/// one such line at most.
pub proof fn frontmatter_ends_at_the_first_fence(lines: Seq<Seq<char>>, j: int, k: int)
    requires
        fenced_at(lines, k),
    ensures
        lines[0] == "---"@,
        lines[k] == "---"@,
        0 < j < k ==> lines[j] != "---"@,
        fenced_at(lines, j) ==> j == k,
{
}

} // verus!
