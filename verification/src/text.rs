//! Text primitives: every operation the engine performs on strings, stated over `Seq<char>`.

use vstd::prelude::*;

verus! {

/// `String::push` appends one character at the end.
pub assume_specification[ String::push ](s: &mut String, c: char)
    ensures
        final(s)@ == old(s)@.push(c),
;

/// The characters of `s`, in order.
pub fn chars_of(s: &str) -> (v: Vec<char>)
    ensures
        v@ == s@,
{
    let mut v: Vec<char> = Vec::new();
    for c in it: s.chars()
        invariant
            it.seq() == s@,
            v@ == s@.take(it.index()),
    {
        v.push(c);
        assert(v@ == s@.take(it.index() + 1));
    }
    assert(v@ == s@);
    v
}

/// The string made of the characters `v[from..to]`.
pub fn text_of(v: &[char], from: usize, to: usize) -> (s: String)
    requires
        from <= to <= v@.len(),
    ensures
        s@ == v@.subrange(from as int, to as int),
{
    let mut s = String::new();
    let mut i: usize = from;
    while i < to
        invariant
            from <= i <= to <= v@.len(),
            s@ == v@.subrange(from as int, i as int),
        decreases to - i,
    {
        s.push(v[i]);
        i += 1;
        assert(s@ == v@.subrange(from as int, i as int));
    }
    s
}

/// Whether two strings hold the same characters.
pub fn same(a: &str, b: &str) -> (r: bool)
    ensures
        r == (a@ == b@),
{
    let x = chars_of(a);
    let y = chars_of(b);
    if x.len() != y.len() {
        return false;
    }
    let mut i: usize = 0;
    while i < x.len()
        invariant
            x@ == a@,
            y@ == b@,
            x.len() == y.len(),
            i <= x.len(),
            forall|j: int| 0 <= j < i ==> x@[j] == y@[j],
        decreases x.len() - i,
    {
        if x[i] != y[i] {
            assert(a@[i as int] != b@[i as int]);
            return false;
        }
        i += 1;
    }
    assert(a@ == b@);
    true
}

/// The characters of Unicode's `White_Space` property.
pub open spec fn white(c: char) -> bool {
    let n = c as u32;
    ||| 0x9 <= n <= 0xd
    ||| n == 0x20 || n == 0x85 || n == 0xa0 || n == 0x1680
    ||| 0x2000 <= n <= 0x200a
    ||| n == 0x2028 || n == 0x2029 || n == 0x202f || n == 0x205f || n == 0x3000
}

/// Whether `c` is white space.
pub fn is_white(c: char) -> (r: bool)
    ensures
        r == white(c),
{
    let n: u32 = c as u32;
    (0x9 <= n && n <= 0xd) || n == 0x20 || n == 0x85 || n == 0xa0 || n == 0x1680 || (0x2000 <= n
        && n <= 0x200a) || n == 0x2028 || n == 0x2029 || n == 0x202f || n == 0x205f || n == 0x3000
}

/// `s` without its leading white space.
pub open spec fn trimmed_start(s: Seq<char>) -> Seq<char>
    decreases s.len(),
{
    if s.len() > 0 && white(s[0]) {
        trimmed_start(s.drop_first())
    } else {
        s
    }
}

/// `s` without its trailing white space.
pub open spec fn trimmed_end(s: Seq<char>) -> Seq<char>
    decreases s.len(),
{
    if s.len() > 0 && white(s.last()) {
        trimmed_end(s.drop_last())
    } else {
        s
    }
}

/// `s` without the white space at its two ends.
pub open spec fn trimmed(s: Seq<char>) -> Seq<char> {
    trimmed_end(trimmed_start(s))
}

/// Removes trailing white space.
pub fn trim_end(s: &str) -> (r: String)
    ensures
        r@ == trimmed_end(s@),
{
    let v = chars_of(s);
    let mut n: usize = v.len();
    assert(v@.take(n as int) == v@);
    while n > 0 && is_white(v[n - 1])
        invariant
            n <= v.len(),
            trimmed_end(v@.take(n as int)) == trimmed_end(v@),
        decreases n,
    {
        assert(v@.take(n as int).drop_last() == v@.take(n - 1));
        n -= 1;
    }
    assert(v@.subrange(0, n as int) == v@.take(n as int));
    text_of(&v, 0, n)
}

/// Removes the white space at both ends.
pub fn trim(s: &str) -> (r: String)
    ensures
        r@ == trimmed(s@),
{
    let v = chars_of(s);
    let mut i: usize = 0;
    assert(v@.skip(0) == v@);
    while i < v.len() && is_white(v[i])
        invariant
            i <= v.len(),
            trimmed_start(v@.skip(i as int)) == trimmed_start(v@),
        decreases v.len() - i,
    {
        assert(v@.skip(i as int).drop_first() == v@.skip(i + 1));
        i += 1;
    }
    let t = text_of(&v, i, v.len());
    assert(t@ == v@.skip(i as int));
    trim_end(&t)
}

proof fn lemma_trimmed_end(s: Seq<char>)
    ensures
        trimmed_end(s).len() <= s.len(),
        trimmed_end(s) == s.take(trimmed_end(s).len() as int),
        trimmed_end(s).len() > 0 ==> !white(trimmed_end(s).last()),
        s.len() > 0 && !white(s[0]) ==> trimmed_end(s).len() > 0,
    decreases s.len(),
{
    if s.len() > 0 && white(s.last()) {
        lemma_trimmed_end(s.drop_last());
        assert(s.drop_last().take(trimmed_end(s).len() as int) == s.take(trimmed_end(s).len() as int));
        if s.len() == 1 {
            assert(s.last() == s[0]);
        } else {
            assert(s.drop_last()[0] == s[0]);
        }
    } else {
        assert(s.take(s.len() as int) == s);
    }
}

proof fn lemma_trimmed_start(s: Seq<char>)
    ensures
        trimmed_start(s).len() > 0 ==> !white(trimmed_start(s)[0]),
    decreases s.len(),
{
    if s.len() > 0 && white(s[0]) {
        lemma_trimmed_start(s.drop_first());
    }
}

/// A trimmed text has nothing left to trim.
pub proof fn lemma_trimmed_twice(s: Seq<char>)
    ensures
        trimmed(trimmed(s)) == trimmed(s),
{
    let a = trimmed_start(s);
    let t = trimmed(s);
    lemma_trimmed_start(s);
    lemma_trimmed_end(a);
    if t.len() > 0 {
        assert(t[0] == a[0]);
        assert(trimmed_start(t) == t);
        assert(trimmed_end(t) == t);
    }
}

/// A trimmed text does not end in white space.
pub proof fn lemma_trimmed_ends(s: Seq<char>)
    requires
        trimmed(s) == s,
        s.len() > 0,
    ensures
        !white(s.last()),
{
    lemma_trimmed_end(trimmed_start(s));
}

/// Whether `s` holds only white space.
pub open spec fn blank(s: Seq<char>) -> bool {
    trimmed(s).len() == 0
}

/// `s` cut at every `sep`: one piece more than there are separators.
pub open spec fn pieces(s: Seq<char>, sep: char) -> Seq<Seq<char>>
    decreases s.len(),
{
    if s.len() == 0 {
        seq![Seq::<char>::empty()]
    } else {
        let before = pieces(s.drop_last(), sep);
        if s.last() == sep {
            before.push(Seq::empty())
        } else {
            before.drop_last().push(before.last().push(s.last()))
        }
    }
}

/// The view of an optional string.
pub open spec fn opt(o: Option<String>) -> Option<Seq<char>> {
    match o {
        Some(s) => Some(s@),
        None => None,
    }
}

/// The view of an optional borrowed string.
pub open spec fn opt_str(o: Option<&str>) -> Option<Seq<char>> {
    match o {
        Some(s) => Some(s@),
        None => None,
    }
}

/// Copies an optional string.
pub fn opt_copy(o: &Option<String>) -> (r: Option<String>)
    ensures
        r == *o,
{
    match o {
        Some(s) => Some(s.clone()),
        None => None,
    }
}

/// Copies a list of strings.
pub fn copy_all(v: &[String]) -> (r: Vec<String>)
    ensures
        r@ == v@,
        views(r@) == views(v@),
{
    let mut r: Vec<String> = Vec::new();
    let mut i: usize = 0;
    while i < v.len()
        invariant
            i <= v.len(),
            r@ == v@.take(i as int),
        decreases v.len() - i,
    {
        r.push(v[i].clone());
        i += 1;
        assert(r@ == v@.take(i as int));
    }
    assert(r@ == v@);
    r
}

/// Whether `x` is one of the strings in `v`.
pub fn member(v: &[String], x: &str) -> (r: bool)
    ensures
        r == views(v@).contains(x@),
{
    let mut i: usize = 0;
    while i < v.len()
        invariant
            i <= v.len(),
            forall|j: int| 0 <= j < i ==> views(v@)[j] != x@,
        decreases v.len() - i,
    {
        if same(&v[i], x) {
            assert(views(v@)[i as int] == x@);
            return true;
        }
        i += 1;
    }
    false
}

/// The views of a sequence of strings.
pub open spec fn views(v: Seq<String>) -> Seq<Seq<char>> {
    v.map_values(|s: String| s@)
}

pub proof fn lemma_pieces_nonempty(s: Seq<char>, sep: char)
    ensures
        pieces(s, sep).len() >= 1,
    decreases s.len(),
{
    if s.len() > 0 {
        lemma_pieces_nonempty(s.drop_last(), sep);
    }
}

/// Cuts `s` at every `sep`.
pub fn split(s: &str, sep: char) -> (r: Vec<String>)
    ensures
        views(r@) == pieces(s@, sep),
{
    let v = chars_of(s);
    let mut done: Vec<String> = Vec::new();
    let mut cur = String::new();
    let mut i: usize = 0;
    assert(pieces(v@.take(0), sep) == views(done@).push(cur@));
    while i < v.len()
        invariant
            i <= v.len(),
            pieces(v@.take(i as int), sep) == views(done@).push(cur@),
        decreases v.len() - i,
    {
        let c = v[i];
        assert(v@.take(i + 1).drop_last() == v@.take(i as int));
        assert(v@.take(i + 1).last() == c);
        let ghost before = pieces(v@.take(i as int), sep);
        assert(before.drop_last() == views(done@));
        if c == sep {
            let ghost old_done = done@;
            done.push(cur);
            cur = String::new();
            assert(views(done@) == before);
        } else {
            cur.push(c);
        }
        i += 1;
        assert(pieces(v@.take(i as int), sep) == views(done@).push(cur@));
    }
    assert(v@.take(i as int) == v@);
    let ghost d = done@;
    let ghost c = cur@;
    done.push(cur);
    assert(views(done@) == views(d).push(c));
    done
}

/// The parts, each without the white space at its ends, without those that are blank.
pub open spec fn unblank(parts: Seq<Seq<char>>) -> Seq<Seq<char>>
    decreases parts.len(),
{
    if parts.len() == 0 {
        parts
    } else {
        let rest = unblank(parts.drop_last());
        let t = trimmed(parts.last());
        if t.len() == 0 {
            rest
        } else {
            rest.push(t)
        }
    }
}

/// The items of a comma-separated list.
pub open spec fn listed(s: Seq<char>) -> Seq<Seq<char>> {
    unblank(pieces(s, ','))
}

/// The items of a comma-separated list.
pub fn comma_list(s: &str) -> (r: Vec<String>)
    ensures
        views(r@) == listed(s@),
{
    let parts = split(s, ',');
    let ghost p = views(parts@);
    let mut r: Vec<String> = Vec::new();
    let mut i: usize = 0;
    while i < parts.len()
        invariant
            i <= parts.len(),
            p == views(parts@),
            views(r@) == unblank(p.take(i as int)),
        decreases parts.len() - i,
    {
        let t = trim(&parts[i]);
        assert(p.take(i + 1).drop_last() == p.take(i as int));
        assert(p.take(i + 1).last() == parts@[i as int]@);
        let ghost before = r@;
        if !t.as_str().is_empty() {
            r.push(t);
            assert(views(r@) == views(before).push(t@));
        }
        i += 1;
    }
    assert(p.take(i as int) == p);
    r
}

/// One line as read back: without the carriage return in front of the line feed that ended it.
pub open spec fn without_cr(s: Seq<char>) -> Seq<char> {
    if s.len() > 0 && s.last() == '\r' {
        s.drop_last()
    } else {
        s
    }
}

/// The lines of a text: what stands in front of each line feed, and what follows the last one
/// unless that is empty.
pub open spec fn lines(s: Seq<char>) -> Seq<Seq<char>> {
    let p = pieces(s, '\n');
    let ended = p.drop_last().map_values(|l: Seq<char>| without_cr(l));
    if p.last().len() == 0 {
        ended
    } else {
        ended.push(p.last())
    }
}

/// The lines of a text.
pub fn lines_of(s: &str) -> (r: Vec<String>)
    ensures
        views(r@) == lines(s@),
{
    let parts = split(s, '\n');
    proof {
        lemma_pieces_nonempty(s@, '\n');
    }
    let ghost p = pieces(s@, '\n');
    assert(views(parts@).len() == p.len());
    let n: usize = parts.len() - 1;
    let mut r: Vec<String> = Vec::new();
    let mut i: usize = 0;
    while i < n
        invariant
            i <= n,
            n == parts.len() - 1,
            views(parts@) == p,
            views(r@) == p.take(i as int).map_values(|l: Seq<char>| without_cr(l)),
        decreases n - i,
    {
        let v = chars_of(&parts[i]);
        assert(v@ == p[i as int]);
        let k: usize = v.len();
        let line = if k > 0 && v[k - 1] == '\r' {
            text_of(&v, 0, k - 1)
        } else {
            text_of(&v, 0, k)
        };
        assert(line@ == without_cr(p[i as int]));
        let ghost before = r@;
        r.push(line);
        i += 1;
        assert(views(r@) == views(before).push(line@));
        assert(p.take(i as int) == p.take(i - 1).push(p[i - 1]));
        assert(views(r@) == p.take(i as int).map_values(|l: Seq<char>| without_cr(l)));
    }
    assert(p.take(n as int) == p.drop_last());
    assert(views(parts@)[n as int] == parts@[n as int]@);
    if !parts[n].as_str().is_empty() {
        let ghost before = r@;
        let last = parts[n].clone();
        r.push(last);
        assert(views(r@) == views(before).push(last@));
    }
    r
}

/// The parts with `sep` between neighbours.
pub open spec fn joined(parts: Seq<Seq<char>>, sep: Seq<char>) -> Seq<char>
    decreases parts.len(),
{
    if parts.len() == 0 {
        Seq::empty()
    } else if parts.len() == 1 {
        parts[0]
    } else {
        joined(parts.drop_last(), sep) + sep + parts.last()
    }
}

/// Joins the parts with `sep` between neighbours.
pub fn join(parts: &[String], sep: &str) -> (r: String)
    ensures
        r@ == joined(views(parts@), sep@),
{
    let mut r = String::new();
    let mut i: usize = 0;
    let ghost p = views(parts@);
    while i < parts.len()
        invariant
            i <= parts.len(),
            p == views(parts@),
            r@ == joined(p.take(i as int), sep@),
        decreases parts.len() - i,
    {
        if i > 0 {
            r.append(sep);
        }
        r.append(&parts[i]);
        i += 1;
        assert(p.take(i as int).drop_last() == p.take(i - 1));
        assert(p.take(i as int).last() == p[i - 1]);
        if i == 1 {
            assert(r@ == p.take(i as int)[0]);
        }
    }
    assert(p.take(i as int) == p);
    r
}

/// The last `n` of a list, or all of it where it is shorter.
pub open spec fn last_of<T>(s: Seq<T>, n: int) -> Seq<T> {
    if s.len() <= n {
        s
    } else {
        s.skip(s.len() - n)
    }
}

/// Keeps the last `n` strings of a list.
pub fn keep_last(v: Vec<String>, n: usize) -> (r: Vec<String>)
    ensures
        views(r@) == last_of(views(v@), n as int),
{
    let mut v = v;
    let k: usize = v.len();
    if k <= n {
        v
    } else {
        let ghost before = v@;
        let r = v.split_off(k - n);
        assert(views(r@) == views(before).skip(k - n));
        r
    }
}

/// Whether `s` starts with `prefix`.
pub fn starts_with(s: &str, prefix: &str) -> (r: bool)
    ensures
        r == prefix@.is_prefix_of(s@),
{
    strip_prefix(s, prefix).is_some()
}

/// What follows `prefix` in `s`, if `s` starts with it.
pub fn strip_prefix(s: &str, prefix: &str) -> (r: Option<String>)
    ensures
        (match r {
            Some(x) => prefix@.is_prefix_of(s@) && x@ == s@.skip(prefix@.len() as int),
            None => !prefix@.is_prefix_of(s@),
        }),
{
    let v = chars_of(s);
    let p = chars_of(prefix);
    if p.len() > v.len() {
        return None;
    }
    let mut i: usize = 0;
    while i < p.len()
        invariant
            i <= p.len() <= v.len(),
            v@ == s@,
            p@ == prefix@,
            forall|j: int| 0 <= j < i ==> v@[j] == p@[j],
        decreases p.len() - i,
    {
        if v[i] != p[i] {
            assert(s@.subrange(0, prefix@.len() as int)[i as int] != prefix@[i as int]);
            return None;
        }
        i += 1;
    }
    assert(prefix@ == s@.subrange(0, prefix@.len() as int));
    let r = text_of(&v, p.len(), v.len());
    assert(r@ == s@.skip(prefix@.len() as int));
    Some(r)
}

/// What stands before `suffix` in `s`, if `s` ends with it.
pub fn strip_suffix(s: &str, suffix: &str) -> (r: Option<String>)
    ensures
        (match r {
            Some(x) => suffix@.is_suffix_of(s@) && x@ == s@.take(s@.len() - suffix@.len()),
            None => !suffix@.is_suffix_of(s@),
        }),
{
    let v = chars_of(s);
    let p = chars_of(suffix);
    if p.len() > v.len() {
        return None;
    }
    let k: usize = v.len() - p.len();
    let mut i: usize = 0;
    while i < p.len()
        invariant
            i <= p.len() <= v.len(),
            k == v.len() - p.len(),
            v@ == s@,
            p@ == suffix@,
            forall|j: int| 0 <= j < i ==> v@[k + j] == p@[j],
        decreases p.len() - i,
    {
        if v[k + i] != p[i] {
            assert(s@.subrange(s@.len() - suffix@.len(), s@.len() as int)[i as int]
                != suffix@[i as int]);
            return None;
        }
        i += 1;
    }
    assert(suffix@ == s@.subrange(s@.len() - suffix@.len(), s@.len() as int));
    let r = text_of(&v, 0, k);
    assert(r@ == s@.take(s@.len() - suffix@.len()));
    Some(r)
}

/// Whether `p` stands in `s` at position `i`.
pub open spec fn at(s: Seq<char>, p: Seq<char>, i: int) -> bool {
    0 <= i && i + p.len() <= s.len() && s.subrange(i, i + p.len()) == p
}

/// Whether `p` occurs in `s`.
pub open spec fn occurs(s: Seq<char>, p: Seq<char>) -> bool {
    exists|i: int| at(s, p, i)
}

/// Whether the characters `q` stand in `v` at position `i`.
fn stands(v: &[char], q: &[char], i: usize) -> (r: bool)
    requires
        i + q@.len() <= v@.len(),
    ensures
        r == at(v@, q@, i as int),
{
    let n: usize = v.len();
    let mut k: usize = 0;
    while k < q.len()
        invariant
            k <= q.len(),
            i + q@.len() <= v@.len() == n,
            forall|j: int| 0 <= j < k ==> v@[i + j] == q@[j],
        decreases q.len() - k,
    {
        if v[i + k] != q[k] {
            assert(v@.subrange(i as int, i + q@.len())[k as int] != q@[k as int]);
            return false;
        }
        k += 1;
    }
    assert(v@.subrange(i as int, i + q@.len()) == q@);
    true
}

/// The first position at which `p` stands in `s`.
pub fn find(s: &str, p: &str) -> (r: Option<usize>)
    ensures
        (match r {
            Some(i) => at(s@, p@, i as int) && forall|j: int| 0 <= j < i ==> !at(s@, p@, j),
            None => !occurs(s@, p@),
        }),
{
    let v = chars_of(s);
    let q = chars_of(p);
    let mut i: usize = 0;
    while i <= v.len() && q.len() <= v.len() - i
        invariant
            v@ == s@,
            q@ == p@,
            i <= v.len() + 1,
            forall|j: int| 0 <= j < i ==> !at(s@, p@, j),
        decreases v.len() + 1 - i,
    {
        if stands(&v, &q, i) {
            return Some(i);
        }
        if i == v.len() {
            return None;
        }
        i += 1;
    }
    None
}

/// Whether `p` occurs in `s`.
pub fn contains(s: &str, p: &str) -> (r: bool)
    ensures
        r == occurs(s@, p@),
{
    find(s, p).is_some()
}

/// `a` with each member of `b` that it does not hold yet.
pub open spec fn merged(a: Seq<Seq<char>>, b: Seq<Seq<char>>) -> Seq<Seq<char>>
    decreases b.len(),
{
    if b.len() == 0 {
        a
    } else {
        let r = merged(a, b.drop_last());
        if r.contains(b.last()) {
            r
        } else {
            r.push(b.last())
        }
    }
}

/// Adds each member of `b` that `a` does not hold yet.
pub fn merge(a: &mut Vec<String>, b: &[String])
    ensures
        views(final(a)@) == merged(views(old(a)@), views(b@)),
{
    let ghost start = views(a@);
    let ghost all = views(b@);
    let mut i: usize = 0;
    assert(all.take(0) == Seq::<Seq<char>>::empty());
    while i < b.len()
        invariant
            i <= b.len(),
            all == views(b@),
            views(a@) == merged(start, all.take(i as int)),
        decreases b.len() - i,
    {
        assert(all.take(i + 1).drop_last() == all.take(i as int));
        assert(all.take(i + 1).last() == b@[i as int]@);
        if !member(a, &b[i]) {
            let ghost before = a@;
            let t = b[i].clone();
            a.push(t);
            assert(views(a@) == views(before).push(t@));
        }
        i += 1;
    }
    assert(all.take(i as int) == all);
}

/// Whether the character `c` occurs in `s`.
pub fn has_char(s: &str, c: char) -> (r: bool)
    ensures
        r == s@.contains(c),
{
    let v = chars_of(s);
    let mut i: usize = 0;
    while i < v.len()
        invariant
            i <= v.len(),
            v@ == s@,
            forall|j: int| 0 <= j < i ==> s@[j] != c,
        decreases v.len() - i,
    {
        if v[i] == c {
            assert(s@[i as int] == c);
            return true;
        }
        i += 1;
    }
    false
}

/// `s` with every `c` replaced by `by`.
pub open spec fn replaced(s: Seq<char>, c: char, by: Seq<char>) -> Seq<char>
    decreases s.len(),
{
    if s.len() == 0 {
        s
    } else {
        replaced(s.drop_last(), c, by) + (if s.last() == c {
            by
        } else {
            seq![s.last()]
        })
    }
}

/// Replaces every `c` by `by`.
pub fn replace(s: &str, c: char, by: &str) -> (r: String)
    ensures
        r@ == replaced(s@, c, by@),
{
    let v = chars_of(s);
    let mut r = String::new();
    let mut i: usize = 0;
    while i < v.len()
        invariant
            i <= v.len(),
            r@ == replaced(v@.take(i as int), c, by@),
        decreases v.len() - i,
    {
        assert(v@.take(i + 1).drop_last() == v@.take(i as int));
        let ghost before = r@;
        if v[i] == c {
            r.append(by);
        } else {
            r.push(v[i]);
            assert(r@ == before + seq![v@[i as int]]);
        }
        i += 1;
    }
    assert(v@.take(i as int) == v@);
    r
}

/// How many bytes a character takes in UTF-8.
pub open spec fn width(c: char) -> int {
    let n = c as u32;
    if n < 0x80 {
        1
    } else if n < 0x800 {
        2
    } else if n < 0x10000 {
        3
    } else {
        4
    }
}

/// The longest start of `s` that takes at most `max` bytes.
pub open spec fn fitting(s: Seq<char>, max: int) -> Seq<char>
    decreases s.len(),
{
    if s.len() == 0 || width(s[0]) > max {
        Seq::empty()
    } else {
        seq![s[0]] + fitting(s.drop_first(), max - width(s[0]))
    }
}

/// The longest start of `s` that takes at most `max` bytes, and whether that is less than all of it.
pub fn cut_bytes(s: &str, max: usize) -> (r: (String, bool))
    ensures
        r.0@ == fitting(s@, max as int),
        r.1 == (fitting(s@, max as int) != s@),
{
    let v = chars_of(s);
    let mut room: usize = max;
    let mut i: usize = 0;
    assert(v@.skip(0) == v@);
    assert(v@.take(0) + fitting(v@.skip(0), room as int) == fitting(v@, max as int));
    while i < v.len()
        invariant
            i <= v.len(),
            v@.take(i as int) + fitting(v@.skip(i as int), room as int) == fitting(v@, max as int),
        ensures
            i <= v.len(),
            v@.take(i as int) == fitting(v@, max as int),
        decreases v.len() - i,
    {
        let n: u32 = v[i] as u32;
        let w: usize = if n < 0x80 {
            1
        } else if n < 0x800 {
            2
        } else if n < 0x10000 {
            3
        } else {
            4
        };
        assert(v@.skip(i as int)[0] == v@[i as int]);
        if w > room {
            assert(v@.take(i as int) + Seq::<char>::empty() == v@.take(i as int));
            break;
        }
        let ghost before = v@.take(i as int) + fitting(v@.skip(i as int), room as int);
        room -= w;
        assert(v@.skip(i as int).drop_first() == v@.skip(i + 1));
        i += 1;
        assert(v@.take(i as int) + fitting(v@.skip(i as int), room as int) == before);
    }
    if i == v.len() {
        assert(v@.take(i as int) == v@);
    }
    let t = text_of(&v, 0, i);
    assert(t@ == v@.take(i as int));
    (t, i < v.len())
}

/// One hexadecimal digit.
pub open spec fn hex_digit(d: int) -> char {
    if d < 10 {
        ('0' as int + d) as char
    } else {
        ('a' as int + d - 10) as char
    }
}

/// A byte as two hexadecimal digits.
pub open spec fn hex(b: u8) -> Seq<char> {
    seq![hex_digit(b as int / 16), hex_digit(b as int % 16)]
}

/// Writes a byte as two hexadecimal digits.
pub fn hex_text(b: u8) -> (r: String)
    ensures
        r@ == hex(b),
{
    let hi: u8 = b / 16;
    let lo: u8 = b % 16;
    let mut r = String::new();
    r.push(if hi < 10 {
        (48 + hi) as char
    } else {
        (87 + hi) as char
    });
    r.push(if lo < 10 {
        (48 + lo) as char
    } else {
        (87 + lo) as char
    });
    assert(r@ == hex(b));
    r
}

/// `std::str::from_utf8`: the text whose UTF-8 bytes these are, if they are valid UTF-8.
#[verifier::external_body]
pub(crate) fn utf8_text<'a>(bytes: &'a [u8]) -> (r: Option<&'a str>)
    ensures
        (match r {
            Some(s) => vstd::utf8::encode_utf8(s@) == bytes@,
            None => !vstd::utf8::valid_utf8(bytes@),
        }),
{
    std::str::from_utf8(bytes).ok()
}

/// `c` with an ASCII capital made small.
pub open spec fn lower(c: char) -> char {
    if 'A' <= c <= 'Z' {
        (c as u32 + 32) as char
    } else {
        c
    }
}

/// `s` with its ASCII capitals made small.
pub open spec fn lowered(s: Seq<char>) -> Seq<char> {
    s.map_values(|c: char| lower(c))
}

/// Makes ASCII capitals small.
pub fn ascii_lower(s: &str) -> (r: String)
    ensures
        r@ == lowered(s@),
{
    let v = chars_of(s);
    let mut r = String::new();
    let mut i: usize = 0;
    while i < v.len()
        invariant
            i <= v.len(),
            r@ == lowered(v@.take(i as int)),
        decreases v.len() - i,
    {
        let c: char = v[i];
        if 'A' <= c && c <= 'Z' {
            let b: u8 = c as u8;
            r.push((b + 32) as char);
        } else {
            r.push(c);
        }
        i += 1;
        assert(r@ == lowered(v@.take(i as int)));
    }
    assert(v@.take(i as int) == v@);
    r
}

/// `s` with every `p` replaced by `by`, from the front.
pub open spec fn replaced_text(s: Seq<char>, p: Seq<char>, by: Seq<char>) -> Seq<char>
    decreases s.len(),
{
    if p.len() == 0 || s.len() < p.len() {
        s
    } else if at(s, p, 0) {
        by + replaced_text(s.skip(p.len() as int), p, by)
    } else {
        seq![s[0]] + replaced_text(s.drop_first(), p, by)
    }
}

/// Replaces every `p` by `by`, from the front.
pub fn replace_text(s: &str, p: &str, by: &str) -> (r: String)
    ensures
        r@ == replaced_text(s@, p@, by@),
{
    let v = chars_of(s);
    let q = chars_of(p);
    if q.len() == 0 {
        return s.to_owned();
    }
    let mut r = String::new();
    let mut i: usize = 0;
    assert(v@.skip(0) == v@);
    while i < v.len() && q.len() <= v.len() - i
        invariant
            i <= v.len(),
            q@ == p@,
            q.len() > 0,
            r@ + replaced_text(v@.skip(i as int), p@, by@) == replaced_text(v@, p@, by@),
        decreases v.len() - i,
    {
        let ghost tail = v@.skip(i as int);
        let ghost before = r@;
        assert(tail.len() == v.len() - i);
        assert(tail.subrange(0, q@.len() as int) == v@.subrange(i as int, i + q@.len()));
        if stands(&v, &q, i) {
            assert(at(tail, p@, 0));
            r.append(by);
            assert(tail.skip(q@.len() as int) == v@.skip(i + q@.len()));
            i += q.len();
        } else {
            assert(!at(tail, p@, 0));
            r.push(v[i]);
            assert(tail.drop_first() == v@.skip(i + 1));
            assert(tail[0] == v@[i as int]);
            i += 1;
        }
        assert(r@ + replaced_text(v@.skip(i as int), p@, by@) == before + replaced_text(tail, p@, by@));
    }
    let rest = text_of(&v, i, v.len());
    assert(rest@ == v@.skip(i as int));
    r.append(&rest);
    r
}

/// The lines, each with a line feed behind it.
pub open spec fn unlines(lines: Seq<Seq<char>>) -> Seq<char>
    decreases lines.len(),
{
    if lines.len() == 0 {
        Seq::empty()
    } else {
        unlines(lines.drop_last()) + lines.last() + seq!['\n']
    }
}

/// Writes the lines, each with a line feed behind it.
pub fn write_lines(v: &[String]) -> (r: String)
    ensures
        r@ == unlines(views(v@)),
{
    let ghost all = views(v@);
    let mut r = String::new();
    let mut i: usize = 0;
    while i < v.len()
        invariant
            i <= v.len(),
            all == views(v@),
            r@ == unlines(all.take(i as int)),
        decreases v.len() - i,
    {
        let ghost before = r@;
        r.append(&v[i]);
        r.push('\n');
        i += 1;
        assert(all.take(i as int).drop_last() == all.take(i - 1));
        assert(all.take(i as int).last() == v@[i - 1]@);
        assert(r@ == before + v@[i - 1]@ + seq!['\n']);
    }
    assert(all.take(i as int) == all);
    r
}

/// The text of a string between quotation marks, with what does not print escaped.
pub uninterp spec fn debug_form(s: Seq<char>) -> Seq<char>;

/// `format!("{:?}", s)` of a string.
#[verifier::external_body]
pub(crate) fn debug_text(s: &str) -> (r: String)
    ensures
        r@ == debug_form(s@),
{
    format!("{:?}", s)
}

/// The decimal digit of value `d`.
pub open spec fn digit(d: int) -> char {
    ('0' as int + d) as char
}

/// The decimal digits of a natural number, without leading zeros.
pub open spec fn digits(n: nat) -> Seq<char>
    decreases n,
{
    if n < 10 {
        seq![digit(n as int)]
    } else {
        digits(n / 10).push(digit((n % 10) as int))
    }
}

/// A decimal integer: a minus sign when negative, then its digits.
pub open spec fn decimal(n: int) -> Seq<char> {
    if n < 0 {
        seq!['-'] + digits((-n) as nat)
    } else {
        digits(n as nat)
    }
}

/// Writes a natural number in decimal.
pub fn nat_text(n: u128) -> (r: String)
    ensures
        r@ == digits(n as nat),
        r@ == decimal(n as int),
    decreases n,
{
    let mut r = String::new();
    if n >= 10 {
        r = nat_text(n / 10);
    }
    let d: u8 = (n % 10) as u8;
    let c: char = (48u8 + d) as char;
    r.push(c);
    assert(c == digit((n % 10) as int));
    assert(r@ == digits(n as nat));
    r
}

/// Writes an integer in decimal.
pub fn int_text(n: i64) -> (r: String)
    ensures
        r@ == decimal(n as int),
{
    if n < 0 {
        let m: i128 = n as i128;
        let mut r = String::new();
        r.push('-');
        let d = nat_text((-m) as u128);
        r.append(&d);
        assert(r@ == decimal(n as int));
        r
    } else {
        nat_text(n as u128)
    }
}

/// The value of a decimal digit, or -1 for any other character.
pub open spec fn digit_value(c: char) -> int {
    if '0' <= c <= '9' {
        c as int - '0' as int
    } else {
        -1
    }
}

/// Whether `s` holds only decimal digits.
pub open spec fn all_digits(s: Seq<char>) -> bool {
    forall|i: int| 0 <= i < s.len() ==> digit_value(#[trigger] s[i]) >= 0
}

/// The number that a sequence of digits writes.
pub open spec fn digits_value(s: Seq<char>) -> int
    decreases s.len(),
{
    if s.len() == 0 {
        0
    } else {
        digits_value(s.drop_last()) * 10 + digit_value(s.last())
    }
}

/// The 64-bit integer that a text writes: an optional sign and at least one digit, nothing else.
pub open spec fn parsed_i64(s: Seq<char>) -> Option<int> {
    let signed = s.len() > 0 && (s[0] == '-' || s[0] == '+');
    let body = if signed {
        s.drop_first()
    } else {
        s
    };
    if body.len() == 0 || !all_digits(body) {
        None
    } else {
        let n = if signed && s[0] == '-' {
            -digits_value(body)
        } else {
            digits_value(body)
        };
        if i64::MIN <= n <= i64::MAX {
            Some(n)
        } else {
            None
        }
    }
}

/// Reads a 64-bit integer.
pub fn parse_i64(s: &str) -> (r: Option<i64>)
    ensures
        (match r {
            Some(n) => parsed_i64(s@) == Some(n as int),
            None => parsed_i64(s@) is None,
        }),
{
    let v = chars_of(s);
    let signed = v.len() > 0 && (v[0] == '-' || v[0] == '+');
    let negative = signed && v[0] == '-';
    let start: usize = if signed {
        1
    } else {
        0
    };
    let ghost body = if signed {
        s@.drop_first()
    } else {
        s@
    };
    assert(body == v@.skip(start as int));
    if start == v.len() {
        return None;
    }
    let mut n: i128 = 0;
    let mut i: usize = start;
    let mut huge = false;
    assert(body.take(0) == Seq::<char>::empty());
    while i < v.len()
        invariant
            start <= i <= v.len(),
            body == v@.skip(start as int),
            forall|j: int| 0 <= j < i - start ==> digit_value(#[trigger] body[j]) >= 0,
            !huge ==> n == digits_value(body.take(i - start)),
            0 <= n <= 0x8000_0000_0000_0000,
            huge ==> digits_value(body.take(i - start)) > 0x8000_0000_0000_0000,
            signed == (v@.len() > 0 && (v@[0] == '-' || v@[0] == '+')),
            start == (if signed {
                1int
            } else {
                0int
            }),
            v@ == s@,
            body == (if signed {
                s@.drop_first()
            } else {
                s@
            }),
        decreases v.len() - i,
    {
        let c: char = v[i];
        assert(body[i - start] == c);
        if !('0' <= c && c <= '9') {
            return None;
        }
        let d: i128 = (c as u32 - 48) as i128;
        assert(body.take(i + 1 - start).drop_last() == body.take(i - start));
        assert(body.take(i + 1 - start).last() == c);
        if !huge {
            let m: i128 = n * 10 + d;
            if m > 0x8000_0000_0000_0000 {
                huge = true;
            } else {
                n = m;
            }
        }
        i += 1;
    }
    assert(body.take(i - start) == body);
    if huge {
        return None;
    }
    if negative {
        Some((-n) as i64)
    } else if n <= 0x7fff_ffff_ffff_ffff {
        Some(n as i64)
    } else {
        None
    }
}

/// The digits of a number have its value.
pub proof fn lemma_digits_roundtrip(n: nat)
    ensures
        digits(n).len() > 0,
        all_digits(digits(n)),
        digits_value(digits(n)) == n,
        digits(n)[0] != '-',
        digits(n)[0] != '+',
    decreases n,
{
    if n < 10 {
        let s = digits(n);
        assert(s.drop_last() == Seq::<char>::empty());
        assert(digits_value(s.drop_last()) == 0);
        assert(s.last() == digit(n as int));
    } else {
        lemma_digits_roundtrip(n / 10);
        let s = digits(n);
        assert(s.drop_last() == digits(n / 10));
        assert(s.last() == digit((n % 10) as int));
        assert forall|i: int| 0 <= i < s.len() implies digit_value(#[trigger] s[i]) >= 0 by {
            if i < s.len() - 1 {
                assert(s[i] == digits(n / 10)[i]);
            }
        }
    }
}

/// A 64-bit integer written in decimal reads back as itself.
pub proof fn decimal_reads_back(n: i64)
    ensures
        parsed_i64(decimal(n as int)) == Some(n as int),
{
    if n < 0 {
        lemma_digits_roundtrip((-n) as nat);
        assert(decimal(n as int).drop_first() == digits((-n) as nat));
    } else {
        lemma_digits_roundtrip(n as nat);
    }
}

/// Cutting at a separator that stands between two texts cuts each on its own.
pub proof fn lemma_pieces_concat(a: Seq<char>, b: Seq<char>, sep: char)
    ensures
        pieces(a + seq![sep] + b, sep) == pieces(a, sep) + pieces(b, sep),
    decreases b.len(),
{
    let whole = a + seq![sep] + b;
    lemma_pieces_nonempty(a, sep);
    lemma_pieces_nonempty(b, sep);
    if b.len() == 0 {
        assert(whole.drop_last() == a);
        assert(whole.last() == sep);
        assert(pieces(b, sep) == seq![Seq::<char>::empty()]);
        assert(pieces(whole, sep) == pieces(a, sep) + pieces(b, sep));
    } else {
        let d = b.drop_last();
        lemma_pieces_concat(a, d, sep);
        lemma_pieces_nonempty(d, sep);
        assert(whole.drop_last() == a + seq![sep] + d);
        assert(whole.last() == b.last());
        let before = pieces(a, sep) + pieces(d, sep);
        assert(before.last() == pieces(d, sep).last());
        assert(before.drop_last() == pieces(a, sep) + pieces(d, sep).drop_last());
        assert(pieces(whole, sep) == pieces(a, sep) + pieces(b, sep));
    }
}

/// A text without the separator is one piece.
pub proof fn lemma_one_piece(s: Seq<char>, sep: char)
    requires
        !s.contains(sep),
    ensures
        pieces(s, sep) == seq![s],
    decreases s.len(),
{
    if s.len() > 0 {
        assert(s.contains(s[s.len() - 1]));
        let d = s.drop_last();
        assert(!d.contains(sep)) by {
            if d.contains(sep) {
                let i = choose|i: int| 0 <= i < d.len() && d[i] == sep;
                assert(s[i] == sep);
            }
        }
        lemma_one_piece(d, sep);
        assert(d.push(s.last()) == s);
        assert(seq![d].drop_last().push(s) == seq![s]);
    } else {
        assert(s == Seq::<char>::empty());
    }
}

/// Joined parts that do not hold the separator come apart again.
pub proof fn lemma_joined_comes_apart(parts: Seq<Seq<char>>, sep: char, between: Seq<char>)
    requires
        between == seq![sep],
        parts.len() > 0,
        forall|i: int| 0 <= i < parts.len() ==> !(#[trigger] parts[i]).contains(sep),
    ensures
        pieces(joined(parts, between), sep) == parts,
    decreases parts.len(),
{
    if parts.len() == 1 {
        lemma_one_piece(parts[0], sep);
        assert(seq![parts[0]] == parts);
    } else {
        let d = parts.drop_last();
        assert forall|i: int| 0 <= i < d.len() implies !(#[trigger] d[i]).contains(sep) by {
            assert(d[i] == parts[i]);
        }
        lemma_joined_comes_apart(d, sep, between);
        assert(!parts[parts.len() - 1].contains(sep));
        lemma_one_piece(parts.last(), sep);
        lemma_pieces_concat(joined(d, between), parts.last(), sep);
        assert(d + seq![parts.last()] == parts);
    }
}

/// A text that is one line: no line feed in it, and no carriage return at its end.
pub open spec fn one_line(s: Seq<char>) -> bool {
    !s.contains('\n') && without_cr(s) == s
}

/// A text that ends where a line ends.
pub open spec fn closed_text(s: Seq<char>) -> bool {
    s.len() == 0 || s.last() == '\n'
}

/// A line written behind a text of whole lines is read as one line more, without the carriage return
/// that may end it.
pub proof fn lemma_line_appended(t: Seq<char>, l: Seq<char>)
    requires
        closed_text(t),
        !l.contains('\n'),
    ensures
        lines(t + l + seq!['\n']) == lines(t).push(without_cr(l)),
        closed_text(t + l + seq!['\n']),
{
    let nl = seq!['\n'];
    let e = Seq::<char>::empty();
    let f = |x: Seq<char>| without_cr(x);
    lemma_one_piece(l, '\n');
    lemma_one_piece(e, '\n');
    lemma_pieces_concat(l, e, '\n');
    assert(l + nl + e == l + nl);
    assert(pieces(l + nl, '\n') == seq![l, e]);
    if t.len() == 0 {
        assert(t + l + nl == l + nl);
        assert(seq![l, e].drop_last() == seq![l]);
        assert(seq![l].map_values(f) == seq![without_cr(l)]);
        assert(t == e);
        assert(seq![e].drop_last().map_values(f) == Seq::<Seq<char>>::empty());
        assert(lines(t) == Seq::<Seq<char>>::empty());
        assert(lines(t + l + nl) == lines(t).push(without_cr(l)));
    } else {
        let b = t.drop_last();
        assert(t == b + nl);
        lemma_pieces_concat(b, l + nl, '\n');
        assert(b + nl + (l + nl) == t + l + nl);
        lemma_pieces_concat(b, e, '\n');
        assert(b + nl + e == t);
        lemma_pieces_nonempty(b, '\n');
        let p = pieces(b, '\n');
        assert(pieces(t, '\n') == p + seq![e]);
        assert(pieces(t + l + nl, '\n') == p + seq![l, e]);
        assert((p + seq![e]).drop_last() == p);
        assert((p + seq![l, e]).drop_last() == p.push(l));
        assert(p.push(l).map_values(f) == p.map_values(f).push(without_cr(l)));
        assert(lines(t) == p.map_values(f));
        assert(lines(t + l + nl) == lines(t).push(without_cr(l)));
    }
    assert((t + l + nl).last() == '\n');
}

/// Lines written behind a text of whole lines are read back as they are.
pub proof fn lemma_lines_appended(t: Seq<char>, ls: Seq<Seq<char>>)
    requires
        closed_text(t),
        forall|i: int| 0 <= i < ls.len() ==> one_line(#[trigger] ls[i]),
    ensures
        lines(t + unlines(ls)) == lines(t) + ls,
        closed_text(t + unlines(ls)),
    decreases ls.len(),
{
    if ls.len() == 0 {
        assert(t + unlines(ls) == t);
        assert(lines(t) + ls == lines(t));
    } else {
        let d = ls.drop_last();
        assert forall|i: int| 0 <= i < d.len() implies one_line(#[trigger] d[i]) by {
            assert(d[i] == ls[i]);
        }
        lemma_lines_appended(t, d);
        assert(one_line(ls[ls.len() - 1]));
        lemma_line_appended(t + unlines(d), ls.last());
        assert(t + unlines(d) + ls.last() + seq!['\n'] == t + unlines(ls));
        assert((lines(t) + d).push(ls.last()) == lines(t) + ls);
    }
}

/// Lines written behind a text of whole lines are read back without their carriage returns.
pub proof fn lemma_lines_read_back(t: Seq<char>, ls: Seq<Seq<char>>)
    requires
        closed_text(t),
        forall|i: int| 0 <= i < ls.len() ==> !(#[trigger] ls[i]).contains('\n'),
    ensures
        lines(t + unlines(ls)) == lines(t) + ls.map_values(|l: Seq<char>| without_cr(l)),
        closed_text(t + unlines(ls)),
    decreases ls.len(),
{
    let f = |l: Seq<char>| without_cr(l);
    if ls.len() == 0 {
        assert(t + unlines(ls) == t);
        assert(lines(t) + ls.map_values(f) == lines(t));
    } else {
        let d = ls.drop_last();
        assert forall|i: int| 0 <= i < d.len() implies !(#[trigger] d[i]).contains('\n') by {
            assert(d[i] == ls[i]);
        }
        lemma_lines_read_back(t, d);
        assert(!ls[ls.len() - 1].contains('\n'));
        lemma_line_appended(t + unlines(d), ls.last());
        assert(t + unlines(d) + ls.last() + seq!['\n'] == t + unlines(ls));
        assert((lines(t) + d.map_values(f)).push(without_cr(ls.last())) == lines(t) + ls.map_values(f));
    }
}

/// A text behind a text of whole lines adds its own lines.
pub proof fn lemma_lines_concat(t: Seq<char>, u: Seq<char>)
    requires
        closed_text(t),
    ensures
        lines(t + u) == lines(t) + lines(u),
{
    let e = Seq::<char>::empty();
    let nl = seq!['\n'];
    let f = |x: Seq<char>| without_cr(x);
    lemma_one_piece(e, '\n');
    if t.len() == 0 {
        assert(t == e);
        assert(t + u == u);
        assert(seq![e].drop_last().map_values(f) == Seq::<Seq<char>>::empty());
        assert(lines(t) + lines(u) == lines(u));
    } else {
        let b = t.drop_last();
        assert(t == b + nl);
        assert(b + nl + u == t + u);
        lemma_pieces_concat(b, u, '\n');
        assert(b + nl + e == t);
        lemma_pieces_concat(b, e, '\n');
        lemma_pieces_nonempty(b, '\n');
        lemma_pieces_nonempty(u, '\n');
        let p = pieces(b, '\n');
        let q = pieces(u, '\n');
        assert((p + seq![e]).drop_last() == p);
        assert((p + q).drop_last() == p + q.drop_last());
        assert((p + q.drop_last()).map_values(f) == p.map_values(f) + q.drop_last().map_values(f));
        assert(lines(t) == p.map_values(f));
        assert(lines(t + u) == lines(t) + lines(u));
    }
}

/// Lines written behind others.
pub proof fn lemma_unlines_concat(a: Seq<Seq<char>>, b: Seq<Seq<char>>)
    ensures
        unlines(a + b) == unlines(a) + unlines(b),
    decreases b.len(),
{
    if b.len() == 0 {
        assert(a + b == a);
        assert(unlines(a) + unlines(b) == unlines(a));
    } else {
        lemma_unlines_concat(a, b.drop_last());
        assert((a + b).drop_last() == a + b.drop_last());
        assert((a + b).last() == b.last());
        assert(unlines(a) + unlines(b.drop_last()) + b.last() + seq!['\n'] == unlines(a) + unlines(b));
    }
}

/// A character that stands in neither of two texts does not stand in both together.
pub proof fn lemma_neither_contains(a: Seq<char>, b: Seq<char>, c: char)
    requires
        !a.contains(c),
        !b.contains(c),
    ensures
        !(a + b).contains(c),
{
    if (a + b).contains(c) {
        let i = (a + b).index_of(c);
        if i < a.len() {
            assert(a[i] == c);
        } else {
            assert(b[i - a.len()] == c);
        }
    }
}

/// A character that is replaced by a text without it is gone.
pub proof fn lemma_replaced_lacks(s: Seq<char>, c: char, by: Seq<char>)
    requires
        !by.contains(c),
    ensures
        !replaced(s, c, by).contains(c),
    decreases s.len(),
{
    if s.len() > 0 {
        lemma_replaced_lacks(s.drop_last(), c, by);
        lemma_neither_contains(
            replaced(s.drop_last(), c, by),
            if s.last() == c {
                by
            } else {
                seq![s.last()]
            },
            c,
        );
    }
}

/// Three of one character in a row do not outlive being replaced by a text without that character.
pub proof fn lemma_replaced_text_is_gone(s: Seq<char>, c: char, by: Seq<char>)
    requires
        !by.contains(c),
        by.len() > 0,
    ensures
        !occurs(replaced_text(s, seq![c, c, c], by), seq![c, c, c]),
    decreases s.len(),
{
    let p = seq![c, c, c];
    let r = replaced_text(s, p, by);
    if s.len() >= 3 {
        assert(by.contains(by[0]));
        let (head, tail) = if at(s, p, 0) {
            (by, s.skip(3))
        } else {
            (seq![s[0]], s.drop_first())
        };
        lemma_replaced_text_is_gone(tail, c, by);
        let rest = replaced_text(tail, p, by);
        assert(r == head + rest);
        assert forall|i: int| !at(r, p, i) by {
            if at(r, p, i) {
                assert(r.subrange(i, i + 3)[0] == r[i] && r.subrange(i, i + 3)[1] == r[i + 1]
                    && r.subrange(i, i + 3)[2] == r[i + 2]);
                if i >= head.len() {
                    assert(rest.subrange(i - head.len(), i - head.len() + 3) == p);
                    assert(at(rest, p, i - head.len()));
                } else if at(s, p, 0) {
                    assert(head.contains(head[i]));
                } else {
                    assert(i == 0 && s[0] == c && rest[0] == c && rest[1] == c);
                    reveal_with_fuel(replaced_text, 3);
                    assert(tail[0] == s[1] && tail[1] == s[2]);
                    assert(rest[0] == s[1]);
                    if tail.len() >= 3 {
                        assert(rest == seq![s[1]] + replaced_text(tail.drop_first(), p, by));
                        assert(tail.drop_first()[0] == s[2]);
                    }
                    assert(s[2] == c);
                    assert(s.subrange(0, 3) == p);
                }
            }
        }
    }
}

/// Every piece of a text stands in it.
pub proof fn lemma_pieces_stand(s: Seq<char>, sep: char)
    ensures
        forall|i: int| 0 <= i < pieces(s, sep).len() ==> occurs(s, #[trigger] pieces(s, sep)[i]),
        at(s, pieces(s, sep).last(), s.len() - pieces(s, sep).last().len()),
    decreases s.len(),
{
    let p = pieces(s, sep);
    lemma_pieces_nonempty(s, sep);
    if s.len() == 0 {
        assert(s.subrange(0, 0) == p[0]);
        assert(at(s, p[0], 0));
    } else {
        let d = s.drop_last();
        let q = pieces(d, sep);
        lemma_pieces_stand(d, sep);
        lemma_pieces_nonempty(d, sep);
        assert forall|x: Seq<char>| occurs(d, x) implies occurs(s, x) by {
            let j = choose|j: int| at(d, x, j);
            assert(s.subrange(j, j + x.len()) == d.subrange(j, j + x.len()));
            assert(at(s, x, j));
        }
        let l = p.last();
        let j = s.len() - l.len();
        if s.last() == sep {
            assert(s.subrange(j, j + l.len()) == l);
        } else {
            assert(l == q.last().push(s.last()));
            assert(s.subrange(j, s.len() as int) == d.subrange(j, d.len() as int).push(s.last()));
        }
        assert(at(s, l, j));
        assert forall|i: int| 0 <= i < p.len() implies occurs(s, #[trigger] p[i]) by {
            if i < p.len() - 1 {
                assert(p[i] == q[i]);
            }
        }
    }
}

/// Where a piece stands: between separators or ends of the text.
pub proof fn lemma_piece_place(s: Seq<char>, sep: char, i: int) -> (j: int)
    requires
        0 <= i < pieces(s, sep).len(),
    ensures
        at(s, pieces(s, sep)[i], j),
        j == 0 || s[j - 1] == sep,
        j + pieces(s, sep)[i].len() == s.len() || s[j + pieces(s, sep)[i].len()] == sep,
        i < pieces(s, sep).len() - 1 ==> j + pieces(s, sep)[i].len() < s.len(),
        i == pieces(s, sep).len() - 1 ==> j + pieces(s, sep)[i].len() == s.len(),
    decreases s.len(),
{
    let p = pieces(s, sep);
    lemma_pieces_nonempty(s, sep);
    if s.len() == 0 {
        assert(s.subrange(0, 0) == p[0]);
        0
    } else {
        let d = s.drop_last();
        let q = pieces(d, sep);
        lemma_pieces_nonempty(d, sep);
        if i < q.len() - 1 || (i == q.len() - 1 && s.last() == sep) {
            let j = lemma_piece_place(d, sep, i);
            assert(p[i] == q[i]);
            assert(s.subrange(j, j + p[i].len()) == d.subrange(j, j + p[i].len()));
            j
        } else if s.last() == sep {
            let j = s.len() as int;
            assert(s.subrange(j, j) == p[i]);
            j
        } else {
            let j = lemma_piece_place(d, sep, q.len() - 1);
            assert(p[i] == q.last().push(s.last()));
            assert(s.subrange(j, s.len() as int) == d.subrange(j, d.len() as int).push(s.last()));
            j
        }
    }
}

/// What stands between separators or ends of a text, and holds no separator, is one of its pieces.
pub proof fn lemma_place_is_piece(s: Seq<char>, sep: char, j: int, w: Seq<char>)
    requires
        at(s, w, j),
        !w.contains(sep),
        j == 0 || s[j - 1] == sep,
        j + w.len() == s.len() || s[j + w.len()] == sep,
    ensures
        pieces(s, sep).contains(w),
{
    let rest = s.skip(j);
    let n = w.len() as int;
    lemma_one_piece(w, sep);
    if j + n == s.len() {
        assert(rest == w);
        assert(pieces(rest, sep)[0] == w);
    } else {
        let tail = rest.skip(n + 1);
        assert(rest == w + seq![sep] + tail);
        lemma_pieces_concat(w, tail, sep);
        assert(pieces(rest, sep)[0] == w);
    }
    if j == 0 {
        assert(rest == s);
        assert(pieces(s, sep)[0] == w);
    } else {
        let head = s.take(j - 1);
        assert(s == head + seq![sep] + rest);
        lemma_pieces_concat(head, rest, sep);
        lemma_pieces_nonempty(rest, sep);
        assert(pieces(s, sep)[pieces(head, sep).len() as int] == pieces(rest, sep)[0]);
    }
}

/// Where the piece around a place starts.
pub proof fn lemma_start_of_piece(s: Seq<char>, sep: char, i: int) -> (l: int)
    requires
        0 <= i <= s.len(),
    ensures
        0 <= l <= i,
        l == 0 || s[l - 1] == sep,
        forall|x: int| l <= x < i ==> s[x] != sep,
    decreases i,
{
    if i == 0 || s[i - 1] == sep {
        i
    } else {
        lemma_start_of_piece(s, sep, i - 1)
    }
}

/// Where the piece around a place ends.
pub proof fn lemma_end_of_piece(s: Seq<char>, sep: char, i: int) -> (r: int)
    requires
        0 <= i <= s.len(),
    ensures
        i <= r <= s.len(),
        r == s.len() || s[r] == sep,
        forall|x: int| i <= x < r ==> s[x] != sep,
    decreases s.len() - i,
{
    if i == s.len() || s[i] == sep {
        i
    } else {
        lemma_end_of_piece(s, sep, i + 1)
    }
}

/// White space in front of a text does not outlive trimming.
pub proof fn lemma_trim_behind_blank(c: char, s: Seq<char>)
    requires
        white(c),
    ensures
        trimmed(seq![c] + s) == trimmed(s),
{
    assert((seq![c] + s).drop_first() == s);
}

/// Items that are trimmed, not empty and free of commas.
pub open spec fn plain_items(items: Seq<Seq<char>>) -> bool {
    forall|i: int|
        0 <= i < items.len() ==> trimmed(#[trigger] items[i]) == items[i] && items[i].len() > 0
            && !items[i].contains(',')
}

/// A comma-separated list reads back as the items it was joined from.
pub proof fn a_joined_list_reads_back(items: Seq<Seq<char>>)
    requires
        plain_items(items),
        items.len() > 0,
    ensures
        listed(joined(items, ", "@)) == items,
    decreases items.len(),
{
    reveal_strlit(", ");
    assert(", "@ == seq![','] + seq![' ']);
    let last = items[items.len() - 1];
    assert(plain_items(items) && trimmed(last) == last && !last.contains(','));
    if items.len() == 1 {
        lemma_one_piece(last, ',');
        assert(joined(items, ", "@) == last);
        assert(seq![last].drop_last() == Seq::<Seq<char>>::empty());
        reveal_with_fuel(unblank, 2);
        assert(unblank(seq![last]) == seq![last]);
        assert(items == seq![last]);
    } else {
        let d = items.drop_last();
        assert forall|i: int| 0 <= i < d.len() implies trimmed(#[trigger] d[i]) == d[i] && d[i].len() > 0
            && !d[i].contains(',') by {
            assert(d[i] == items[i]);
        }
        a_joined_list_reads_back(d);
        let a = joined(d, ", "@);
        let spaced = seq![' '] + last;
        assert(a + ", "@ + last == a + seq![','] + spaced);
        assert(!spaced.contains(',')) by {
            if spaced.contains(',') {
                let i = choose|i: int| 0 <= i < spaced.len() && spaced[i] == ',';
                assert(last[i - 1] == ',');
            }
        }
        lemma_pieces_concat(a, spaced, ',');
        lemma_one_piece(spaced, ',');
        let p = pieces(a, ',') + seq![spaced];
        assert(p.drop_last() == pieces(a, ','));
        assert(p.last() == spaced);
        lemma_trim_behind_blank(' ', last);
        assert(unblank(p) == d.push(last));
        assert(d.push(last) == items);
    }
}

/// A decimal integer holds no white space.
pub proof fn lemma_decimal_is_trimmed(n: int)
    ensures
        trimmed(decimal(n)) == decimal(n),
        !decimal(n).contains('\n'),
        !decimal(n).contains('\r'),
        decimal(n).len() > 0,
{
    let m = if n < 0 {
        (-n) as nat
    } else {
        n as nat
    };
    lemma_digits_roundtrip(m);
    let s = decimal(n);
    assert forall|i: int| 0 <= i < s.len() implies !white(#[trigger] s[i]) && s[i] != '\n' && s[i] != '\r' by {
        if n < 0 {
            if i > 0 {
                assert(s[i] == digits(m)[i - 1]);
            }
        }
        assert(s[i] == '-' || digit_value(s[i]) >= 0);
    }
    assert(!white(s[0]) && !white(s[s.len() - 1]));
}

/// Every part of a joined text stands in it as it is.
pub proof fn lemma_joined_holds(parts: Seq<Seq<char>>, sep: Seq<char>, i: int) -> (j: int)
    requires
        0 <= i < parts.len(),
    ensures
        at(joined(parts, sep), parts[i], j),
    decreases parts.len(),
{
    let s = joined(parts, sep);
    if parts.len() == 1 {
        assert(s.subrange(0, s.len() as int) == parts[i]);
        0
    } else {
        let d = parts.drop_last();
        if i < d.len() {
            let j = lemma_joined_holds(d, sep, i);
            assert(d[i] == parts[i]);
            assert(s.subrange(j, j + parts[i].len()) == joined(d, sep).subrange(j, j + parts[i].len()));
            j
        } else {
            let j = (joined(d, sep).len() + sep.len()) as int;
            assert(s.subrange(j, j + parts[i].len()) == parts[i]);
            j
        }
    }
}

/// `s` with a blank for each of its line feeds.
pub open spec fn blanked(s: Seq<char>) -> Seq<char> {
    s.map_values(
        |c: char|
            if c == '\n' {
                ' '
            } else {
                c
            },
    )
}

/// With line feeds replaced by blanks a text keeps its length and every other character in its place.
pub proof fn line_feeds_become_blanks(s: Seq<char>)
    ensures
        replaced(s, '\n', " "@) == blanked(s),
    decreases s.len(),
{
    reveal_strlit(" ");
    if s.len() > 0 {
        line_feeds_become_blanks(s.drop_last());
        let last = seq![if s.last() == '\n' {
            ' '
        } else {
            s.last()
        }];
        assert(s.last() == '\n' ==> " "@ == last);
        assert(blanked(s) == blanked(s.drop_last()) + last);
    }
}

/// What trimming leaves: the text between its first and its last character that is no white space.
pub proof fn trimming_takes_the_ends_alone(s: Seq<char>) -> (ends: (int, int))
    ensures
        0 <= ends.0 <= ends.1 <= s.len(),
        trimmed(s) == s.subrange(ends.0, ends.1),
        forall|i: int| 0 <= i < ends.0 || ends.1 <= i < s.len() ==> white(#[trigger] s[i]),
        ends.0 < ends.1 ==> !white(s[ends.0]) && !white(s[ends.1 - 1]),
    decreases s.len(),
{
    if s.len() > 0 && white(s[0]) {
        let d = s.drop_first();
        let e = trimming_takes_the_ends_alone(d);
        let ends = (e.0 + 1, e.1 + 1);
        assert(d.subrange(e.0, e.1) == s.subrange(ends.0, ends.1));
        assert forall|i: int| 0 <= i < ends.0 || ends.1 <= i < s.len() implies white(#[trigger] s[i]) by {
            if i > 0 {
                assert(white(d[i - 1]));
            }
        }
        assert(trimmed(s) == trimmed(d));
        ends
    } else {
        let n = lemma_trimmed_end_at(s);
        if s.len() > 0 {
            lemma_trimmed_end(s);
        }
        (0, n)
    }
}

proof fn lemma_trimmed_end_at(s: Seq<char>) -> (n: int)
    ensures
        0 <= n <= s.len(),
        trimmed_end(s) == s.subrange(0, n),
        forall|i: int| n <= i < s.len() ==> white(#[trigger] s[i]),
        n > 0 ==> !white(s[n - 1]),
    decreases s.len(),
{
    if s.len() > 0 && white(s.last()) {
        let d = s.drop_last();
        let n = lemma_trimmed_end_at(d);
        assert(d.subrange(0, n) == s.subrange(0, n));
        assert forall|i: int| n <= i < s.len() implies white(#[trigger] s[i]) by {
            if i < d.len() {
                assert(white(d[i]));
            }
        }
        n
    } else {
        assert(s.subrange(0, s.len() as int) == s);
        s.len() as int
    }
}

/// A text is blank exactly where it holds nothing but white space.
pub proof fn a_blank_text_is_all_white(s: Seq<char>)
    ensures
        blank(s) <==> forall|i: int| 0 <= i < s.len() ==> white(#[trigger] s[i]),
{
    let e = trimming_takes_the_ends_alone(s);
    if blank(s) {
        assert(e.0 == e.1);
    } else {
        assert(!white(s[e.0]));
    }
}

/// Lines that hold no line feed are the first pieces of what is written of them.
pub proof fn lemma_pieces_unlines(ls: Seq<Seq<char>>, rest: Seq<char>)
    requires
        forall|i: int| 0 <= i < ls.len() ==> !(#[trigger] ls[i]).contains('\n'),
    ensures
        pieces(unlines(ls) + rest, '\n') == ls + pieces(rest, '\n'),
    decreases ls.len(),
{
    if ls.len() == 0 {
        assert(unlines(ls) + rest == rest);
        assert(ls + pieces(rest, '\n') == pieces(rest, '\n'));
    } else {
        let d = ls.drop_last();
        let l = ls[ls.len() - 1];
        assert(!l.contains('\n'));
        assert forall|i: int| 0 <= i < d.len() implies !(#[trigger] d[i]).contains('\n') by {
            assert(d[i] == ls[i]);
        }
        let more = l + seq!['\n'] + rest;
        lemma_pieces_unlines(d, more);
        lemma_pieces_concat(l, rest, '\n');
        lemma_one_piece(l, '\n');
        assert(unlines(ls) + rest == unlines(d) + more);
        assert(d + (seq![l] + pieces(rest, '\n')) == ls + pieces(rest, '\n'));
    }
}

/// A merge keeps the first list as it is and puts behind it, in their order and each once, the members
/// of the second that are not in it yet.
pub proof fn a_merge_adds_what_is_new(a: Seq<Seq<char>>, b: Seq<Seq<char>>, x: Seq<char>)
    ensures
        a.is_prefix_of(merged(a, b)),
        merged(a, b).contains(x) <==> a.contains(x) || b.contains(x),
        a.no_duplicates() ==> merged(a, b).no_duplicates(),
        a.contains(x) || b.contains(x) ==> merged(a, b.push(x)) == merged(a, b),
        !a.contains(x) && !b.contains(x) ==> merged(a, b.push(x)) == merged(a, b).push(x),
        merged(a, Seq::empty()) == a,
    decreases b.len(),
{
    let m = merged(a, b);
    if b.len() == 0 {
        assert(a.take(a.len() as int) == a);
    } else {
        let d = b.drop_last();
        let r = merged(a, d);
        a_merge_adds_what_is_new(a, d, x);
        a_merge_adds_what_is_new(a, d, b.last());
        assert(b.contains(b[b.len() - 1]));
        if m.len() > r.len() {
            assert(m.take(a.len() as int) == r.take(a.len() as int));
            assert(m == r.push(b.last()));
            if m.contains(x) && x != b.last() {
                let i = choose|i: int| 0 <= i < m.len() && m[i] == x;
                assert(r[i] == x);
            }
            if r.contains(x) {
                let i = choose|i: int| 0 <= i < r.len() && r[i] == x;
                assert(m[i] == x);
            }
            assert(m[m.len() - 1] == b.last());
        }
        if b.contains(x) && x != b.last() {
            let i = choose|i: int| 0 <= i < b.len() && b[i] == x;
            assert(d[i] == x);
        }
        if d.contains(x) {
            let i = choose|i: int| 0 <= i < d.len() && d[i] == x;
            assert(b[i] == x);
        }
    }
    assert(b.push(x).drop_last() == b);
}

/// How many bytes a text takes in UTF-8.
pub open spec fn bytes_of(s: Seq<char>) -> int
    decreases s.len(),
{
    if s.len() == 0 {
        0
    } else {
        bytes_of(s.drop_last()) + width(s.last())
    }
}

proof fn lemma_bytes_from_the_front(s: Seq<char>)
    requires
        s.len() > 0,
    ensures
        bytes_of(s) == width(s[0]) + bytes_of(s.drop_first()),
    decreases s.len(),
{
    let d = s.drop_first();
    if s.len() == 1 {
        assert(bytes_of(s.drop_last()) == 0);
        assert(bytes_of(d) == 0);
    } else {
        lemma_bytes_from_the_front(s.drop_last());
        assert(s.drop_last().drop_first() == d.drop_last());
        assert(d.last() == s.last());
        assert(s.drop_last()[0] == s[0]);
    }
}

/// What fits is the longest start that takes no more than so many bytes: one character more would take
/// too many.
pub proof fn what_fits_is_the_longest_start(s: Seq<char>, max: int)
    requires
        max >= 0,
    ensures
        fitting(s, max).is_prefix_of(s),
        bytes_of(fitting(s, max)) <= max,
        fitting(s, max).len() < s.len() ==> bytes_of(s.take(fitting(s, max).len() as int + 1)) > max,
        bytes_of(s) <= max ==> fitting(s, max) == s,
    decreases s.len(),
{
    let f = fitting(s, max);
    if s.len() == 0 {
        assert(f == s);
        assert(s.take(0) == s);
    } else if width(s[0]) > max {
        assert(s.take(0) == f);
        let one = s.take(1);
        assert(bytes_of(one.drop_last()) == 0);
        assert(bytes_of(one) == width(s[0]));
        lemma_bytes_from_the_front(s);
        lemma_bytes_not_negative(s.drop_first());
    } else {
        let d = s.drop_first();
        let g = fitting(d, max - width(s[0]));
        what_fits_is_the_longest_start(d, max - width(s[0]));
        lemma_bytes_from_the_front(s);
        lemma_bytes_from_the_front(f);
        assert(f.drop_first() == g);
        assert(f == s.take(f.len() as int)) by {
            assert(g == d.take(g.len() as int));
        }
        if f.len() < s.len() {
            let t = s.take(f.len() as int + 1);
            lemma_bytes_from_the_front(t);
            assert(t.drop_first() == d.take(g.len() as int + 1));
        }
        if bytes_of(s) <= max {
            assert(f == s);
        }
    }
}

proof fn lemma_bytes_not_negative(s: Seq<char>)
    ensures
        bytes_of(s) >= 0,
    decreases s.len(),
{
    if s.len() > 0 {
        lemma_bytes_not_negative(s.drop_last());
    }
}

/// Cutting loses nothing: the pieces with the separator between them are the text again, and none of
/// them holds it.
pub proof fn cutting_loses_nothing(s: Seq<char>, sep: char)
    ensures
        pieces(s, sep).len() > 0,
        joined(pieces(s, sep), seq![sep]) == s,
        forall|i: int| 0 <= i < pieces(s, sep).len() ==> !(#[trigger] pieces(s, sep)[i]).contains(sep),
    decreases s.len(),
{
    let p = pieces(s, sep);
    let one = seq![sep];
    lemma_pieces_nonempty(s, sep);
    if s.len() == 0 {
        assert(p == seq![Seq::<char>::empty()]);
        assert(joined(p, one) == p[0]);
        assert(p[0] == s);
    } else {
        let d = s.drop_last();
        let q = pieces(d, sep);
        cutting_loses_nothing(d, sep);
        lemma_pieces_nonempty(d, sep);
        assert(s == d.push(s.last()));
        if s.last() == sep {
            assert(p.drop_last() == q);
            assert(joined(p, one) == joined(q, one) + one + Seq::<char>::empty());
            assert(joined(p, one) == s);
        } else {
            assert(p.drop_last() == q.drop_last());
            assert(p.last() == q.last().push(s.last()));
            if q.len() == 1 {
                assert(joined(p, one) == p[0]);
                assert(joined(q, one) == q[0]);
                assert(p[0] == s);
            } else {
                let h = joined(q.drop_last(), one) + one;
                assert(joined(q, one) == h + q.last());
                assert(joined(p, one) == h + p.last());
                assert(h + q.last().push(s.last()) == (h + q.last()).push(s.last()));
            }
            assert(joined(p, one) == s);
        }
        assert forall|i: int| 0 <= i < p.len() implies !(#[trigger] p[i]).contains(sep) by {
            if i < p.len() - 1 {
                assert(p[i] == q[i]);
            } else if s.last() != sep {
                let l = q[q.len() - 1];
                assert(!l.contains(sep));
                if p[i].contains(sep) {
                    let k = choose|k: int| 0 <= k < p[i].len() && p[i][k] == sep;
                    assert(l[k] == sep);
                }
            }
        }
    }
}

/// Joined parts stand one behind the other, with the separator between neighbours and nowhere else.
pub proof fn a_separator_stands_between_neighbours(parts: Seq<Seq<char>>, x: Seq<char>, sep: Seq<char>)
    ensures
        joined(Seq::empty(), sep) == Seq::<char>::empty(),
        joined(seq![x], sep) == x,
        parts.len() > 0 ==> joined(parts.push(x), sep) == joined(parts, sep) + sep + x,
{
    assert(parts.push(x).drop_last() == parts);
}

/// A text without a line feed is one line, and none where it is empty; a line feed in front of a text
/// ends the line before it, with the carriage return that stands there.
pub proof fn a_line_ends_at_its_feed(s: Seq<char>, t: Seq<char>)
    requires
        !s.contains('\n'),
    ensures
        lines(Seq::empty()) == Seq::<Seq<char>>::empty(),
        s.len() > 0 ==> lines(s) == seq![s],
        lines(s + seq!['\n'] + t) == seq![if s.len() > 0 && s.last() == '\r' {
            s.drop_last()
        } else {
            s
        }] + lines(t),
{
    let none = Seq::<char>::empty();
    lemma_one_piece(s, '\n');
    lemma_one_piece(none, '\n');
    assert(seq![s].drop_last() == Seq::<Seq<char>>::empty());
    assert(seq![none].drop_last() == Seq::<Seq<char>>::empty());
    assert(lines(none) == Seq::<Seq<char>>::empty());
    if s.len() > 0 {
        assert(lines(s) == seq![s]);
    }
    let u = s + seq!['\n'];
    assert(u + t == s + seq!['\n'] + t);
    lemma_lines_concat(u, t);
    lemma_pieces_concat(s, none, '\n');
    assert(u + none == u);
    assert(seq![s] + seq![none] == seq![s, none]);
    assert(seq![s, none].drop_last() == seq![s]);
    assert(lines(u) == seq![without_cr(s)]);
}

/// A list without a comma is its one item without the blanks around it, or no item where it is blank; a
/// comma parts a list in two.
pub proof fn a_comma_parts_a_list(a: Seq<char>, b: Seq<char>)
    ensures
        listed(a + seq![','] + b) == listed(a) + listed(b),
        !a.contains(',') && !blank(a) ==> listed(a) == seq![trimmed(a)],
        !a.contains(',') && blank(a) ==> listed(a).len() == 0,
{
    lemma_pieces_concat(a, b, ',');
    lemma_unblank_concat(pieces(a, ','), pieces(b, ','));
    if !a.contains(',') {
        lemma_one_piece(a, ',');
        assert(seq![a].drop_last() == Seq::<Seq<char>>::empty());
        assert(unblank(seq![a].drop_last()) == Seq::<Seq<char>>::empty());
        if !blank(a) {
            assert(unblank(seq![a]) == seq![trimmed(a)]);
        }
    }
}

proof fn lemma_unblank_concat(a: Seq<Seq<char>>, b: Seq<Seq<char>>)
    ensures
        unblank(a + b) == unblank(a) + unblank(b),
    decreases b.len(),
{
    if b.len() == 0 {
        assert(a + b == a);
        assert(unblank(a) + unblank(b) == unblank(a));
    } else {
        lemma_unblank_concat(a, b.drop_last());
        assert((a + b).drop_last() == a + b.drop_last());
        assert((a + b).last() == b.last());
        assert(unblank(a + b) == unblank(a) + unblank(b));
    }
}

/// Made small, an ASCII capital is the letter that stands thirty-two places behind it, and every other
/// character stays as it is.
pub proof fn only_capitals_are_made_small(s: Seq<char>, i: int)
    requires
        0 <= i < s.len(),
    ensures
        lowered(s).len() == s.len(),
        'A' <= s[i] <= 'Z' ==> lowered(s)[i] as u32 == s[i] as u32 + 32,
        !('A' <= s[i] <= 'Z') ==> lowered(s)[i] == s[i],
{
}

/// A number is written digit by digit, the last one last, with a minus in front where it is negative.
pub proof fn a_number_is_written_digit_by_digit(n: int, d: int)
    requires
        0 <= d <= 9,
    ensures
        decimal(d).len() == 1,
        decimal(d)[0] as int == '0' as int + d,
        n > 0 ==> decimal(n * 10 + d) == decimal(n) + decimal(d),
        n > 0 ==> decimal(-n) == seq!['-'] + decimal(n),
{
    if n > 0 {
        let m = (n * 10 + d) as nat;
        assert(m / 10 == n && m % 10 == d);
        assert(digits(m) == digits(n as nat).push(digit(d)));
        assert(decimal(n * 10 + d) == decimal(n) + decimal(d));
    }
}

/// A number is read with or without a sign, and only where every other character is a digit and it fits.
pub proof fn a_number_is_read_with_its_sign(n: int, s: Seq<char>, i: int)
    ensures
        0 <= n <= i64::MAX ==> parsed_i64(decimal(n)) == Some(n),
        0 <= n <= i64::MAX ==> parsed_i64(seq!['+'] + decimal(n)) == Some(n),
        0 <= n <= i64::MAX ==> parsed_i64(seq!['-'] + decimal(n)) == Some(-n),
        n > i64::MAX ==> parsed_i64(decimal(n)) is None,
        parsed_i64(Seq::empty()) is None,
        parsed_i64(seq!['-']) is None && parsed_i64(seq!['+']) is None,
        0 < i < s.len() && !('0' <= s[i] <= '9') ==> parsed_i64(s) is None,
        s.len() > 0 && !('0' <= s[0] <= '9') && s[0] != '-' && s[0] != '+' ==> parsed_i64(s) is None,
{
    if n >= 0 {
        lemma_digits_roundtrip(n as nat);
        let d = digits(n as nat);
        let p = seq!['+'] + d;
        let m = seq!['-'] + d;
        assert(p.drop_first() == d && m.drop_first() == d);
        lemma_digits_start(n as nat);
    }
    if 0 < i < s.len() && !('0' <= s[i] <= '9') {
        assert(digit_value(s[i]) == -1);
        if s[0] == '-' || s[0] == '+' {
            assert(s.drop_first()[i - 1] == s[i]);
        }
    }
    if s.len() > 0 && !('0' <= s[0] <= '9') && s[0] != '-' && s[0] != '+' {
        assert(digit_value(s[0]) == -1);
    }
}

proof fn lemma_digits_start(n: nat)
    ensures
        digits(n).len() > 0,
        '0' <= digits(n)[0] <= '9',
        all_digits(digits(n)),
    decreases n,
{
    if n >= 10 {
        lemma_digits_start(n / 10);
        let d = digits(n / 10);
        let e = digits(n);
        assert(e[0] == d[0]);
        assert forall|i: int| 0 <= i < e.len() implies digit_value(#[trigger] e[i]) >= 0 by {
            if i < d.len() {
                assert(e[i] == d[i]);
                assert(digit_value(d[i]) >= 0);
            }
        }
    }
}

/// Two hexadecimal digits write a byte, the larger place first.
pub proof fn a_byte_is_two_hexadecimal_digits(b: u8)
    ensures
        hex(b).len() == 2,
        b < 10 ==> hex(b)[0] == '0' && hex(b)[1] as int == '0' as int + b,
        10 <= b < 16 ==> hex(b)[0] == '0' && hex(b)[1] as int == 'a' as int + b - 10,
        b >= 160 ==> hex(b)[0] as int == 'a' as int + b / 16 - 10,
        16 <= b < 160 ==> hex(b)[0] as int == '0' as int + b / 16,
        hex(b)[1] == hex((b % 16) as u8)[1],
{
}

/// A replaced character stands for itself wherever it occurs and for no other: in each place stands what
/// stood there, or the character it is replaced by.
pub proof fn a_replaced_character_keeps_its_place(s: Seq<char>, c: char, by: char)
    ensures
        replaced(s, c, seq![by]) == s.map_values(
            |x: char|
                if x == c {
                    by
                } else {
                    x
                },
        ),
    decreases s.len(),
{
    let f = |x: char|
        if x == c {
            by
        } else {
            x
        };
    if s.len() > 0 {
        a_replaced_character_keeps_its_place(s.drop_last(), c, by);
        assert(s.map_values(f) == s.drop_last().map_values(f).push(f(s.last())));
        assert(replaced(s, c, seq![by]) == s.map_values(f));
    } else {
        assert(s.map_values(f) == s);
    }
}

/// A replaced text is gone from where it first stands, and the search goes on behind it; a text in which
/// it does not occur stays as it is.
pub proof fn a_replaced_text_is_replaced_from_the_front(
    s: Seq<char>,
    a: Seq<char>,
    p: Seq<char>,
    b: Seq<char>,
    by: Seq<char>,
)
    requires
        p.len() > 0,
        forall|i: int| 0 <= i < a.len() ==> !#[trigger] at(a + p + b, p, i),
    ensures
        replaced_text(a + p + b, p, by) == a + by + replaced_text(b, p, by),
        !occurs(s, p) ==> replaced_text(s, p, by) == s,
    decreases a.len() + s.len(),
{
    let t = a + p + b;
    if a.len() == 0 {
        assert(t.subrange(0, p.len() as int) == p);
        assert(t.skip(p.len() as int) == b);
        assert(at(t, p, 0));
    } else {
        let d = a.drop_first();
        assert(!at(t, p, 0));
        assert(t.drop_first() == d + p + b);
        assert forall|i: int| 0 <= i < d.len() implies !#[trigger] at(d + p + b, p, i) by {
            if at(d + p + b, p, i) {
                assert(t.subrange(i + 1, i + 1 + p.len()) == (d + p + b).subrange(i, i + p.len()));
                assert(at(t, p, i + 1));
            }
        }
        a_replaced_text_is_replaced_from_the_front(Seq::empty(), d, p, b, by);
        assert(seq![t[0]] + (d + by + replaced_text(b, p, by)) == a + by + replaced_text(b, p, by));
    }
    if !occurs(s, p) {
        lemma_nothing_found(s, p, by);
    }
}

proof fn lemma_nothing_found(s: Seq<char>, p: Seq<char>, by: Seq<char>)
    requires
        p.len() > 0,
        !occurs(s, p),
    ensures
        replaced_text(s, p, by) == s,
    decreases s.len(),
{
    if s.len() >= p.len() {
        assert(!at(s, p, 0));
        let d = s.drop_first();
        if occurs(d, p) {
            let i = choose|i: int| at(d, p, i);
            assert(s.subrange(i + 1, i + 1 + p.len()) == d.subrange(i, i + p.len()));
            assert(at(s, p, i + 1));
        }
        lemma_nothing_found(d, p, by);
        assert(seq![s[0]] + d == s);
    }
}

/// Of the ASCII characters the blank and those from the tab to the carriage return are white space, and no
/// others.
pub proof fn the_white_space_of_ascii(c: char)
    requires
        (c as u32) < 0x80,
    ensures
        white(c) <==> c == ' ' || c == '\t' || c == '\n' || c == '\r' || c as u32 == 0xb || c as u32 == 0xc,
{
}

/// A character takes one byte up to the end of ASCII, two and three up to the ends of their ranges, and
/// four beyond.
pub proof fn a_character_takes_one_to_four_bytes(c: char)
    ensures
        c as u32 <= 0x7f ==> width(c) == 1,
        0x7f < c as u32 <= 0x7ff ==> width(c) == 2,
        0x7ff < c as u32 <= 0xffff ==> width(c) == 3,
        c as u32 > 0xffff ==> width(c) == 4,
{
}

} // verus!
