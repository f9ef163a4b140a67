//! A map keyed by text that is walked in ascending key order.

use vstd::prelude::*;

use crate::text;

verus! {

/// `a` and `b` agree on their first `k` characters, and there `a` ends or is the smaller one.
pub open spec fn splits(a: Seq<char>, b: Seq<char>, k: int) -> bool {
    &&& 0 <= k < b.len()
    &&& k <= a.len()
    &&& forall|j: int| 0 <= j < k ==> a[j] == b[j]
    &&& k == a.len() || a[k] < b[k]
}

/// `a` stands before `b` in the order of their characters.
pub open spec fn precedes(a: Seq<char>, b: Seq<char>) -> bool {
    exists|k: int| splits(a, b, k)
}

/// The keys stand in strictly ascending order.
pub open spec fn ascending(keys: Seq<Seq<char>>) -> bool {
    forall|i: int, j: int| 0 <= i < j < keys.len() ==> precedes(#[trigger] keys[i], #[trigger] keys[j])
}

pub proof fn lemma_precedes_transitive(a: Seq<char>, b: Seq<char>, c: Seq<char>)
    requires
        precedes(a, b),
        precedes(b, c),
    ensures
        precedes(a, c),
{
    let k = choose|k: int| splits(a, b, k);
    let m = choose|m: int| splits(b, c, m);
    if k <= m {
        assert(splits(a, c, k));
    } else {
        assert(splits(a, c, m));
    }
}

pub proof fn lemma_precedes_irreflexive(a: Seq<char>)
    ensures
        !precedes(a, a),
{
}

/// Of two different texts one comes first.
pub proof fn lemma_precedes_total(a: Seq<char>, b: Seq<char>)
    ensures
        a == b || precedes(a, b) || precedes(b, a),
{
    lemma_compare_from(a, b, 0);
}

proof fn lemma_compare_from(a: Seq<char>, b: Seq<char>, k: int)
    requires
        0 <= k <= a.len(),
        k <= b.len(),
        forall|j: int| 0 <= j < k ==> a[j] == b[j],
    ensures
        a == b || precedes(a, b) || precedes(b, a),
    decreases a.len() - k,
{
    if k == a.len() && k == b.len() {
        assert(a == b);
    } else if k == a.len() || k == b.len() || a[k] != b[k] {
        assert(splits(a, b, k) || splits(b, a, k));
    } else {
        lemma_compare_from(a, b, k + 1);
    }
}

/// The members of `dom` in ascending order.
pub open spec fn in_order(dom: Set<Seq<char>>) -> Seq<Seq<char>> {
    choose|s: Seq<Seq<char>>| ascending(s) && s.to_set() == dom
}

proof fn lemma_ascending_unique(a: Seq<Seq<char>>, b: Seq<Seq<char>>)
    requires
        ascending(a),
        ascending(b),
        a.to_set() == b.to_set(),
    ensures
        a == b,
    decreases a.len(),
{
    if a.len() == 0 {
        if b.len() > 0 {
            assert(b.to_set().contains(b[0]));
            assert(a.to_set().contains(b[0]));
        }
    } else {
        assert(a.to_set().contains(a.last()));
        assert(b.to_set().contains(a.last()));
        let j = choose|j: int| 0 <= j < b.len() && b[j] == a.last();
        assert(b.to_set().contains(b.last()));
        assert(a.to_set().contains(b.last()));
        let i = choose|i: int| 0 <= i < a.len() && a[i] == b.last();
        if a.last() != b.last() {
            assert(precedes(b[j], b[b.len() - 1]));
            assert(precedes(a[i], a[a.len() - 1]));
            lemma_precedes_transitive(a.last(), b.last(), a.last());
            lemma_precedes_irreflexive(a.last());
        }
        let c = a.drop_last();
        let d = b.drop_last();
        assert forall|x: Seq<char>| #[trigger] c.to_set().contains(x) == d.to_set().contains(x) by {
            lemma_precedes_irreflexive(x);
            if c.to_set().contains(x) {
                let k = choose|k: int| 0 <= k < c.len() && c[k] == x;
                assert(a[k] == x);
                assert(precedes(a[k], a[a.len() - 1]));
                assert(a.to_set().contains(x));
                let m = choose|m: int| 0 <= m < b.len() && b[m] == x;
                assert(m != b.len() - 1);
                assert(d[m] == x);
            }
            if d.to_set().contains(x) {
                let k = choose|k: int| 0 <= k < d.len() && d[k] == x;
                assert(b[k] == x);
                assert(precedes(b[k], b[b.len() - 1]));
                assert(b.to_set().contains(x));
                let m = choose|m: int| 0 <= m < a.len() && a[m] == x;
                assert(m != a.len() - 1);
                assert(c[m] == x);
            }
        }
        assert(c.to_set() == d.to_set());
        lemma_ascending_unique(c, d);
        assert(a == c.push(a.last()));
        assert(b == d.push(b.last()));
    }
}

/// An ascending sequence is the ordered form of the set of its members.
pub proof fn lemma_in_order(s: Seq<Seq<char>>)
    requires
        ascending(s),
    ensures
        in_order(s.to_set()) == s,
{
    let c = in_order(s.to_set());
    assert(ascending(s) && s.to_set() == s.to_set());
    lemma_ascending_unique(c, s);
}

/// How two texts stand to each other.
pub enum Rank {
    Before,
    Equal,
    After,
}

/// Compares two texts character by character.
pub fn rank(a: &str, b: &str) -> (r: Rank)
    ensures
        (match r {
            Rank::Before => precedes(a@, b@),
            Rank::Equal => a@ == b@,
            Rank::After => precedes(b@, a@),
        }),
{
    let x = text::chars_of(a);
    let y = text::chars_of(b);
    let mut k: usize = 0;
    while k < x.len() && k < y.len()
        invariant
            x@ == a@,
            y@ == b@,
            k <= x.len(),
            k <= y.len(),
            forall|j: int| 0 <= j < k ==> x@[j] == y@[j],
        decreases x.len() - k,
    {
        if x[k] < y[k] {
            assert(splits(a@, b@, k as int));
            return Rank::Before;
        }
        if y[k] < x[k] {
            assert(splits(b@, a@, k as int));
            return Rank::After;
        }
        k += 1;
    }
    if k < y.len() {
        assert(splits(a@, b@, k as int));
        Rank::Before
    } else if k < x.len() {
        assert(splits(b@, a@, k as int));
        Rank::After
    } else {
        assert(a@ == b@);
        Rank::Equal
    }
}

/// The texts that a map from text to strings holds.
pub open spec fn texts(m: TextMap<String>) -> Map<Seq<char>, Seq<char>> {
    m@.map_values(|s: String| s@)
}

/// A value that can be copied exactly.
pub trait Dup: Sized {
    fn dup(&self) -> (r: Self)
        ensures
            r == *self,
    ;
}

impl Dup for String {
    fn dup(&self) -> (r: Self) {
        self.clone()
    }
}

impl Dup for usize {
    fn dup(&self) -> (r: Self) {
        *self
    }
}

impl Dup for u64 {
    fn dup(&self) -> (r: Self) {
        *self
    }
}

/// A map from text to values, kept in ascending key order.
pub struct TextMap<V> {
    entries: Vec<(String, V)>,
}

impl<V> View for TextMap<V> {
    type V = Map<Seq<char>, V>;

    closed spec fn view(&self) -> Map<Seq<char>, V> {
        Map::new(
            |k: Seq<char>| exists|i: int| 0 <= i < self.entries@.len() && (#[trigger] self.entries@[i]).0@ == k,
            |k: Seq<char>| self.entries@[self.position(k)].1,
        )
    }
}

impl<V> TextMap<V> {
    spec fn position(&self, k: Seq<char>) -> int {
        choose|i: int| 0 <= i < self.entries@.len() && (#[trigger] self.entries@[i]).0@ == k
    }

    spec fn raw(&self) -> Seq<Seq<char>> {
        Seq::new(self.entries@.len(), |i: int| self.entries@[i].0@)
    }

    #[verifier::type_invariant]
    closed spec fn sorted(self) -> bool {
        ascending(self.raw())
    }

    proof fn lemma_raw(self)
        requires
            self.sorted(),
        ensures
            self.raw() == self.keys(),
            self.raw().to_set() == self@.dom(),
    {
        assert forall|k: Seq<char>| self.raw().to_set().contains(k) == #[trigger] self@.dom().contains(k) by {
            if self.raw().to_set().contains(k) {
                let i = choose|i: int| 0 <= i < self.raw().len() && self.raw()[i] == k;
                self.lemma_entry(i);
            }
            if self@.dom().contains(k) {
                let i = choose|i: int| 0 <= i < self.entries@.len() && (#[trigger] self.entries@[i]).0@ == k;
                assert(self.raw()[i] == k);
            }
        }
        assert(self.raw().to_set() == self@.dom());
        lemma_in_order(self.raw());
    }

    /// The keys, in the order in which the map is walked.
    pub open spec fn keys(&self) -> Seq<Seq<char>> {
        in_order(self@.dom())
    }

    proof fn lemma_entry(self, i: int)
        requires
            self.sorted(),
            0 <= i < self.entries@.len(),
        ensures
            self@.dom().contains(self.raw()[i]),
            self@[self.raw()[i]] == self.entries@[i].1,
    {
        let k = self.raw()[i];
        assert(self.entries@[i].0@ == k);
        let c = self.position(k);
        assert(self.raw()[c] == k);
        lemma_precedes_irreflexive(k);
        if c < i {
            assert(precedes(self.raw()[c], self.raw()[i]));
        } else if i < c {
            assert(precedes(self.raw()[i], self.raw()[c]));
        }
    }

    /// The empty map.
    pub fn new() -> (r: Self)
        ensures
            r@ == Map::<Seq<char>, V>::empty(),
    {
        let r = TextMap { entries: Vec::new() };
        assert(r@ == Map::<Seq<char>, V>::empty());
        r
    }

    /// How many keys there are.
    pub fn len(&self) -> (n: usize)
        ensures
            n == self.keys().len(),
            ascending(self.keys()),
            self.keys().to_set() == self@.dom(),
    {
        proof {
            use_type_invariant(&*self);
            self.lemma_raw();
        }
        self.entries.len()
    }

    /// Whether there is no key.
    pub fn is_empty(&self) -> (r: bool)
        ensures
            r == (self.keys().len() == 0),
            r == (self@ == Map::<Seq<char>, V>::empty()),
    {
        let n: usize = self.len();
        proof {
            if self.keys().len() > 0 {
                assert(self.keys().to_set().contains(self.keys()[0]));
                assert(self@.dom().contains(self.keys()[0]));
            } else {
                assert forall|k: Seq<char>| !self@.dom().contains(k) by {
                    if self@.dom().contains(k) {
                        assert(self.keys().to_set().contains(k));
                    }
                }
                assert(self@ == Map::<Seq<char>, V>::empty());
            }
        }
        n == 0
    }

    /// The key at position `i` of the walk.
    pub fn key_at(&self, i: usize) -> (k: &String)
        requires
            i < self.keys().len(),
        ensures
            k@ == self.keys()[i as int],
    {
        proof {
            use_type_invariant(&*self);
            self.lemma_raw();
        }
        &self.entries[i].0
    }

    /// The value at position `i` of the walk.
    pub fn value_at(&self, i: usize) -> (v: &V)
        requires
            i < self.keys().len(),
        ensures
            self@.dom().contains(self.keys()[i as int]),
            *v == self@[self.keys()[i as int]],
    {
        proof {
            use_type_invariant(&*self);
            self.lemma_raw();
            self.lemma_entry(i as int);
        }
        &self.entries[i].1
    }

    /// The position of `key`, or the first position whose key stands after it.
    fn seek(&self, key: &str) -> (r: (usize, bool))
        ensures
            r.0 <= self.entries@.len(),
            r.1 ==> r.0 < self.entries@.len() && self.raw()[r.0 as int] == key@,
            !r.1 ==> (r.0 < self.entries@.len() ==> precedes(key@, self.raw()[r.0 as int])),
            forall|j: int| 0 <= j < r.0 ==> precedes(#[trigger] self.raw()[j], key@),
    {
        let mut i: usize = 0;
        while i < self.entries.len()
            invariant
                i <= self.entries@.len(),
                forall|j: int| 0 <= j < i ==> precedes(#[trigger] self.raw()[j], key@),
            decreases self.entries@.len() - i,
        {
            match rank(&self.entries[i].0, key) {
                Rank::Before => {
                    i += 1;
                },
                Rank::Equal => {
                    return (i, true);
                },
                Rank::After => {
                    return (i, false);
                },
            }
        }
        (i, false)
    }

    proof fn lemma_absent(self, i: int, key: Seq<char>)
        requires
            self.sorted(),
            0 <= i <= self.raw().len(),
            i < self.raw().len() ==> precedes(key, self.raw()[i]),
            forall|j: int| 0 <= j < i ==> precedes(#[trigger] self.raw()[j], key),
        ensures
            !self@.dom().contains(key),
    {
        if self@.dom().contains(key) {
            let c = choose|c: int| 0 <= c < self.entries@.len() && (#[trigger] self.entries@[c]).0@ == key;
            assert(self.raw()[c] == key);
            lemma_precedes_irreflexive(key);
            if c > i {
                lemma_precedes_transitive(key, self.raw()[i], self.raw()[c]);
            }
        }
    }

    /// The value under `key`.
    pub fn get(&self, key: &str) -> (r: Option<&V>)
        ensures
            (match r {
                Some(v) => self@.dom().contains(key@) && *v == self@[key@],
                None => !self@.dom().contains(key@),
            }),
    {
        proof {
            use_type_invariant(&*self);
        }
        let (i, found) = self.seek(key);
        if found {
            proof {
                self.lemma_entry(i as int);
            }
            Some(&self.entries[i].1)
        } else {
            proof {
                self.lemma_absent(i as int, key@);
            }
            None
        }
    }

    /// Puts `value` under `key`, in place of what stood there.
    pub fn insert(&mut self, key: &str, value: V)
        ensures
            final(self)@ == old(self)@.insert(key@, value),
    {
        proof {
            use_type_invariant(&*self);
        }
        let (i, found) = self.seek(key);
        let mut entries: Vec<(String, V)> = Vec::new();
        let ghost before = *self;
        std::mem::swap(&mut entries, &mut self.entries);
        let k = key.to_owned();
        if found {
            let _replaced = entries.remove(i);
        }
        entries.insert(i, (k, value));
        let ghost after = TextMap { entries };
        proof {
            let n = before.raw().len();
            if found {
                assert(after.raw() == before.raw());
                before.lemma_entry(i as int);
            } else {
                before.lemma_absent(i as int, key@);
                assert(after.raw() == before.raw().insert(i as int, key@));
                assert forall|a: int, b: int| 0 <= a < b < after.raw().len() implies precedes(
                    #[trigger] after.raw()[a],
                    #[trigger] after.raw()[b],
                ) by {
                    let u = if a < i { a } else { a - 1 };
                    let v = if b < i { b } else { b - 1 };
                    if a != i && b != i {
                        assert(precedes(before.raw()[u], before.raw()[v]));
                    } else if a == i {
                        if v > i {
                            lemma_precedes_transitive(key@, before.raw()[i as int], before.raw()[v]);
                        }
                    }
                }
            }
            assert(after.sorted());
            assert forall|k: Seq<char>| #[trigger] after@.dom().contains(k) == before@.insert(key@, value).dom().contains(k) by {
                if after@.dom().contains(k) {
                    let c = choose|c: int| 0 <= c < after.entries@.len() && (#[trigger] after.entries@[c]).0@ == k;
                    assert(after.raw()[c] == k);
                    if c != i {
                        let u = if c < i || found { c } else { c - 1 };
                        assert(before.raw()[u] == k);
                        before.lemma_entry(u);
                    }
                }
                if before@.insert(key@, value).dom().contains(k) {
                    if k == key@ {
                        assert(after.raw()[i as int] == k);
                        after.lemma_entry(i as int);
                    } else {
                        let c = choose|c: int| 0 <= c < before.entries@.len() && (#[trigger] before.entries@[c]).0@ == k;
                        let u = if c < i || found { c } else { c + 1 };
                        assert(before.raw()[c] == k);
                        assert(after.raw()[u] == k);
                        after.lemma_entry(u);
                    }
                }
            }
            assert forall|k: Seq<char>| #[trigger] after@.dom().contains(k) implies after@[k] == before@.insert(key@, value)[k] by {
                let c = choose|c: int| 0 <= c < after.entries@.len() && (#[trigger] after.entries@[c]).0@ == k;
                assert(after.raw()[c] == k);
                after.lemma_entry(c);
                if c == i {
                } else {
                    let u = if c < i || found { c } else { c - 1 };
                    assert(before.raw()[u] == k);
                    before.lemma_entry(u);
                    assert(after.entries@[c] == before.entries@[u]);
                    assert(k != key@) by {
                        assert(after.raw()[i as int] == key@);
                        lemma_precedes_irreflexive(key@);
                    }
                }
            }
            assert(after@ == before@.insert(key@, value));
        }
        self.entries = entries;
    }
}

impl<V> TextMap<V> {
    /// Takes out what stands under `key`.
    pub fn remove(&mut self, key: &str) -> (r: Option<V>)
        ensures
            final(self)@ == old(self)@.remove(key@),
            (match r {
                Some(v) => old(self)@.dom().contains(key@) && v == old(self)@[key@],
                None => !old(self)@.dom().contains(key@),
            }),
    {
        proof {
            use_type_invariant(&*self);
        }
        let (i, found) = self.seek(key);
        if !found {
            proof {
                self.lemma_absent(i as int, key@);
                assert(self@.remove(key@) == self@);
            }
            return None;
        }
        let ghost before = *self;
        let mut entries: Vec<(String, V)> = Vec::new();
        std::mem::swap(&mut entries, &mut self.entries);
        let taken = entries.remove(i);
        let ghost after = TextMap { entries };
        proof {
            before.lemma_entry(i as int);
            assert(after.raw() == before.raw().remove(i as int));
            assert forall|a: int, b: int| 0 <= a < b < after.raw().len() implies precedes(
                #[trigger] after.raw()[a],
                #[trigger] after.raw()[b],
            ) by {
                let u = if a < i { a } else { a + 1 };
                let v = if b < i { b } else { b + 1 };
                assert(precedes(before.raw()[u], before.raw()[v]));
            }
            assert forall|k: Seq<char>| #[trigger] after@.dom().contains(k) == before@.remove(key@).dom().contains(k) by {
                lemma_precedes_irreflexive(k);
                if after@.dom().contains(k) {
                    let c = choose|c: int| 0 <= c < after.entries@.len() && (#[trigger] after.entries@[c]).0@ == k;
                    let u = if c < i { c } else { c + 1 };
                    assert(before.raw()[u] == k);
                    before.lemma_entry(u);
                    if u < i {
                        assert(precedes(before.raw()[u], before.raw()[i as int]));
                    } else {
                        assert(precedes(before.raw()[i as int], before.raw()[u]));
                    }
                }
                if before@.remove(key@).dom().contains(k) {
                    let c = choose|c: int| 0 <= c < before.entries@.len() && (#[trigger] before.entries@[c]).0@ == k;
                    let u = if c < i { c } else { c - 1 };
                    assert(after.raw()[u] == k);
                    after.lemma_entry(u);
                }
            }
            assert forall|k: Seq<char>| #[trigger] after@.dom().contains(k) implies after@[k] == before@[k] by {
                let c = choose|c: int| 0 <= c < after.entries@.len() && (#[trigger] after.entries@[c]).0@ == k;
                let u = if c < i { c } else { c + 1 };
                assert(after.raw()[c] == k);
                assert(before.raw()[u] == k);
                after.lemma_entry(c);
                before.lemma_entry(u);
                assert(after.entries@[c] == before.entries@[u]);
            }
            assert(after@ == before@.remove(key@));
        }
        self.entries = entries;
        Some(taken.1)
    }
}

impl TextMap<String> {
    /// Puts a copy of `value` under `key`.
    pub fn put(&mut self, key: &str, value: &str)
        ensures
            texts(*final(self)) == texts(*old(self)).insert(key@, value@),
    {
        let ghost before = *self;
        self.insert(key, value.to_owned());
        assert(texts(*self) == texts(before).insert(key@, value@));
    }
}

impl<V: Dup> TextMap<V> {
    /// An exact copy.
    pub fn dup(&self) -> (r: Self)
        ensures
            r@ == self@,
    {
        proof {
            use_type_invariant(&*self);
        }
        let mut entries: Vec<(String, V)> = Vec::new();
        let mut i: usize = 0;
        while i < self.entries.len()
            invariant
                i <= self.entries@.len(),
                entries@ == self.entries@.take(i as int),
            decreases self.entries@.len() - i,
        {
            entries.push((self.entries[i].0.clone(), self.entries[i].1.dup()));
            i += 1;
            assert(entries@ == self.entries@.take(i as int));
        }
        assert(entries@ == self.entries@);
        let ghost g = TextMap { entries };
        assert(g.raw() == self.raw());
        let r = TextMap { entries };
        assert(r@ == self@);
        r
    }
}

/// Puts every entry of `other` into `m`, in place of one of the same key.
pub fn put_all(m: &mut TextMap<String>, other: &TextMap<String>)
    ensures
        texts(*final(m)) == texts(*old(m)).union_prefer_right(texts(*other)),
{
    let n: usize = other.len();
    let ghost start = texts(*m);
    let ghost keys = other.keys();
    let ghost o = texts(*other);
    let mut i: usize = 0;
    while i < n
        invariant
            i <= n == keys.len(),
            keys == other.keys(),
            keys.to_set() == other@.dom(),
            o == texts(*other),
            forall|k: Seq<char>| #[trigger]
                texts(*m).dom().contains(k) <==> start.dom().contains(k) || keys.take(i as int).contains(k),
            forall|k: Seq<char>| #[trigger]
                texts(*m).dom().contains(k) ==> texts(*m)[k] == (if keys.take(i as int).contains(k) {
                    o[k]
                } else {
                    start[k]
                }),
        decreases n - i,
    {
        let k = other.key_at(i);
        let v = other.value_at(i);
        let ghost before = texts(*m);
        m.put(k, v);
        assert forall|x: Seq<char>| #[trigger] keys.take(i + 1).contains(x) == (keys.take(i as int).contains(x) || x
            == k@) by {
            let a = keys.take(i + 1);
            let b = keys.take(i as int);
            if a.contains(x) {
                let j = choose|j: int| 0 <= j < a.len() && a[j] == x;
                if j < i {
                    assert(b[j] == x);
                }
            }
            if b.contains(x) {
                let j = choose|j: int| 0 <= j < b.len() && b[j] == x;
                assert(a[j] == x);
            }
            assert(a[i as int] == k@);
        }
        i += 1;
    }
    assert(keys.take(i as int) == keys);
    assert forall|k: Seq<char>| #[trigger] keys.contains(k) == o.dom().contains(k) by {
        assert(keys.to_set().contains(k) == other@.dom().contains(k));
    }
    assert(texts(*m) == start.union_prefer_right(o));
}

proof fn lemma_placed(s: Seq<Seq<char>>, x: Seq<char>) -> (r: Seq<Seq<char>>)
    requires
        ascending(s),
        !s.contains(x),
    ensures
        ascending(r),
        r.to_set() == s.to_set().insert(x),
    decreases s.len(),
{
    if s.len() == 0 {
        let r = seq![x];
        assert(r[0] == x);
        assert(r.to_set() =~= s.to_set().insert(x));
        r
    } else if precedes(s.last(), x) {
        let r = s.push(x);
        assert forall|i: int, j: int| 0 <= i < j < r.len() implies precedes(
            #[trigger] r[i],
            #[trigger] r[j],
        ) by {
            if j == s.len() && i < s.len() - 1 {
                assert(precedes(s[i], s[s.len() - 1]));
                lemma_precedes_transitive(s[i], s.last(), x);
            } else if j < s.len() {
                assert(precedes(s[i], s[j]));
            }
        }
        assert forall|y: Seq<char>| #[trigger] r.to_set().contains(y) == s.to_set().insert(x).contains(y) by {
            if r.contains(y) {
                let i = choose|i: int| 0 <= i < r.len() && r[i] == y;
                if i < s.len() {
                    assert(s[i] == y);
                }
            }
            if s.contains(y) {
                let i = choose|i: int| 0 <= i < s.len() && s[i] == y;
                assert(r[i] == y);
            }
            assert(r[s.len() as int] == x);
        }
        assert(r.to_set() =~= s.to_set().insert(x));
        r
    } else {
        let d = s.drop_last();
        assert(!d.contains(x)) by {
            if d.contains(x) {
                let i = choose|i: int| 0 <= i < d.len() && d[i] == x;
                assert(s[i] == x);
            }
        }
        assert forall|i: int, j: int| 0 <= i < j < d.len() implies precedes(
            #[trigger] d[i],
            #[trigger] d[j],
        ) by {
            assert(precedes(s[i], s[j]));
        }
        let q = lemma_placed(d, x);
        let r = q.push(s.last());
        lemma_precedes_total(s.last(), x);
        assert(s.last() != x) by {
            assert(s[s.len() - 1] == s.last());
        }
        assert forall|i: int, j: int| 0 <= i < j < r.len() implies precedes(
            #[trigger] r[i],
            #[trigger] r[j],
        ) by {
            if j == q.len() {
                assert(q.to_set().contains(q[i]));
                if q[i] != x {
                    assert(d.to_set().contains(q[i]));
                    let k = choose|k: int| 0 <= k < d.len() && d[k] == q[i];
                    assert(precedes(s[k], s[s.len() - 1]));
                }
            } else {
                assert(precedes(q[i], q[j]));
            }
        }
        assert forall|y: Seq<char>| #[trigger] r.to_set().contains(y) == s.to_set().insert(x).contains(y) by {
            if r.contains(y) {
                let i = choose|i: int| 0 <= i < r.len() && r[i] == y;
                if i < q.len() {
                    assert(q[i] == y);
                    assert(q.to_set().contains(y));
                    if y != x {
                        assert(d.to_set().contains(y));
                        let k = choose|k: int| 0 <= k < d.len() && d[k] == y;
                        assert(s[k] == y);
                    }
                } else {
                    assert(s[s.len() - 1] == y);
                }
            }
            if s.contains(y) || y == x {
                if y == x {
                    assert(q.to_set().contains(x));
                    let k = choose|k: int| 0 <= k < q.len() && q[k] == x;
                    assert(r[k] == x);
                } else {
                    let i = choose|i: int| 0 <= i < s.len() && s[i] == y;
                    if i < d.len() {
                        assert(d[i] == y);
                        assert(d.to_set().contains(y));
                        assert(q.to_set().contains(y));
                        let k = choose|k: int| 0 <= k < q.len() && q[k] == y;
                        assert(r[k] == y);
                    } else {
                        assert(r[q.len() as int] == y);
                    }
                }
            }
        }
        assert(r.to_set() =~= s.to_set().insert(x));
        r
    }
}

proof fn lemma_ordered(dom: Set<Seq<char>>) -> (r: Seq<Seq<char>>)
    requires
        dom.finite(),
    ensures
        ascending(r),
        r.to_set() == dom,
    decreases dom.len(),
{
    if dom.len() == 0 {
        let r = Seq::<Seq<char>>::empty();
        assert(r.to_set() =~= dom);
        r
    } else {
        let x = dom.choose();
        let s = lemma_ordered(dom.remove(x));
        assert(!s.contains(x)) by {
            assert(!s.to_set().contains(x));
        }
        let r = lemma_placed(s, x);
        assert(r.to_set() =~= dom);
        r
    }
}

/// The ordered form of a set holds its members, each of them once, from the first to the last, and
/// nothing else.
pub proof fn a_set_in_order_holds_its_members(dom: Set<Seq<char>>)
    requires
        dom.finite(),
    ensures
        ascending(in_order(dom)),
        forall|k: Seq<char>| #[trigger] in_order(dom).contains(k) <==> dom.contains(k),
        in_order(dom).no_duplicates(),
{
    let r = lemma_ordered(dom);
    let s = in_order(dom);
    assert(ascending(s) && s.to_set() == dom);
    assert forall|k: Seq<char>| #[trigger] s.contains(k) <==> dom.contains(k) by {
        assert(s.to_set().contains(k) <==> dom.contains(k));
    }
    assert forall|i: int, j: int| 0 <= i < s.len() && 0 <= j < s.len() && i != j implies s[i] != s[j] by {
        if i < j {
            assert(precedes(s[i], s[j]));
        } else {
            assert(precedes(s[j], s[i]));
        }
        lemma_precedes_irreflexive(s[i]);
    }
}

} // verus!
