//! JSON values: what a `serde_json::Value` holds, and the calls the engine makes on one.

use serde_json::Value;
use vstd::prelude::*;

use crate::text;
use crate::text_map;
use crate::text_map::TextMap;

verus! {

/// A JSON value of `serde_json`.
#[verifier::external_type_specification]
#[verifier::external_body]
pub struct ExValue(serde_json::Value);

/// What a JSON value holds. Integers are exact; a number that is not an integer is known by the
/// text it prints as.
#[verifier::ext_equal]
pub enum Tree {
    Null,
    Bool(bool),
    Int(int),
    Float(Seq<char>),
    Text(Seq<char>),
    Array(Seq<Tree>),
    Object(Map<Seq<char>, Tree>),
}

/// The contents of a JSON value.
pub uninterp spec fn tree(v: serde_json::Value) -> Tree;

/// The compact text that a value of these contents prints as.
pub uninterp spec fn rendered(t: Tree) -> Seq<char>;

/// The contents of the value that a JSON text denotes; none for a text that is no JSON.
pub uninterp spec fn parsed(s: Seq<char>) -> Option<Tree>;

/// The contents of a value that may be absent.
pub open spec fn opt_tree(o: Option<Value>) -> Option<Tree> {
    match o {
        Some(v) => Some(tree(v)),
        None => None,
    }
}

/// The contents of a borrowed value that may be absent.
pub open spec fn ref_tree(o: Option<&Value>) -> Option<Tree> {
    match o {
        Some(v) => Some(tree(*v)),
        None => None,
    }
}

/// The contents of several values.
pub open spec fn trees(s: Seq<Value>) -> Seq<Tree> {
    s.map_values(|v: Value| tree(v))
}

/// The object made of the given members; of two members of one name the later one stays.
pub open spec fn fields(s: Seq<(String, Value)>) -> Map<Seq<char>, Tree>
    decreases s.len(),
{
    if s.len() == 0 {
        Map::empty()
    } else {
        fields(s.drop_last()).insert(s.last().0@, tree(s.last().1))
    }
}

/// The names of the given members.
pub open spec fn names(s: Seq<(String, Value)>) -> Seq<Seq<char>> {
    s.map_values(|m: (String, Value)| m.0@)
}

/// The members of an object are those named.
pub proof fn lemma_fields_dom(s: Seq<(String, Value)>)
    ensures
        fields(s).dom() == names(s).to_set(),
    decreases s.len(),
{
    if s.len() == 0 {
        assert(fields(s).dom() == names(s).to_set());
    } else {
        lemma_fields_dom(s.drop_last());
        let n = names(s);
        let d = names(s.drop_last());
        assert(n == d.push(s.last().0@));
        assert(fields(s).dom() == d.to_set().insert(s.last().0@));
        assert forall|k: Seq<char>| n.to_set().contains(k) == #[trigger] d.to_set().insert(s.last().0@).contains(k) by {
            if n.to_set().contains(k) {
                let i = choose|i: int| 0 <= i < n.len() && n[i] == k;
                if i < d.len() {
                    assert(d[i] == k);
                }
            }
            if d.to_set().contains(k) {
                let i = choose|i: int| 0 <= i < d.len() && d[i] == k;
                assert(n[i] == k);
            }
            assert(n[n.len() - 1] == s.last().0@);
        }
        assert(n.to_set() == d.to_set().insert(s.last().0@));
    }
}

/// The member of an object under `key`; none if there is no such member or no object.
pub open spec fn member(t: Tree, key: Seq<char>) -> Option<Tree> {
    match t {
        Tree::Object(m) => if m.dom().contains(key) {
            Some(m[key])
        } else {
            None
        },
        _ => None,
    }
}

/// The characters of a string value; none of any other value.
pub open spec fn chars(t: Tree) -> Option<Seq<char>> {
    match t {
        Tree::Text(s) => Some(s),
        _ => None,
    }
}

/// The characters of the string member under `key`.
pub open spec fn text_member(t: Tree, key: Seq<char>) -> Option<Seq<char>> {
    match member(t, key) {
        Some(m) => chars(m),
        None => None,
    }
}

/// The integer of a value, if it is one from `lo` to `hi`.
pub open spec fn int_within(t: Tree, lo: int, hi: int) -> Option<int> {
    match t {
        Tree::Int(n) => if lo <= n <= hi {
            Some(n)
        } else {
            None
        },
        _ => None,
    }
}

/// Whether a value is a number.
pub open spec fn numeric(t: Tree) -> bool {
    t is Int || t is Float
}

/// Whether a value is an object whose members are strings, integers, booleans or nulls.
pub open spec fn flat(t: Tree) -> bool {
    match t {
        Tree::Object(m) => forall|k: Seq<char>| #[trigger]
            m.dom().contains(k) ==> (m[k] is Text || m[k] is Int || m[k] is Bool || m[k] is Null),
        _ => false,
    }
}

/// The plain text of a value: a string's own characters, any other value as it prints.
pub open spec fn plain(t: Tree) -> Seq<char> {
    match t {
        Tree::Text(s) => s,
        _ => rendered(t),
    }
}

/// The text of a string or a number; none of any other value.
pub open spec fn scalar(t: Tree) -> Option<Seq<char>> {
    match t {
        Tree::Text(s) => Some(s),
        _ => if numeric(t) {
            Some(rendered(t))
        } else {
            None
        },
    }
}

/// `Value::clone` copies the contents.
pub assume_specification[ <serde_json::Value as Clone>::clone ](v: &serde_json::Value) -> (r: serde_json::Value)
    ensures
        tree(r) == tree(*v),
;

/// `Value::get` with a string key: the member of that name, if the value is an object that has it.
#[verifier::external_body]
pub(crate) fn get<'a>(v: &'a Value, key: &str) -> (r: Option<&'a Value>)
    ensures
        (match r {
            Some(x) => member(tree(*v), key@) == Some(tree(*x)),
            None => member(tree(*v), key@) is None,
        }),
{
    v.get(key)
}

/// `Value::as_str`: the characters of a string value.
#[verifier::external_body]
pub(crate) fn as_str<'a>(v: &'a Value) -> (r: Option<&'a str>)
    ensures
        (match r {
            Some(x) => chars(tree(*v)) == Some(x@),
            None => chars(tree(*v)) is None,
        }),
{
    v.as_str()
}

/// `Value::as_array`: the elements of an array, in order.
#[verifier::external_body]
pub(crate) fn as_array<'a>(v: &'a Value) -> (r: Option<&'a Vec<Value>>)
    ensures
        (match r {
            Some(x) => tree(*v) == Tree::Array(trees(x@)),
            None => !(tree(*v) is Array),
        }),
{
    v.as_array()
}

/// `Value::as_object`: the members of an object. A `Map` is walked in ascending key order and
/// holds each key once.
#[verifier::external_body]
pub(crate) fn as_object(v: &Value) -> (r: Option<Vec<(String, Value)>>)
    ensures
        (match r {
            Some(x) => tree(*v) == Tree::Object(fields(x@)) && text_map::ascending(names(x@)),
            None => !(tree(*v) is Object),
        }),
{
    v.as_object().map(|m| m.iter().map(|(k, x)| (k.clone(), x.clone())).collect())
}

/// `Value::as_i64`: an integer that fits.
#[verifier::external_body]
pub(crate) fn as_i64(v: &Value) -> (r: Option<i64>)
    ensures
        (match r {
            Some(n) => int_within(tree(*v), i64::MIN as int, i64::MAX as int) == Some(n as int),
            None => int_within(tree(*v), i64::MIN as int, i64::MAX as int) is None,
        }),
{
    v.as_i64()
}

/// `Value::as_u64`: a natural number that fits.
#[verifier::external_body]
pub(crate) fn as_u64(v: &Value) -> (r: Option<u64>)
    ensures
        (match r {
            Some(n) => int_within(tree(*v), 0, u64::MAX as int) == Some(n as int),
            None => int_within(tree(*v), 0, u64::MAX as int) is None,
        }),
{
    v.as_u64()
}

/// `Value::is_null`.
#[verifier::external_body]
pub(crate) fn is_null(v: &Value) -> (r: bool)
    ensures
        r == (tree(*v) is Null),
{
    v.is_null()
}

/// `Value::is_number`.
#[verifier::external_body]
pub(crate) fn is_number(v: &Value) -> (r: bool)
    ensures
        r == numeric(tree(*v)),
{
    v.is_number()
}

/// `Value::to_string`, its compact text. An integer prints in decimal; no line feed or carriage
/// return stands in the text, since strings print them escaped; and a flat object reads back as
/// itself.
#[verifier::external_body]
pub(crate) fn render(v: &Value) -> (r: String)
    ensures
        r@ == rendered(tree(*v)),
        tree(*v) matches Tree::Int(n) ==> r@ == text::decimal(n),
        !r@.contains('\n') && !r@.contains('\r'),
        flat(tree(*v)) ==> parsed(r@) == Some(tree(*v)) && !text::blank(r@),
{
    v.to_string()
}

/// `serde_json::from_str` into a value.
#[verifier::external_body]
pub(crate) fn parse(s: &str) -> (r: Option<Value>)
    ensures
        (match r {
            Some(v) => parsed(s@) == Some(tree(v)),
            None => parsed(s@) is None,
        }),
{
    serde_json::from_str(s).ok()
}

/// `Value::Null`.
#[verifier::external_body]
pub(crate) fn null() -> (r: Value)
    ensures
        tree(r) == Tree::Null,
{
    Value::Null
}

/// `Value::from` a string.
#[verifier::external_body]
pub(crate) fn of_text(s: &str) -> (r: Value)
    ensures
        tree(r) == Tree::Text(s@),
{
    Value::from(s)
}

/// `Value::from` an integer.
#[verifier::external_body]
pub(crate) fn of_int(n: i64) -> (r: Value)
    ensures
        tree(r) == Tree::Int(n as int),
{
    Value::from(n)
}

/// `Value::from` a natural number.
#[verifier::external_body]
pub(crate) fn of_nat(n: u64) -> (r: Value)
    ensures
        tree(r) == Tree::Int(n as int),
{
    Value::from(n)
}

/// `Value::from` a list of values: an array.
#[verifier::external_body]
pub(crate) fn of_array(v: Vec<Value>) -> (r: Value)
    ensures
        tree(r) == Tree::Array(trees(v@)),
{
    Value::from(v)
}

/// `Value::from_iter` over members: an object, in which a later member replaces an earlier one of
/// the same name.
#[verifier::external_body]
pub(crate) fn of_object(v: Vec<(String, Value)>) -> (r: Value)
    ensures
        tree(r) == Tree::Object(fields(v@)),
{
    Value::from_iter(v)
}

/// An object whose members are strings.
pub fn of_texts(m: &TextMap<String>) -> (r: Value)
    ensures
        tree(r) == Tree::Object(text_map::texts(*m).map_values(|s: Seq<char>| Tree::Text(s))),
{
    let ghost want = text_map::texts(*m).map_values(|s: Seq<char>| Tree::Text(s));
    let n: usize = m.len();
    let ghost keys = m.keys();
    let mut out: Vec<(String, Value)> = Vec::new();
    let mut i: usize = 0;
    assert(fields(out@).dom() == keys.take(0).to_set());
    while i < n
        invariant
            i <= n,
            n == keys.len(),
            keys == m.keys(),
            keys.to_set() == m@.dom(),
            want == text_map::texts(*m).map_values(|s: Seq<char>| Tree::Text(s)),
            fields(out@).dom() == keys.take(i as int).to_set(),
            forall|k: Seq<char>| #[trigger] fields(out@).dom().contains(k) ==> fields(out@)[k] == want[k],
        decreases n - i,
    {
        let k = m.key_at(i).clone();
        let v = of_text(m.value_at(i));
        let ghost before = out@;
        out.push((k, v));
        assert(out@.drop_last() == before);
        assert(fields(out@) == fields(before).insert(k@, tree(v)));
        assert(keys.take(i + 1) == keys.take(i as int).push(k@));
        assert forall|x: Seq<char>| keys.take(i + 1).to_set().contains(x) == #[trigger] keys.take(
            i as int,
        ).to_set().insert(k@).contains(x) by {
            let a = keys.take(i + 1);
            let b = keys.take(i as int);
            if a.to_set().contains(x) {
                let j = choose|j: int| 0 <= j < a.len() && a[j] == x;
                if j < i {
                    assert(b[j] == x);
                }
            }
            if b.to_set().contains(x) {
                let j = choose|j: int| 0 <= j < b.len() && b[j] == x;
                assert(a[j] == x);
            }
            assert(a[i as int] == k@);
        }
        assert(keys.take(i + 1).to_set() == keys.take(i as int).to_set().insert(k@));
        i += 1;
    }
    assert(keys.take(i as int) == keys);
    assert(fields(out@) == want);
    of_object(out)
}

/// An array of strings.
pub fn of_list(v: &[String]) -> (r: Value)
    ensures
        tree(r) == Tree::Array(text::views(v@).map_values(|s: Seq<char>| Tree::Text(s))),
{
    let ghost want = text::views(v@).map_values(|s: Seq<char>| Tree::Text(s));
    let mut out: Vec<Value> = Vec::new();
    let mut i: usize = 0;
    while i < v.len()
        invariant
            i <= v.len(),
            want == text::views(v@).map_values(|s: Seq<char>| Tree::Text(s)),
            trees(out@) == want.take(i as int),
        decreases v.len() - i,
    {
        let x = of_text(&v[i]);
        let ghost before = out@;
        out.push(x);
        assert(trees(out@) == trees(before).push(tree(x)));
        i += 1;
        assert(trees(out@) == want.take(i as int));
    }
    assert(want.take(i as int) == want);
    of_array(out)
}

/// The characters of the string member under `key`.
pub fn text_at(v: &Value, key: &str) -> (r: Option<String>)
    ensures
        text::opt(r) == text_member(tree(*v), key@),
{
    match get(v, key) {
        Some(m) => match as_str(m) {
            Some(t) => Some(t.to_owned()),
            None => None,
        },
        None => None,
    }
}

/// A string's own characters, any other value as it prints.
pub fn plain_text(v: &Value) -> (r: String)
    ensures
        r@ == plain(tree(*v)),
{
    match as_str(v) {
        Some(t) => t.to_owned(),
        None => render(v),
    }
}

/// The text of a string or a number.
pub fn value_as_string(v: &Value) -> (r: Option<String>)
    ensures
        text::opt(r) == scalar(tree(*v)),
{
    match as_str(v) {
        Some(t) => Some(t.to_owned()),
        None => if is_number(v) {
            Some(render(v))
        } else {
            None
        },
    }
}

/// A text stands for itself, and a value of any other kind for what it prints as; of those only numbers
/// have a text of their own.
pub proof fn a_text_stands_for_itself(s: Seq<char>, t: Tree)
    ensures
        plain(Tree::Text(s)) == s,
        !(t is Text) ==> plain(t) == rendered(t),
        scalar(Tree::Text(s)) == Some(s),
        t is Int || t is Float ==> scalar(t) == Some(rendered(t)),
        !(t is Text) && !(t is Int) && !(t is Float) ==> scalar(t) is None,
{
}

} // verus!
