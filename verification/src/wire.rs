//! JSON text: what `serde_json` reads and writes, and the way between its values and ours.

use vstd::prelude::*;
use vstd::string::*;

use crate::json;
use crate::json::{Json, Object, Tree};

verus! {

/// Declares `serde_json::Value`, the value that `serde_json` reads into and writes from.
#[verifier::external_type_specification]
#[verifier::external_body]
pub struct ExValue(serde_json::Value);

/// Declares `serde_json::Map`, the collection in which a `serde_json::Value` keeps an object.
#[verifier::external_type_specification]
#[verifier::external_body]
#[verifier::reject_recursive_types(K)]
#[verifier::reject_recursive_types(V)]
pub struct ExMap<K, V>(serde_json::Map<K, V>);

/// What a `serde_json::Value` holds.
pub uninterp spec fn contents(v: serde_json::Value) -> Tree;

/// What a `serde_json::Map` holds under each of its keys.
pub uninterp spec fn map_contents(
    m: serde_json::Map<String, serde_json::Value>,
) -> Map<Seq<char>, Tree>;

/// What `serde_json::from_str` makes of a text: the value that it writes, or nothing where the
/// text is not one JSON value.
pub uninterp spec fn json_of_text(s: Seq<char>) -> Option<Tree>;

/// What `serde_json::from_slice` makes of bytes.
pub uninterp spec fn json_of_bytes(bytes: Seq<u8>) -> Option<Tree>;

/// The compact text that a `serde_json::Value` prints as.
pub uninterp spec fn text_of_json(t: Tree) -> Seq<char>;

/// The number that `serde_json::Number::from_i128` makes of an integer that it can hold.
pub uninterp spec fn number_of(n: i128) -> serde_json::Number;

/// The variants of a `serde_json::Value`, each with what it carries.
enum Shape {
    Null,
    Bool(bool),
    Number(serde_json::Number),
    String(String),
    Array(Vec<serde_json::Value>),
    Object(serde_json::Map<String, serde_json::Value>),
}

/// The entries of a `serde_json::Map`, one after another.
type Entries = Vec<(String, serde_json::Value)>;

spec fn shape_tree(s: Shape) -> Tree {
    match s {
        Shape::Null => Tree::Null,
        Shape::Bool(b) => Tree::Bool(b),
        Shape::Number(n) => Tree::Number(n),
        Shape::String(s) => Tree::String(s@),
        Shape::Array(items) => Tree::Array(
            items@.map_values(|v: serde_json::Value| contents(v)),
        ),
        Shape::Object(m) => Tree::Object(map_contents(m)),
    }
}

spec fn pair_map(pairs: Seq<(String, serde_json::Value)>) -> Map<Seq<char>, Tree>
    decreases pairs.len(),
{
    if pairs.len() == 0 {
        Map::empty()
    } else {
        pair_map(pairs.drop_last()).insert(pairs.last().0@, contents(pairs.last().1))
    }
}

/// Tells the variants of `serde_json::Value` apart: what comes out holds what went in.
#[verifier::external_body]
fn open_value(v: serde_json::Value) -> (s: Shape)
    ensures
        shape_tree(s) == contents(v),
{
    match v {
        serde_json::Value::Null => Shape::Null,
        serde_json::Value::Bool(b) => Shape::Bool(b),
        serde_json::Value::Number(n) => Shape::Number(n),
        serde_json::Value::String(s) => Shape::String(s),
        serde_json::Value::Array(items) => Shape::Array(items),
        serde_json::Value::Object(m) => Shape::Object(m),
    }
}

/// Builds the `serde_json::Value` of a variant: what comes out holds what went in.
#[verifier::external_body]
fn close_value(s: Shape) -> (v: serde_json::Value)
    ensures
        contents(v) == shape_tree(s),
{
    match s {
        Shape::Null => serde_json::Value::Null,
        Shape::Bool(b) => serde_json::Value::Bool(b),
        Shape::Number(n) => serde_json::Value::Number(n),
        Shape::String(s) => serde_json::Value::String(s),
        Shape::Array(items) => serde_json::Value::Array(items),
        Shape::Object(m) => serde_json::Value::Object(m),
    }
}

spec fn distinct_keys(pairs: Seq<(String, serde_json::Value)>) -> bool {
    forall|i: int, j: int|
        0 <= i < j < pairs.len() ==> #[trigger] pairs[i].0@ != #[trigger] pairs[j].0@
}

/// Calls `serde_json::Map::into_iter`: hands out every entry once.
#[verifier::external_body]
fn open_map(m: serde_json::Map<String, serde_json::Value>) -> (pairs: Entries)
    ensures
        pair_map(pairs@) == map_contents(m),
        distinct_keys(pairs@),
{
    m.into_iter().collect()
}

/// Calls `serde_json::Map::new`: the map without entries.
#[verifier::external_body]
fn new_map() -> (m: serde_json::Map<String, serde_json::Value>)
    ensures
        map_contents(m) == pair_map(Seq::empty()),
{
    serde_json::Map::new()
}

/// Calls `serde_json::Map::insert`: puts a value under a key, in place of an earlier one.
#[verifier::external_body]
fn insert_entry(
    m: &mut serde_json::Map<String, serde_json::Value>,
    key: String,
    value: serde_json::Value,
)
    ensures
        map_contents(*final(m)) == map_contents(*old(m)).insert(key@, contents(value)),
{
    m.insert(key, value);
}

/// Calls `serde_json::from_str`: a value exactly where the text is one, and then always the same.
#[verifier::external_body]
fn read_text(s: &str) -> (r: Option<serde_json::Value>)
    ensures
        match r {
            Some(v) => json_of_text(s@) == Some(contents(v)),
            None => json_of_text(s@) is None,
        },
{
    serde_json::from_str(s).ok()
}

/// Calls `serde_json::from_slice`: a value exactly where the bytes are one, and then always the
/// same.
#[verifier::external_body]
fn read_bytes(bytes: &Vec<u8>) -> (r: Option<serde_json::Value>)
    ensures
        match r {
            Some(v) => json_of_bytes(bytes@) == Some(contents(v)),
            None => json_of_bytes(bytes@) is None,
        },
{
    serde_json::from_slice(bytes).ok()
}

/// Whether a text can stand on a line of its own: it is not empty, holds no line break and
/// neither starts nor ends with white space.
pub open spec fn one_line(s: Seq<char>) -> bool {
    &&& s.len() > 0
    &&& !crate::text::is_space(s.first())
    &&& !crate::text::is_space(s.last())
    &&& forall|i: int| 0 <= i < s.len() ==> #[trigger] s[i] != '\n'
}

/// How deep arrays and objects may be nested in what `serde_json` reads.
pub const READ_DEPTH: u8 = 127;

/// Whether a `serde_json::Number` can hold an integer as one: it fits in 64 bits, with a sign or
/// without.
pub open spec fn is_number(n: i128) -> bool {
    i64::MIN <= n <= u64::MAX
}

/// Whether a value, printed, reads back as itself: its numbers are integers, and its arrays and
/// objects are nested no deeper than `depth`. Of numbers with a fraction this is not said, since
/// reading one may round it.
pub open spec fn readable(t: Tree, depth: nat) -> bool
    decreases depth,
{
    match t {
        Tree::Number(x) => exists|n: i128| is_number(n) && x == #[trigger] number_of(n),
        Tree::Array(a) => depth > 0 && forall|i: int|
            0 <= i < a.len() ==> readable(#[trigger] a[i], (depth - 1) as nat),
        Tree::Object(m) => depth > 0 && forall|k: Seq<char>|
            m.contains_key(k) ==> readable(#[trigger] m[k], (depth - 1) as nat),
        _ => true,
    }
}

/// Prints a `serde_json::Value`, as its `Display` does: the compact text, which depends on what
/// the value holds and on nothing else. It has no white space around it, and a line break inside
/// a string is written as an escape. `serde_json::from_str` reads it back as the same value, if
/// the value is readable; of other values nothing is said here.
#[verifier::external_body]
fn print_value(v: &serde_json::Value) -> (r: String)
    ensures
        r@ == text_of_json(contents(*v)),
        one_line(r@),
        readable(contents(*v), READ_DEPTH as nat) ==> json_of_text(r@) == Some(contents(*v)),
{
    v.to_string()
}

/// Calls `serde_json::Number::from_i128`: the number that an integer makes, exactly where it fits
/// in 64 bits, with a sign or without.
#[verifier::external_body]
fn number_from(n: i128) -> (r: Option<serde_json::Number>)
    ensures
        match r {
            Some(x) => is_number(n) && x == number_of(n),
            None => !is_number(n),
        },
{
    serde_json::Number::from_i128(n)
}

/// Calls `serde_json::Number::clone`: the same number again.
#[verifier::external_body]
fn copy_number(n: &serde_json::Number) -> (r: serde_json::Number)
    ensures
        r == *n,
{
    n.clone()
}

// ---------------------------------------------------------------------------------------------
// The way between the two kinds of value
// ---------------------------------------------------------------------------------------------
proof fn lemma_pairs(pairs: Seq<(String, serde_json::Value)>, i: int)
    requires
        0 <= i < pairs.len(),
        distinct_keys(pairs),
    ensures
        pair_map(pairs).dom().finite(),
        pair_map(pairs).contains_key(pairs[i].0@),
        pair_map(pairs)[pairs[i].0@] == contents(pairs[i].1),
    decreases pairs.len(),
{
    let rest = pairs.drop_last();
    if i < rest.len() {
        lemma_pairs(rest, i);
        assert(pairs[i].0@ != pairs[pairs.len() - 1].0@);
    } else if rest.len() > 0 {
        lemma_pairs(rest, 0);
    } else {
        assert(pair_map(rest) =~= Map::empty());
    }
}

/// The value that a `serde_json::Value` holds.
fn import(v: serde_json::Value) -> (j: Json)
    ensures
        j@ == contents(v),
    decreases contents(v),
{
    let ghost whole = contents(v);
    match open_value(v) {
        Shape::Null => Json::Null,
        Shape::Bool(b) => Json::Bool(b),
        Shape::Number(n) => Json::Number(n),
        Shape::String(s) => Json::String(s),
        Shape::Array(items) => {
            let ghost all = items@;
            let ghost parts = all.map_values(|v: serde_json::Value| contents(v));
            let mut out: Vec<Json> = Vec::new();
            for item in it: items.into_iter()
                invariant
                    it.seq() == all,
                    whole == contents(v),
                    whole == Tree::Array(parts),
                    parts == all.map_values(|v: serde_json::Value| contents(v)),
                    json::trees(out@) == parts.take(it.index()),
            {
                assert(parts[it.index()] == contents(item));
                assert(decreases_to!(whole => whole->Array_0));
                assert(decreases_to!(whole->Array_0 => whole->Array_0[it.index()]));
                let ghost had = out@;
                let part = import(item);
                out.push(part);
                proof {
                    json::lemma_trees_push(had, part);
                }
                assert(json::trees(out@) =~= parts.take(it.index() + 1));
            }
            assert(parts.take(all.len() as int) =~= parts);
            Json::Array(out)
        },
        Shape::Object(m) => {
            let ghost held = map_contents(m);
            let pairs = open_map(m);
            let ghost all = pairs@;
            let mut out = Object::new();
            assert(all.take(0) =~= Seq::empty());
            for pair in it: pairs.into_iter()
                invariant
                    it.seq() == all,
                    whole == contents(v),
                    whole == Tree::Object(held),
                    held == pair_map(all),
                    distinct_keys(all),
                    out@ == pair_map(all.take(it.index())),
            {
                proof {
                    lemma_pairs(all, it.index());
                    assert(decreases_to!(whole => whole->Object_0));
                    assert(decreases_to!(whole->Object_0 => whole->Object_0[pair.0@]));
                    assert(all.take(it.index() + 1).drop_last() =~= all.take(it.index()));
                }
                let (key, value) = pair;
                let part = import(value);
                out.insert(key, part);
            }
            assert(all.take(all.len() as int) =~= all);
            Json::Object(out)
        },
    }
}

/// A `serde_json::Value` that holds a value.
fn export(j: &Json) -> (v: serde_json::Value)
    ensures
        contents(v) == j@,
    decreases j,
{
    match j {
        Json::Null => close_value(Shape::Null),
        Json::Bool(b) => close_value(Shape::Bool(*b)),
        Json::Number(n) => close_value(Shape::Number(copy_number(n))),
        Json::String(s) => close_value(Shape::String(s.clone())),
        Json::Array(items) => {
            let mut out: Vec<serde_json::Value> = Vec::new();
            let mut i: usize = 0;
            proof {
                json::lemma_trees(items@);
            }
            while i < items.len()
                invariant
                    *j == Json::Array(*items),
                    0 <= i <= items@.len(),
                    json::trees(items@).len() == items@.len(),
                    forall|k: int|
                        0 <= k < items@.len() ==> #[trigger] json::trees(items@)[k] == json::tree(
                            items@[k],
                        ),
                    out@.len() == i,
                    forall|k: int|
                        0 <= k < i ==> contents(#[trigger] out@[k]) == json::trees(items@)[k],
                decreases items@.len() - i,
            {
                assert(decreases_to!(j => j->Array_0));
                assert(decreases_to!(j->Array_0 => j->Array_0@));
                assert(decreases_to!(j->Array_0@ => j->Array_0@[i as int]));
                let part = export(&items[i]);
                out.push(part);
                assert(json::trees(items@)[i as int] == contents(part));
                i += 1;
            }
            assert(out@.map_values(|v: serde_json::Value| contents(v)) =~= json::trees(items@));
            close_value(Shape::Array(out))
        },
        Json::Object(o) => {
            let mut out = new_map();
            let mut i: usize = 0;
            let ghost all = o.entries@;
            assert(all.take(0) =~= Seq::empty());
            while i < o.entries.len()
                invariant
                    *j == Json::Object(*o),
                    all == o.entries@,
                    0 <= i <= all.len(),
                    map_contents(out) == json::entry_map(all.take(i as int)),
                decreases all.len() - i,
            {
                assert(all.take(i + 1).drop_last() =~= all.take(i as int));
                assert(decreases_to!(j => j->Object_0));
                assert(decreases_to!(j->Object_0 => j->Object_0.entries));
                assert(decreases_to!(j->Object_0.entries => j->Object_0.entries@));
                assert(decreases_to!(j->Object_0.entries@ => j->Object_0.entries@[i as int]));
                assert(decreases_to!(j->Object_0.entries@[i as int] => j->Object_0.entries@[i as int].1));
                let value = export(&o.entries[i].1);
                insert_entry(&mut out, o.entries[i].0.clone(), value);
                i += 1;
            }
            assert(all.take(i as int) =~= all);
            proof {
                json::lemma_members(*o);
            }
            close_value(Shape::Object(out))
        },
    }
}

// ---------------------------------------------------------------------------------------------
// Reading and writing
// ---------------------------------------------------------------------------------------------
/// The tree of an optional value.
pub open spec fn opt_tree(j: Option<Json>) -> Option<Tree> {
    match j {
        Some(j) => Some(j@),
        None => None,
    }
}

/// The JSON number of an integer.
pub fn integer(n: u64) -> (r: Json)
    ensures
        r@ == Tree::Number(number_of(n as i128)),
{
    match number_from(n as i128) {
        Some(x) => Json::Number(x),
        None => Json::Null,
    }
}

/// The value that a text writes, if it is one JSON value.
pub fn parse(s: &str) -> (r: Option<Json>)
    ensures
        opt_tree(r) == json_of_text(s@),
{
    match read_text(s) {
        Some(v) => Some(import(v)),
        None => None,
    }
}

/// The value that bytes write, if they are one JSON value.
pub fn parse_bytes(bytes: &Vec<u8>) -> (r: Option<Json>)
    ensures
        opt_tree(r) == json_of_bytes(bytes@),
{
    match read_bytes(bytes) {
        Some(v) => Some(import(v)),
        None => None,
    }
}

/// The compact text of a value. It can stand on a line of its own, and a readable value reads
/// back from it.
pub fn to_text(j: &Json) -> (r: String)
    ensures
        r@ == text_of_json(j@),
        one_line(r@),
        readable(j@, READ_DEPTH as nat) ==> json_of_text(r@) == Some(j@),
{
    print_value(&export(j))
}

} // verus!
