//! JSON values: what the policy reads and rewrites in catalog replies and response bodies.

use vstd::prelude::*;
use vstd::string::*;

use crate::text;
use crate::text::same;

verus! {

/// Declares `serde_json::Number`: a number is carried from a document that was read to the one
/// that is written, and never looked into.
#[verifier::external_type_specification]
#[verifier::external_body]
pub struct ExNumber(serde_json::Number);

/// A JSON value as a mathematical tree.
pub enum Tree {
    Null,
    Bool(bool),
    Number(serde_json::Number),
    String(Seq<char>),
    Array(Seq<Tree>),
    Object(Map<Seq<char>, Tree>),
}

/// A JSON value.
#[derive(Debug)]
pub enum Json {
    Null,
    Bool(bool),
    Number(serde_json::Number),
    String(String),
    Array(Vec<Json>),
    Object(Object),
}

/// A JSON object: values under names. Of two entries under one name the later counts.
#[derive(Debug)]
pub struct Object {
    pub(crate) entries: Vec<(String, Json)>,
}

/// The tree that a value stands for.
pub open spec fn tree(j: Json) -> Tree
    decreases j,
{
    match j {
        Json::Null => Tree::Null,
        Json::Bool(b) => Tree::Bool(b),
        Json::Number(n) => Tree::Number(n),
        Json::String(s) => Tree::String(s@),
        Json::Array(items) => Tree::Array(trees(items@)),
        Json::Object(o) => Tree::Object(members(o)),
    }
}

/// The trees that a row of values stands for.
pub open spec fn trees(items: Seq<Json>) -> Seq<Tree>
    decreases items,
{
    if items.len() == 0 {
        Seq::empty()
    } else {
        trees(items.drop_last()).push(tree(items.last()))
    }
}

/// What an object holds under each of its names.
pub closed spec fn members(o: Object) -> Map<Seq<char>, Tree>
    decreases o,
{
    entry_map(o.entries@)
}

/// What a row of entries holds under each name.
pub open spec fn entry_map(entries: Seq<(String, Json)>) -> Map<Seq<char>, Tree>
    decreases entries,
{
    if entries.len() == 0 {
        Map::empty()
    } else {
        entry_map(entries.drop_last()).insert(entries.last().0@, tree(entries.last().1))
    }
}

impl View for Json {
    type V = Tree;

    open spec fn view(&self) -> Tree {
        tree(*self)
    }
}

impl View for Object {
    type V = Map<Seq<char>, Tree>;

    open spec fn view(&self) -> Map<Seq<char>, Tree> {
        members(*self)
    }
}

// ---------------------------------------------------------------------------------------------
// Rows and entries
// ---------------------------------------------------------------------------------------------
pub proof fn lemma_trees(items: Seq<Json>)
    ensures
        trees(items).len() == items.len(),
        forall|i: int| 0 <= i < items.len() ==> #[trigger] trees(items)[i] == tree(items[i]),
    decreases items.len(),
{
    if items.len() > 0 {
        lemma_trees(items.drop_last());
    }
}

pub proof fn lemma_trees_push(items: Seq<Json>, item: Json)
    ensures
        trees(items.push(item)) == trees(items).push(tree(item)),
{
    assert(items.push(item).drop_last() =~= items);
}

pub proof fn lemma_trees_update(items: Seq<Json>, i: int, item: Json)
    requires
        0 <= i < items.len(),
    ensures
        trees(items.update(i, item)) == trees(items).update(i, tree(item)),
{
    lemma_trees(items);
    lemma_trees(items.update(i, item));
    assert(trees(items.update(i, item)) =~= trees(items).update(i, tree(item)));
}

proof fn lemma_entries_domain(entries: Seq<(String, Json)>, key: Seq<char>)
    ensures
        entry_map(entries).contains_key(key) == exists|i: int|
            0 <= i < entries.len() && #[trigger] entries[i].0@ == key,
    decreases entries.len(),
{
    if entries.len() > 0 {
        let rest = entries.drop_last();
        lemma_entries_domain(rest, key);
        if entries.last().0@ == key {
            assert(entries[entries.len() - 1].0@ == key);
        }
        if entry_map(rest).contains_key(key) {
            let i = choose|i: int| 0 <= i < rest.len() && #[trigger] rest[i].0@ == key;
            assert(entries[i].0@ == key);
        }
        if exists|i: int| 0 <= i < entries.len() && #[trigger] entries[i].0@ == key {
            let i = choose|i: int| 0 <= i < entries.len() && #[trigger] entries[i].0@ == key;
            if i < rest.len() {
                assert(rest[i].0@ == key);
            }
        }
    }
}

/// Whether the entry at `i` is the last one under its name.
spec fn last_under(entries: Seq<(String, Json)>, i: int) -> bool {
    &&& 0 <= i < entries.len()
    &&& forall|j: int| i < j < entries.len() ==> #[trigger] entries[j].0@ != entries[i].0@
}

proof fn lemma_entries_last(entries: Seq<(String, Json)>, i: int)
    requires
        last_under(entries, i),
    ensures
        entry_map(entries).contains_key(entries[i].0@),
        entry_map(entries)[entries[i].0@] == tree(entries[i].1),
    decreases entries.len(),
{
    if i < entries.len() - 1 {
        lemma_entries_last(entries.drop_last(), i);
    }
}

proof fn lemma_entries_update(entries: Seq<(String, Json)>, i: int, value: Json)
    requires
        last_under(entries, i),
    ensures
        entry_map(entries.update(i, (entries[i].0, value))) == entry_map(entries).insert(
            entries[i].0@,
            tree(value),
        ),
    decreases entries.len(),
{
    let key = entries[i].0@;
    let new = entries.update(i, (entries[i].0, value));
    if i < entries.len() - 1 {
        let rest = entries.drop_last();
        lemma_entries_update(rest, i, value);
        assert(new.drop_last() =~= rest.update(i, (rest[i].0, value)));
        assert(new.last() == entries.last());
        assert(entries.last().0@ != key);
        assert(entry_map(new) =~= entry_map(entries).insert(key, tree(value)));
    } else {
        assert(new.drop_last() =~= entries.drop_last());
        assert(entry_map(new) =~= entry_map(entries).insert(key, tree(value)));
    }
}

pub(crate) proof fn lemma_members(o: Object)
    ensures
        o@ == entry_map(o.entries@),
{
}

// ---------------------------------------------------------------------------------------------
// Objects
// ---------------------------------------------------------------------------------------------
impl Object {
    /// The object without members.
    pub fn new() -> (r: Object)
        ensures
            r@ == Map::<Seq<char>, Tree>::empty(),
    {
        Object { entries: Vec::new() }
    }

    /// The place of the entry that counts under a name.
    fn find(&self, key: &str) -> (r: Option<usize>)
        ensures
            match r {
                Some(i) => {
                    &&& last_under(self.entries@, i as int)
                    &&& self.entries@[i as int].0@ == key@
                    &&& self@.contains_key(key@)
                    &&& self@[key@] == tree(self.entries@[i as int].1)
                },
                None => {
                    &&& !self@.contains_key(key@)
                    &&& forall|j: int|
                        0 <= j < self.entries@.len() ==> #[trigger] self.entries@[j].0@ != key@
                },
            },
    {
        let mut i: usize = self.entries.len();
        while i > 0
            invariant
                0 <= i <= self.entries@.len(),
                forall|j: int|
                    i <= j < self.entries@.len() ==> #[trigger] self.entries@[j].0@ != key@,
            decreases i,
        {
            if same(self.entries[i - 1].0.as_str(), key) {
                proof {
                    lemma_entries_last(self.entries@, i - 1);
                }
                return Some(i - 1);
            }
            i -= 1;
        }
        proof {
            lemma_entries_domain(self.entries@, key@);
        }
        None
    }

    /// Whether there is a value under a name.
    pub fn contains_key(&self, key: &str) -> (r: bool)
        ensures
            r == self@.contains_key(key@),
    {
        self.find(key).is_some()
    }

    /// The value under a name.
    pub fn get(&self, key: &str) -> (r: Option<&Json>)
        ensures
            match r {
                Some(v) => self@.contains_key(key@) && v@ == self@[key@],
                None => !self@.contains_key(key@),
            },
    {
        match self.find(key) {
            Some(i) => Some(&self.entries[i].1),
            None => None,
        }
    }

    /// The value under a name, to be changed in place.
    pub fn get_mut<'a>(&'a mut self, key: &str) -> (r: Option<&'a mut Json>)
        ensures
            match r {
                Some(v) => {
                    &&& old(self)@.contains_key(key@)
                    &&& tree(*v) == old(self)@[key@]
                    &&& final(self)@ == old(self)@.insert(key@, tree(*final(v)))
                },
                None => !old(self)@.contains_key(key@) && *final(self) == *old(self),
            },
    {
        match self.find(key) {
            Some(i) => {
                let ghost entries = self.entries@;
                let r = &mut self.entries[i].1;
                proof {
                    lemma_entries_update(entries, i as int, *final(r));
                    assert(after_borrow(self).entries@ =~= entries.update(
                        i as int,
                        (entries[i as int].0, *final(r)),
                    ));
                }
                Some(r)
            },
            None => None,
        }
    }

    /// Puts a value under a name, in place of the one that was there.
    pub fn insert(&mut self, key: String, value: Json)
        ensures
            final(self)@ == old(self)@.insert(key@, value@),
    {
        match self.find(key.as_str()) {
            Some(i) => {
                let ghost entries = self.entries@;
                proof {
                    lemma_entries_update(entries, i as int, value);
                }
                self.entries[i].1 = value;
                assert(self.entries@ =~= entries.update(
                    i as int,
                    (entries[i as int].0, value),
                ));
            },
            None => {
                let ghost entries = self.entries@;
                self.entries.push((key, value));
                assert(self.entries@.drop_last() =~= entries);
            },
        }
    }

    /// Takes away what is under a name.
    pub fn remove(&mut self, key: &str)
        ensures
            final(self)@ == old(self)@.remove(key@),
    {
        let ghost all = self.entries@;
        let mut entries: Vec<(String, Json)> = Vec::new();
        core::mem::swap(&mut entries, &mut self.entries);
        let mut kept: Vec<(String, Json)> = Vec::new();
        for entry in it: entries.into_iter()
            invariant
                it.seq() == all,
                entry_map(kept@) == entry_map(all.take(it.index())).remove(key@),
        {
            let ghost had = kept@;
            assert(all.take(it.index() + 1).drop_last() =~= all.take(it.index()));
            if !same(entry.0.as_str(), key) {
                kept.push(entry);
                assert(kept@.drop_last() =~= had);
            }
            assert(entry_map(kept@) =~= entry_map(all.take(it.index() + 1)).remove(key@));
        }
        assert(all.take(all.len() as int) =~= all);
        self.entries = kept;
    }
}

// ---------------------------------------------------------------------------------------------
// Members of a value
// ---------------------------------------------------------------------------------------------
/// What a value holds under a name; nothing unless it is an object that has the name.
pub open spec fn member_of(t: Tree, key: Seq<char>) -> Option<Tree> {
    match t {
        Tree::Object(m) => if m.contains_key(key) {
            Some(m[key])
        } else {
            None
        },
        _ => None,
    }
}

/// The string that a value holds under a name, if it holds one there.
pub open spec fn string_of(t: Tree, key: Seq<char>) -> Option<Seq<char>> {
    match member_of(t, key) {
        Some(Tree::String(s)) => Some(s),
        _ => None,
    }
}

/// An object with a value under a name, in place of the one that was there.
pub open spec fn with_member(t: Tree, key: Seq<char>, value: Tree) -> Tree {
    match t {
        Tree::Object(m) => Tree::Object(m.insert(key, value)),
        _ => t,
    }
}

impl Json {
    /// What is held under a name; nothing unless this is an object that has the name.
    pub fn member(&self, key: &str) -> (r: Option<&Json>)
        ensures
            match r {
                Some(v) => member_of(self@, key@) == Some(v@),
                None => member_of(self@, key@) is None,
            },
    {
        match self {
            Json::Object(o) => o.get(key),
            _ => None,
        }
    }

    /// What is held under a name, to be changed in place.
    pub fn member_mut<'a>(&'a mut self, key: &str) -> (r: Option<&'a mut Json>)
        ensures
            match r {
                Some(v) => {
                    &&& member_of(old(self)@, key@) == Some(tree(*v))
                    &&& final(self)@ == with_member(old(self)@, key@, tree(*final(v)))
                },
                None => member_of(old(self)@, key@) is None && final(self)@ == old(self)@,
            },
    {
        match self {
            Json::Object(o) => o.get_mut(key),
            _ => None,
        }
    }

    /// The string that is held under a name, if one is held there.
    pub fn string(&self, key: &str) -> (r: Option<&String>)
        ensures
            match r {
                Some(s) => string_of(self@, key@) == Some(s@),
                None => string_of(self@, key@) is None,
            },
    {
        match self.member(key) {
            Some(Json::String(s)) => Some(s),
            _ => None,
        }
    }

    /// Puts a value under a name. Only an object changes.
    pub fn set_member(&mut self, key: &str, value: Json)
        ensures
            final(self)@ == with_member(old(self)@, key@, value@),
    {
        if let Json::Object(o) = self {
            o.insert(key.to_owned(), value);
        }
    }
}

// ---------------------------------------------------------------------------------------------
// Building values
// ---------------------------------------------------------------------------------------------
/// A JSON string, or null where there is none.
pub open spec fn string_or_null(s: Option<Seq<char>>) -> Tree {
    match s {
        Some(s) => Tree::String(s),
        None => Tree::Null,
    }
}

/// A JSON string, or null where there is none.
pub fn text_or_null(s: &Option<String>) -> (r: Json)
    ensures
        r@ == string_or_null(text::opt_text(*s)),
{
    match s {
        Some(s) => Json::String(s.clone()),
        None => Json::Null,
    }
}

/// A row of texts as a row of JSON strings.
pub open spec fn strings(row: Seq<Seq<char>>) -> Seq<Tree> {
    row.map_values(|s: Seq<char>| Tree::String(s))
}

/// A list of strings as a JSON array.
pub fn string_array(list: Vec<String>) -> (r: Json)
    ensures
        r@ == Tree::Array(strings(text::texts(list@))),
{
    let ghost all = text::texts(list@);
    let mut out: Vec<Json> = Vec::new();
    for s in it: list.into_iter()
        invariant
            all == text::texts(it.seq()),
            trees(out@) == strings(all.take(it.index())),
    {
        let ghost had = out@;
        let ghost word = s@;
        let item = Json::String(s);
        out.push(item);
        proof {
            lemma_trees_push(had, item);
            assert(all[it.index()] == word);
            assert(all.take(it.index() + 1) =~= all.take(it.index()).push(word));
            assert(trees(out@) =~= strings(all.take(it.index() + 1)));
        }
    }
    assert(all.take(all.len() as int) =~= all);
    Json::Array(out)
}

/// An object with one member.
pub open spec fn single(key: Seq<char>, value: Tree) -> Tree {
    Tree::Object(Map::<Seq<char>, Tree>::empty().insert(key, value))
}

/// An object with one member.
pub fn single_object(key: &str, value: Json) -> (r: Json)
    ensures
        r@ == single(key@, value@),
{
    let mut o = Object::new();
    o.insert(key.to_owned(), value);
    Json::Object(o)
}

} // verus!
