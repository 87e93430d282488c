//! Where the records stand in a payload, and the projection of every one of them.

use vstd::prelude::*;
use vstd::string::*;

use crate::entitlement;
use crate::entitlement::{apply, Projection};
use crate::json;
use crate::json::{Json, Object, Tree};
use crate::names;
use crate::names::NameSet;
use crate::text;
use crate::text::{parse_index, split};

verus! {

// ---------------------------------------------------------------------------------------------
// Paths
// ---------------------------------------------------------------------------------------------
/// The steps of a path: its pieces between slashes, but for the empty ones.
pub open spec fn segments(path: Seq<char>) -> Seq<Seq<char>> {
    text::pieces(path, '/').filter(|s: Seq<char>| s.len() > 0)
}

/// The steps of a path.
pub fn path_segments(path: &str) -> (r: Vec<String>)
    ensures
        text::texts(r@) == segments(path@),
{
    let pieces = split(path, '/');
    let ghost all = text::texts(pieces@);
    let mut out: Vec<String> = Vec::new();
    proof {
        reveal(Seq::filter);
        assert(text::texts(out@) =~= all.take(0).filter(|s: Seq<char>| s.len() > 0));
    }
    for piece in it: pieces.into_iter()
        invariant
            all == text::texts(it.seq()),
            text::texts(out@) == all.take(it.index()).filter(|s: Seq<char>| s.len() > 0),
    {
        let ghost had = text::texts(out@);
        proof {
            reveal(Seq::filter);
            assert(all.take(it.index() + 1).drop_last() =~= all.take(it.index()));
            assert(all[it.index()] == piece@);
        }
        if !piece.as_str().is_empty() {
            out.push(piece);
            assert(text::texts(out@) =~= had.push(all[it.index()]));
        }
    }
    assert(all.take(all.len() as int) =~= all);
    out
}

/// What one step leads to: a member of an object, or an element of an array by its index.
pub open spec fn child(t: Tree, step: Seq<char>) -> Option<Tree> {
    match t {
        Tree::Object(m) => if m.contains_key(step) {
            Some(m[step])
        } else {
            None
        },
        Tree::Array(a) => match text::number_in(step) {
            Some(n) => if n < a.len() {
                Some(a[n as int])
            } else {
                None
            },
            None => None,
        },
        _ => None,
    }
}

/// A value with `new` in the place that one step leads to.
pub open spec fn with_child(t: Tree, step: Seq<char>, new: Tree) -> Tree {
    match t {
        Tree::Object(m) => Tree::Object(m.insert(step, new)),
        Tree::Array(a) => Tree::Array(a.update(text::number_in(step)->0 as int, new)),
        _ => t,
    }
}

/// What a row of steps leads to.
pub open spec fn at(t: Tree, steps: Seq<Seq<char>>) -> Option<Tree>
    decreases steps.len(),
{
    if steps.len() == 0 {
        Some(t)
    } else {
        match child(t, steps.first()) {
            Some(c) => at(c, steps.drop_first()),
            None => None,
        }
    }
}

/// A value with `new` in the place that a row of steps leads to.
pub open spec fn put(t: Tree, steps: Seq<Seq<char>>, new: Tree) -> Tree
    decreases steps.len(),
{
    if steps.len() == 0 {
        new
    } else {
        match child(t, steps.first()) {
            Some(c) => with_child(t, steps.first(), put(c, steps.drop_first(), new)),
            None => t,
        }
    }
}

proof fn lemma_child_back(t: Tree, step: Seq<char>)
    requires
        child(t, step) is Some,
    ensures
        with_child(t, step, child(t, step)->0) == t,
{
    match t {
        Tree::Object(m) => assert(m.insert(step, m[step]) =~= m),
        Tree::Array(a) => {
            let n = text::number_in(step)->0 as int;
            assert(a.update(n, a[n]) =~= a);
        },
        _ => {},
    }
}

fn step_into<'a>(cur: &'a Json, step: &str) -> (r: Option<&'a Json>)
    ensures
        match r {
            Some(c) => child(cur@, step@) == Some(c@),
            None => child(cur@, step@) is None,
        },
{
    match cur {
        Json::Object(o) => o.get(step),
        Json::Array(items) => {
            proof {
                json::lemma_trees(items@);
            }
            let len = items.len();
            match parse_index(step) {
                Some(n) => if n < len {
                    Some(&items[n])
                } else {
                    None
                },
                None => None,
            }
        },
        _ => None,
    }
}

/// What a path leads to.
pub fn nav<'a>(root: &'a Json, path: &str) -> (r: Option<&'a Json>)
    ensures
        match r {
            Some(n) => at(root@, segments(path@)) == Some(n@),
            None => at(root@, segments(path@)) is None,
        },
{
    let steps = path_segments(path);
    let ghost all = text::texts(steps@);
    let mut cur = root;
    let mut i: usize = 0;
    assert(all.skip(0) =~= all);
    while i < steps.len()
        invariant
            0 <= i <= steps@.len(),
            all == text::texts(steps@),
            at(cur@, all.skip(i as int)) == at(root@, all),
            all == segments(path@),
        decreases steps@.len() - i,
    {
        assert(all.skip(i as int).first() == steps@[i as int]@);
        assert(all.skip(i as int).drop_first() =~= all.skip(i + 1));
        cur =
        match step_into(cur, steps[i].as_str()) {
            Some(c) => c,
            None => return None,
        };
        i += 1;
    }
    Some(cur)
}

fn step_into_mut<'a>(cur: &'a mut Json, step: &str) -> (r: Option<&'a mut Json>)
    ensures
        match r {
            Some(c) => {
                &&& child(old(cur)@, step@) == Some(json::tree(*c))
                &&& final(cur)@ == with_child(old(cur)@, step@, json::tree(*final(c)))
            },
            None => child(old(cur)@, step@) is None && final(cur)@ == old(cur)@,
        },
{
    match cur {
        Json::Object(o) => o.get_mut(step),
        Json::Array(items) => {
            let len = items.len();
            proof {
                json::lemma_trees(items@);
            }
            match parse_index(step) {
                Some(n) => if n < len {
                    let ghost was = items@;
                    let c = &mut items[n];
                    proof {
                        json::lemma_trees_update(was, n as int, *final(c));
                    }
                    Some(c)
                } else {
                    None
                },
                None => None,
            }
        },
        _ => None,
    }
}

fn walk_mut<'a>(root: &'a mut Json, steps: &Vec<String>, from: usize) -> (r: Option<&'a mut Json>)
    requires
        from <= steps@.len(),
    ensures
        match r {
            Some(n) => {
                &&& at(old(root)@, text::texts(steps@).skip(from as int)) == Some(json::tree(*n))
                &&& final(root)@ == put(
                    old(root)@,
                    text::texts(steps@).skip(from as int),
                    json::tree(*final(n)),
                )
            },
            None => {
                &&& at(old(root)@, text::texts(steps@).skip(from as int)) is None
                &&& final(root)@ == old(root)@
            },
        },
    decreases steps@.len() - from,
{
    let ghost rest = text::texts(steps@).skip(from as int);
    if from == steps.len() {
        return Some(root);
    }
    assert(rest.first() == steps@[from as int]@);
    assert(rest.drop_first() =~= text::texts(steps@).skip(from + 1));
    proof {
        if child(root@, rest.first()) is Some {
            lemma_child_back(root@, rest.first());
        }
    }
    match step_into_mut(root, steps[from].as_str()) {
        Some(c) => walk_mut(c, steps, from + 1),
        None => None,
    }
}

/// What a path leads to, to be changed in place.
pub fn nav_mut<'a>(root: &'a mut Json, path: &str) -> (r: Option<&'a mut Json>)
    ensures
        match r {
            Some(n) => {
                &&& at(old(root)@, segments(path@)) == Some(json::tree(*n))
                &&& final(root)@ == put(old(root)@, segments(path@), json::tree(*final(n)))
            },
            None => at(old(root)@, segments(path@)) is None && final(root)@ == old(root)@,
        },
{
    let steps = path_segments(path);
    assert(text::texts(steps@).skip(0) =~= text::texts(steps@));
    walk_mut(root, &steps, 0)
}

// ---------------------------------------------------------------------------------------------
// Records
// ---------------------------------------------------------------------------------------------
/// Whether a value is a record, or an array with a record among its elements.
pub open spec fn holds_records(node: Tree) -> bool {
    match node {
        Tree::Array(a) => exists|i: int| 0 <= i < a.len() && (#[trigger] a[i]) is Object,
        Tree::Object(_) => true,
        _ => false,
    }
}

/// Whether a path leads to a record or to an array of them.
pub open spec fn has_records_at(payload: Tree, path: Seq<char>) -> bool {
    match at(payload, segments(path)) {
        Some(node) => holds_records(node),
        None => false,
    }
}

/// Whether a path leads to a record (an object) or to an array of them.
pub fn has_records(payload: &Json, path: &str) -> (r: bool)
    ensures
        r == has_records_at(payload@, path@),
{
    match nav(payload, path) {
        Some(Json::Array(items)) => {
            proof {
                json::lemma_trees(items@);
            }
            let ghost all = json::trees(items@);
            let mut i: usize = 0;
            while i < items.len()
                invariant
                    0 <= i <= items@.len(),
                    all.len() == items@.len(),
                    forall|k: int|
                        0 <= k < items@.len() ==> #[trigger] all[k] == json::tree(items@[k]),
                    forall|k: int| 0 <= k < i ==> !((#[trigger] all[k]) is Object),
                    at(payload@, segments(path@)) == Some(Tree::Array(all)),
                decreases items@.len() - i,
            {
                assert(all[i as int] == json::tree(items@[i as int]));
                if let Json::Object(_) = &items[i] {
                    return true;
                }
                i += 1;
            }
            false
        },
        Some(Json::Object(_)) => true,
        _ => false,
    }
}

/// A record as a projection leaves it; anything else as it is.
pub open spec fn projected_record(t: Tree, p: Projection) -> Tree {
    match t {
        Tree::Object(m) => Tree::Object(entitlement::projected(m, p)),
        _ => t,
    }
}

/// A record, or the records of an array, as a projection leaves them.
pub open spec fn projected_node(node: Tree, p: Projection) -> Tree {
    match node {
        Tree::Array(a) => Tree::Array(a.map_values(|t: Tree| projected_record(t, p))),
        _ => projected_record(node, p),
    }
}

/// Whether a value is a record that has a field of this name.
pub open spec fn has_field(t: Tree, name: Seq<char>) -> bool {
    t is Object && t->Object_0.contains_key(name)
}

/// Whether a record, or one of the records of an array, has a field of this name.
pub open spec fn occurs(node: Tree, name: Seq<char>) -> bool {
    match node {
        Tree::Array(a) => exists|i: int| 0 <= i < a.len() && has_field(#[trigger] a[i], name),
        _ => has_field(node, name),
    }
}

/// The names that a projection withholds somewhere in a record or an array of them, in ascending
/// order.
pub open spec fn withheld_in(node: Tree, p: Projection) -> Seq<Seq<char>> {
    p.withhold.names().filter(|n: Seq<char>| occurs(node, n))
}

/// A payload with the records at a path projected.
pub open spec fn projected_at(payload: Tree, path: Seq<char>, p: Projection) -> Tree {
    match at(payload, segments(path)) {
        Some(node) => put(payload, segments(path), projected_node(node, p)),
        None => payload,
    }
}

/// The names that a projection withholds at a path, in ascending order.
pub open spec fn withheld_at(payload: Tree, path: Seq<char>, p: Projection) -> Seq<Seq<char>> {
    match at(payload, segments(path)) {
        Some(node) => withheld_in(node, p),
        None => Seq::empty(),
    }
}

/// Adds the names in a list to a set.
fn extend(set: &mut NameSet, list: Vec<String>)
    ensures
        forall|t: Seq<char>| #[trigger]
            final(set)@.contains(t) <==> old(set)@.contains(t) || text::texts(list@).contains(t),
{
    let ghost all = text::texts(list@);
    let ghost was = set@;
    for name in it: list.into_iter()
        invariant
            all == text::texts(it.seq()),
            forall|t: Seq<char>| #[trigger]
                set@.contains(t) <==> was.contains(t) || all.take(it.index()).contains(t),
    {
        let ghost before = all.take(it.index());
        let ghost now = all.take(it.index() + 1);
        let ghost had = set@;
        proof {
            assert(now =~= before.push(all[it.index()]));
            assert(all[it.index()] == name@);
        }
        set.insert(name);
        proof {
            assert forall|t: Seq<char>| #[trigger] set@.contains(t) <==> was.contains(t)
                || now.contains(t) by {
                if before.contains(t) {
                    let k = choose|k: int| 0 <= k < before.len() && before[k] == t;
                    assert(now[k] == t);
                }
                assert(now[it.index()] == all[it.index()]);
                if now.contains(t) && t != all[it.index()] {
                    let k = choose|k: int| 0 <= k < now.len() && now[k] == t;
                    assert(before[k] == t);
                }
            }
        }
    }
    assert(all.take(all.len() as int) =~= all);
}

/// Projects a record if the value is one. Adds the names that were withheld to a set.
fn project_record(t: &mut Json, p: &Projection, withheld: &mut NameSet)
    ensures
        final(t)@ == projected_record(old(t)@, *p),
        forall|n: Seq<char>| #[trigger]
            final(withheld)@.contains(n) <==> old(withheld)@.contains(n) || (p.withhold@.contains(n)
                && has_field(old(t)@, n)),
{
    let ghost was = t@;
    let ghost row = p.withhold.names();
    if let Json::Object(o) = t {
        let applied = apply(o, p);
        proof {
            use_type_invariant(&p.withhold);
            names::lemma_filter_ascending(row, |n: Seq<char>| was->Object_0.contains_key(n));
        }
        extend(withheld, applied);
        assert forall|n: Seq<char>|
            text::texts(applied@).contains(n) <==> p.withhold@.contains(n) && has_field(was, n) by {
            assert(text::texts(applied@).contains(n) <==> row.contains(n)
                && was->Object_0.contains_key(n));
        }
    }
}

/// Projects a record, or every record of an array, in place. Returns the names that were withheld.
fn project_node(node: &mut Json, p: &Projection) -> (r: NameSet)
    ensures
        final(node)@ == projected_node(old(node)@, *p),
        r.names() == withheld_in(old(node)@, *p),
{
    let ghost was = node@;
    let mut withheld = NameSet::new();
    match node {
        Json::Array(items) => {
            let ghost all = json::trees(items@);
            let n = items.len();
            let mut i: usize = 0;
            proof {
                json::lemma_trees(items@);
            }
            while i < n
                invariant
                    0 <= i <= n,
                    n == items@.len(),
                    n == all.len(),
                    json::trees(items@).len() == n,
                    forall|k: int|
                        0 <= k < i ==> #[trigger] json::trees(items@)[k] == projected_record(
                            all[k],
                            *p,
                        ),
                    forall|k: int| i <= k < n ==> #[trigger] json::trees(items@)[k] == all[k],
                    forall|t: Seq<char>| #[trigger]
                        withheld@.contains(t) <==> p.withhold@.contains(t) && exists|k: int|
                            0 <= k < i && has_field(#[trigger] all[k], t),
                decreases n - i,
            {
                let ghost old_items = items@;
                let ghost had = withheld@;
                proof {
                    json::lemma_trees(old_items);
                    assert(json::trees(old_items)[i as int] == json::tree(old_items[i as int]));
                }
                project_record(&mut items[i], p, &mut withheld);
                proof {
                    json::lemma_trees_update(old_items, i as int, items@[i as int]);
                    assert(items@ =~= old_items.update(i as int, items@[i as int]));
                    assert forall|t: Seq<char>| #[trigger]
                        withheld@.contains(t) <==> p.withhold@.contains(t) && exists|k: int|
                            0 <= k < i + 1 && has_field(#[trigger] all[k], t) by {
                        if has_field(all[i as int], t) {
                        }
                    }
                }
                i += 1;
            }
            assert(json::trees(items@) =~= all.map_values(|t: Tree| projected_record(t, *p)));
        },
        _ => {
            project_record(node, p, &mut withheld);
        },
    }
    proof {
        use_type_invariant(&withheld);
        use_type_invariant(&p.withhold);
        let row = p.withhold.names();
        let chosen = |n: Seq<char>| occurs(was, n);
        names::lemma_filter_ascending(row, chosen);
        assert forall|t: Seq<char>| withheld.names().contains(t) <==> row.filter(
            chosen,
        ).contains(t) by {
            assert(withheld@.contains(t) <==> withheld.names().contains(t));
            assert(p.withhold@.contains(t) <==> row.contains(t));
        }
        names::lemma_ascending_unique(withheld.names(), row.filter(chosen));
    }
    withheld
}

/// Projects the records at a path in place. Returns the names that were withheld.
pub fn project_records(payload: &mut Json, path: &str, p: &Projection) -> (r: NameSet)
    ensures
        final(payload)@ == projected_at(old(payload)@, path@, *p),
        r.names() == withheld_at(old(payload)@, path@, *p),
{
    match nav_mut(payload, path) {
        Some(node) => project_node(node, p),
        None => NameSet::new(),
    }
}

} // verus!
