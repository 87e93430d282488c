//! What the operations on payloads and messages come to, said of the values themselves.

use vstd::prelude::*;
use vstd::string::*;

use crate::cdgc::CachedFieldMap;
use crate::entitlement;
use crate::entitlement::{GovernedField, MaskMode, Projection};
use crate::json;
use crate::json::{Json, Object, Tree};
use crate::laws;
use crate::laws_text;
use crate::names;
use crate::records;
use crate::response;
use crate::text;
use crate::wire;

verus! {

// ---------------------------------------------------------------------------------------------
// Values and their trees
// ---------------------------------------------------------------------------------------------
/// What stands for a value: a tree of the same shape, a row of the same values, nothing for
/// nothing.
pub proof fn law_what_values_stand_for(
    b: bool,
    n: serde_json::Number,
    s: String,
    items: Vec<Json>,
    o: Object,
    j: Json,
    list: Vec<String>,
    f: GovernedField,
    fields: Vec<GovernedField>,
)
    ensures
        json::tree(Json::Null) == Tree::Null,
        json::tree(Json::Bool(b)) == Tree::Bool(b),
        json::tree(Json::Number(n)) == Tree::Number(n),
        json::tree(Json::String(s)) == Tree::String(s@),
        json::tree(Json::Object(o)) == Tree::Object(o@),
        json::tree(Json::Array(items)) == Tree::Array(
            Seq::new(items@.len(), |i: int| json::tree(items@[i])),
        ),
        wire::opt_tree(Some(j)) == Some(j@),
        wire::opt_tree(None) is None,
        j@ == json::tree(j),
        text::opt_text(Some(s)) == Some(s@),
        text::opt_text(None) is None,
        text::texts(list@) == Seq::new(list@.len(), |i: int| list@[i]@),
        entitlement::field_views(fields@) == Seq::new(fields@.len(), |i: int| fields@[i]@),
        f@.name == f.name@,
        f@.sensitive == f.sensitive,
        f@.term == (match f.term {
            Some(t) => Some(t@),
            None => None,
        }),
{
    json::lemma_trees(items@);
    assert(json::trees(items@) =~= Seq::new(items@.len(), |i: int| json::tree(items@[i])));
    assert(text::texts(list@) =~= Seq::new(list@.len(), |i: int| list@[i]@));
    assert(entitlement::field_views(fields@) =~= Seq::new(fields@.len(), |i: int| fields@[i]@));
}

// ---------------------------------------------------------------------------------------------
// Members
// ---------------------------------------------------------------------------------------------
/// Whether a value is an object with a certain value under a name.
pub open spec fn holds(t: Tree, key: Seq<char>, value: Tree) -> bool {
    match t {
        Tree::Object(m) => m.contains_key(key) && m[key] == value,
        _ => false,
    }
}

/// Whether a value is an object with some value under a name.
pub open spec fn owns(t: Tree, key: Seq<char>) -> bool {
    match t {
        Tree::Object(m) => m.contains_key(key),
        _ => false,
    }
}

/// What is held under a name, and what it is to put something there.
pub proof fn law_members(t: Tree, key: Seq<char>, value: Tree, s: Seq<char>)
    ensures
        json::member_of(t, key) == Some(value) <==> holds(t, key, value),
        json::member_of(t, key) is None <==> !owns(t, key),
        json::string_of(t, key) == Some(s) <==> holds(t, key, Tree::String(s)),
        json::string_of(t, key) is None <==> !(owns(t, key) && t->Object_0[key] is String),
        match t {
            Tree::Object(m) => json::with_member(t, key, value) == Tree::Object(
                m.insert(key, value),
            ),
            _ => json::with_member(t, key, value) == t,
        },
{
}

/// Texts as JSON: a string each, in their order; null where there is none.
pub proof fn law_texts_as_json(row: Seq<Seq<char>>, s: Seq<char>)
    ensures
        json::string_or_null(Some(s)) == Tree::String(s),
        json::string_or_null(None) == Tree::Null,
        json::strings(row).len() == row.len(),
        forall|i: int| 0 <= i < row.len() ==> #[trigger] json::strings(row)[i] == Tree::String(row[i]),
        holds(json::single(s, Tree::Null), s, Tree::Null),
{
}

/// What is readable: everything that is no number and no container, every integer of 64 bits, and
/// every array or object of values that are readable one level down.
pub proof fn law_what_is_readable(
    s: Seq<char>,
    b: bool,
    n: i128,
    a: Seq<Tree>,
    m: Map<Seq<char>, Tree>,
    depth: nat,
)
    ensures
        wire::readable(Tree::Null, depth),
        wire::readable(Tree::Bool(b), depth),
        wire::readable(Tree::String(s), depth),
        i64::MIN <= n <= u64::MAX ==> wire::readable(Tree::Number(wire::number_of(n)), depth),
        (forall|i: int| 0 <= i < a.len() ==> wire::readable(#[trigger] a[i], depth))
            ==> wire::readable(Tree::Array(a), depth + 1),
        (forall|k: Seq<char>| m.contains_key(k) ==> wire::readable(#[trigger] m[k], depth))
            ==> wire::readable(Tree::Object(m), depth + 1),
        wire::READ_DEPTH == 127,
{
    if i64::MIN <= n <= u64::MAX {
        assert(wire::is_number(n));
    }
}

// ---------------------------------------------------------------------------------------------
// Paths
// ---------------------------------------------------------------------------------------------
/// The steps of a path are the texts between its slashes, character for character, but for the
/// empty ones.
pub proof fn law_steps_of_a_path(a: Seq<char>, b: Seq<char>)
    ensures
        records::segments(Seq::<char>::empty()) == Seq::<Seq<char>>::empty(),
        a.len() > 0 && laws_text::lacks(a, '/') ==> records::segments(a) == seq![a],
        records::segments(a.push('/') + b) == records::segments(a) + records::segments(b),
{
    let keep = |s: Seq<char>| s.len() > 0;
    let none = Seq::<char>::empty();
    assert(records::segments(none) =~= Seq::<Seq<char>>::empty()) by {
        reveal(Seq::filter);
        let one = seq![none];
        text::lemma_one_piece(none, '/');
        assert(one.drop_last() =~= Seq::<Seq<char>>::empty());
        assert(one.last() == none);
        assert(one.drop_last().filter(keep).len() == 0);
        assert(one.filter(keep) == one.drop_last().filter(keep));
    }
    if a.len() > 0 && laws_text::lacks(a, '/') {
        text::lemma_one_piece(a, '/');
        assert(records::segments(a) =~= seq![a]) by {
            reveal(Seq::filter);
            assert(seq![a].drop_last() =~= Seq::<Seq<char>>::empty());
            assert(seq![a].last() == a);
        }
    }
    text::lemma_pieces_joined(a, '/', b);
    Seq::filter_distributes_over_add(text::pieces(a, '/'), text::pieces(b, '/'), keep);
}

/// The steps of texts with slashes between them are these texts.
pub proof fn law_paths_read_back(row: Seq<Seq<char>>)
    requires
        laws_text::all_lack(row, '/'),
        forall|i: int| 0 <= i < row.len() ==> (#[trigger] row[i]).len() > 0,
    ensures
        records::segments(laws_text::joined(row, '/')) == row,
    decreases row.len(),
{
    if row.len() == 0 {
        law_steps_of_a_path(Seq::empty(), Seq::empty());
        assert(row =~= Seq::<Seq<char>>::empty());
    } else {
        assert(laws_text::lacks(row[row.len() - 1], '/'));
        law_steps_of_a_path(row.last(), Seq::empty());
        if row.len() == 1 {
            assert(seq![row[0]] =~= row);
        } else {
            let rest = row.drop_last();
            assert forall|i: int| 0 <= i < rest.len() implies laws_text::lacks(
                #[trigger] rest[i],
                '/',
            ) && rest[i].len() > 0 by {
                assert(laws_text::lacks(row[i], '/'));
                assert(row[i].len() > 0);
            }
            law_paths_read_back(rest);
            law_steps_of_a_path(laws_text::joined(rest, '/'), row.last());
            assert(rest + seq![row.last()] =~= row);
        }
    }
}

/// A step leads to the member of its name, or to the element of its number, and from other values
/// nowhere.
pub proof fn law_steps(
    m: Map<Seq<char>, Tree>,
    a: Seq<Tree>,
    step: Seq<char>,
    n: nat,
    t: Tree,
    new: Tree,
)
    ensures
        records::child(Tree::Object(m), step) == (if m.contains_key(step) {
            Some(m[step])
        } else {
            None
        }),
        records::with_child(Tree::Object(m), step, new) == Tree::Object(m.insert(step, new)),
        text::number_in(step) is None ==> records::child(Tree::Array(a), step) is None,
        text::number_in(step) == Some(n) ==> {
            &&& n < a.len() ==> records::child(Tree::Array(a), step) == Some(a[n as int])
            &&& n < a.len() ==> records::with_child(Tree::Array(a), step, new) == Tree::Array(
                a.update(n as int, new),
            )
            &&& n >= a.len() ==> records::child(Tree::Array(a), step) is None
        },
        n < a.len() ==> records::child(Tree::Array(a), text::decimal(n)) == Some(a[n as int]),
        !(t is Object) && !(t is Array) ==> records::child(t, step) is None,
{
    laws::law_decimals_read_back(n, n);
}

/// A path leads where its steps lead, one after another.
pub proof fn law_paths(t: Tree, step: Seq<char>, rest: Seq<Seq<char>>, new: Tree)
    ensures
        records::at(t, Seq::<Seq<char>>::empty()) == Some(t),
        records::at(t, seq![step] + rest) == (match records::child(t, step) {
            Some(c) => records::at(c, rest),
            None => None,
        }),
        records::put(t, Seq::<Seq<char>>::empty(), new) == new,
        records::child(t, step) matches Some(c) ==> records::put(t, seq![step] + rest, new)
            == records::with_child(t, step, records::put(c, rest, new)),
{
    let steps = seq![step] + rest;
    assert(steps.first() == step);
    assert(steps.drop_first() =~= rest);
}

// ---------------------------------------------------------------------------------------------
// Records
// ---------------------------------------------------------------------------------------------
/// Where there are records: an object is one, and an array has them if one of its elements is an
/// object, whichever.
pub proof fn law_where_records_are(payload: Tree, path: Seq<char>, a: Seq<Tree>, i: int)
    ensures
        records::at(payload, records::segments(path)) is None ==> !records::has_records_at(
            payload,
            path,
        ),
        records::at(payload, records::segments(path)) matches Some(node) ==> {
            &&& node is Object ==> records::has_records_at(payload, path)
            &&& node == Tree::Array(a) && 0 <= i < a.len() && a[i] is Object
                ==> records::has_records_at(payload, path)
            &&& node == Tree::Array(a) && (forall|j: int|
                0 <= j < a.len() ==> !((#[trigger] a[j]) is Object)) ==> !records::has_records_at(
                payload,
                path,
            )
            &&& !(node is Object) && !(node is Array) ==> !records::has_records_at(payload, path)
        },
{
}

/// A record as it goes out: every field that is not withheld as it was, every withheld field that
/// was there masked, null or gone, and no other field.
pub open spec fn shown(
    before: Map<Seq<char>, Tree>,
    after: Map<Seq<char>, Tree>,
    p: Projection,
) -> bool {
    forall|k: Seq<char>|
        #![trigger after.contains_key(k)]
        #![trigger after[k]]
        if !before.contains_key(k) {
            !after.contains_key(k)
        } else if !p.withhold@.contains(k) {
            after.contains_key(k) && after[k] == before[k]
        } else {
            match p.mode {
                MaskMode::Mask => after.contains_key(k) && after[k] == Tree::String(p.token@),
                MaskMode::Nullify => after.contains_key(k) && after[k] == Tree::Null,
                MaskMode::Drop => !after.contains_key(k),
            }
        }
}

/// What a projection does to one record.
pub proof fn law_records_are_shown(before: Map<Seq<char>, Tree>, p: Projection)
    ensures
        shown(before, entitlement::projected(before, p), p),
{
}

/// What a projection does at its path: a record there, or every record in an array there, is
/// shown as it is to be, and elements that are no records stay.
pub proof fn law_payloads_are_shown(payload: Tree, path: Seq<char>, p: Projection)
    ensures
        records::at(payload, records::segments(path)) is None ==> records::projected_at(
            payload,
            path,
            p,
        ) == payload,
        records::at(payload, records::segments(path)) matches Some(node) ==> {
            let after = records::at(
                records::projected_at(payload, path, p),
                records::segments(path),
            );
            &&& after is Some
            &&& node matches Tree::Object(m) ==> after->0 is Object && shown(
                m,
                after->0->Object_0,
                p,
            )
            &&& node matches Tree::Array(a) ==> {
                &&& after->0 is Array
                &&& after->0->Array_0.len() == a.len()
                &&& forall|i: int|
                    #![trigger after->0->Array_0[i]]
                    0 <= i < a.len() ==> match a[i] {
                        Tree::Object(m) => after->0->Array_0[i] is Object && shown(
                            m,
                            after->0->Array_0[i]->Object_0,
                            p,
                        ),
                        _ => after->0->Array_0[i] == a[i],
                    }
            }
            &&& !(node is Object) && !(node is Array) ==> after == Some(node)
        },
{
    if records::at(payload, records::segments(path)) is Some {
        laws::law_every_record_is_projected(payload, path, p);
    }
}

/// Which names are reported as withheld: those that are to be withheld and that the record at the
/// path has, or one of the records in the array there.
pub proof fn law_names_that_are_reported(payload: Tree, path: Seq<char>, p: Projection, n: Seq<char>)
    requires
        names::ascending(p.withhold.names()),
    ensures
        records::withheld_at(payload, path, p).contains(n) <==> p.withhold@.contains(n) && (
        match records::at(payload, records::segments(path)) {
            Some(Tree::Object(m)) => m.contains_key(n),
            Some(Tree::Array(a)) => exists|i: int| 0 <= i < a.len() && owns(#[trigger] a[i], n),
            _ => false,
        }),
        names::ascending(records::withheld_at(payload, path, p)),
{
    laws::law_withheld_names_are_reported(payload, path, p);
    if let Some(Tree::Array(a)) = records::at(payload, records::segments(path)) {
        assert forall|i: int| 0 <= i < a.len() implies records::has_field(#[trigger] a[i], n) == owns(
            a[i],
            n,
        ) by {}
    }
}

/// Which names are returned when one record is projected: those that are to be withheld and that
/// the record has, in ascending order.
pub proof fn law_names_that_are_applied(
    row: Seq<Seq<char>>,
    record: Map<Seq<char>, Tree>,
    n: Seq<char>,
)
    requires
        names::ascending(row),
    ensures
        entitlement::names_present(row, record).contains(n) <==> row.contains(n)
            && record.contains_key(n),
        names::ascending(entitlement::names_present(row, record)),
{
    names::lemma_filter_ascending(row, |t: Seq<char>| record.contains_key(t));
}

// ---------------------------------------------------------------------------------------------
// Framing
// ---------------------------------------------------------------------------------------------
/// A body that is no event stream carries what its whole text writes, line breaks and all.
pub proof fn law_whole_bodies_are_read(body: Seq<char>)
    ensures
        response::message_in(body, false) == wire::json_of_text(body),
{
}

/// How a message is framed.
pub proof fn law_frames(message: Seq<char>)
    ensures
        response::framed(message, false) == message,
        response::framed(message, true) == "event: message\ndata: "@ + message + "\n\n"@,
{
}

/// Whether a line carries no JSON: it is no data line, whatever white space it begins with, or its
/// data are none.
pub open spec fn carries_nothing(line: Seq<char>) -> bool {
    forall|indent: Seq<char>, pre: Seq<char>, core: Seq<char>, post: Seq<char>|
        #![trigger indent + ("data:"@ + (pre + core + post))]
        laws_text::all_white(indent) && laws_text::all_white(pre) && laws_text::all_white(post)
            && laws_text::is_core(core) && line == indent + ("data:"@ + (pre + core + post))
            ==> wire::json_of_text(core) is None
}

proof fn lemma_data_line(indent: Seq<char>, pre: Seq<char>, core: Seq<char>, post: Seq<char>)
    requires
        laws_text::all_white(indent),
        laws_text::all_white(pre),
        laws_text::all_white(post),
        laws_text::is_core(core),
    ensures
        response::event_in(indent + ("data:"@ + (pre + core + post))) == wire::json_of_text(core),
{
    let rest = pre + core + post;
    let tail = "data:"@ + rest;
    let none = Seq::<char>::empty();
    reveal_strlit("data:");
    assert(tail.first() == 'd');
    let line = indent + tail;
    laws_text::law_trimming(pre, core, post);
    laws_text::law_every_text_has_a_core(tail);
    let (a, c, b) = choose|a: Seq<char>, c: Seq<char>, b: Seq<char>|
        #![trigger a + c + b]
        laws_text::all_white(a) && laws_text::is_core(c) && laws_text::all_white(b) && tail == a + c
            + b;
    assert(a.len() == 0) by {
        if a.len() > 0 {
            assert(laws_text::white(a[0]));
            assert(tail[0] == a[0]);
        }
    }
    assert(c.len() > 0) by {
        if c.len() == 0 {
            assert(laws_text::white(b[0]));
            assert(tail[0] == b[0]);
        }
    }
    assert(tail =~= c + b);
    assert(line =~= indent + c + b);
    laws_text::law_trimming(indent, c, b);
    assert(text::trimmed_start(line) == tail);
    laws_text::law_prefixes("data:"@, rest, tail);
}

proof fn lemma_carries_nothing(line: Seq<char>)
    requires
        carries_nothing(line),
    ensures
        response::event_in(line) is None,
{
    if response::data_of(line) is Some {
        laws_text::law_every_text_has_a_core(line);
        let (a, c, b) = choose|a: Seq<char>, c: Seq<char>, b: Seq<char>|
            #![trigger a + c + b]
            laws_text::all_white(a) && laws_text::is_core(c) && laws_text::all_white(b) && line == a
                + c + b;
        laws_text::law_trimming(a, c, b);
        let start = text::trimmed_start(line);
        reveal_strlit("data:");
        laws_text::law_prefixes("data:"@, Seq::empty(), start);
        assert(c.len() > 0);
        let rest = text::after_prefix(start, "data:"@)->0;
        assert(start == "data:"@ + rest);
        laws_text::law_every_text_has_a_core(rest);
        let (pre, core, post) = choose|pre: Seq<char>, core: Seq<char>, post: Seq<char>|
            #![trigger pre + core + post]
            laws_text::all_white(pre) && laws_text::is_core(core) && laws_text::all_white(post)
                && rest == pre + core + post;
        laws_text::law_trimming(pre, core, post);
        assert(line =~= a + ("data:"@ + (pre + core + post)));
        assert(wire::json_of_text(core) is None);
    }
}

proof fn lemma_first_event(before: Seq<Seq<char>>, lines: Seq<Seq<char>>)
    requires
        forall|i: int| 0 <= i < before.len() ==> carries_nothing(#[trigger] before[i]),
    ensures
        response::first_event(before + lines) == response::first_event(lines),
    decreases before.len(),
{
    if before.len() > 0 {
        assert((before + lines).first() == before[0]);
        lemma_carries_nothing(before[0]);
        assert((before + lines).drop_first() =~= before.drop_first() + lines);
        assert forall|i: int| 0 <= i < before.drop_first().len() implies carries_nothing(
            #[trigger] before.drop_first()[i],
        ) by {
            assert(carries_nothing(before[i + 1]));
        }
        lemma_first_event(before.drop_first(), lines);
    } else {
        assert(before + lines =~= lines);
    }
}

/// An event stream carries what its first line of data that is JSON writes, whatever white space
/// stands before `data:` and around the data, and whatever lines come before and after.
pub proof fn law_first_data_are_read(
    before: Seq<Seq<char>>,
    indent: Seq<char>,
    pre: Seq<char>,
    core: Seq<char>,
    post: Seq<char>,
    after: Seq<Seq<char>>,
)
    requires
        laws_text::all_white(indent),
        laws_text::all_white(pre),
        laws_text::all_white(post),
        laws_text::is_core(core),
        wire::json_of_text(core) is Some,
        forall|i: int| 0 <= i < before.len() ==> carries_nothing(#[trigger] before[i]),
        laws_text::all_lack(
            before + seq![indent + ("data:"@ + (pre + core + post))] + after,
            '\n',
        ),
    ensures
        response::message_in(
            laws_text::joined(
                before + seq![indent + ("data:"@ + (pre + core + post))] + after,
                '\n',
            ),
            true,
        ) == wire::json_of_text(core),
{
    let line = indent + ("data:"@ + (pre + core + post));
    let lines = before + seq![line] + after;
    laws_text::law_splitting_undoes_joining(lines, '\n');
    assert(lines =~= before + (seq![line] + after));
    lemma_first_event(before, seq![line] + after);
    lemma_data_line(indent, pre, core, post);
    assert((seq![line] + after).first() == line);
}

/// An event stream of lines that carry nothing carries no message.
pub proof fn law_streams_without_data(lines: Seq<Seq<char>>)
    requires
        lines.len() > 0,
        laws_text::all_lack(lines, '\n'),
        forall|i: int| 0 <= i < lines.len() ==> carries_nothing(#[trigger] lines[i]),
    ensures
        response::message_in(laws_text::joined(lines, '\n'), true) is None,
{
    laws_text::law_splitting_undoes_joining(lines, '\n');
    lemma_first_event(lines, Seq::empty());
    assert(lines + Seq::<Seq<char>>::empty() =~= lines);
}

// ---------------------------------------------------------------------------------------------
// Which responses are governed
// ---------------------------------------------------------------------------------------------
/// A response is governed where there is a field map with fields in it, and the content type has
/// `event-stream` or `json` somewhere in it. It is an event stream exactly where it says so.
pub proof fn law_which_responses_are_governed(
    map: Option<CachedFieldMap>,
    pre: Seq<char>,
    post: Seq<char>,
    content_type: Seq<char>,
)
    ensures
        response::body_kind(pre + "event-stream"@ + post) == Some(true),
        response::body_kind(pre + "json"@ + post) is Some,
        response::body_kind(content_type) == Some(true) ==> exists|a: Seq<char>, b: Seq<char>|
            content_type == #[trigger] (a + "event-stream"@ + b),
        response::body_kind(content_type) == Some(false) ==> exists|a: Seq<char>, b: Seq<char>|
            content_type == #[trigger] (a + "json"@ + b),
        map matches Some(m) ==> (m.fields@.len() > 0 ==> response::is_governed(
            map,
            pre + "json"@ + post,
        ) && response::is_governed(map, pre + "event-stream"@ + post)),
        map is None || map->0.fields@.len() == 0 ==> !response::is_governed(map, content_type),
        response::is_governed(map, content_type) ==> exists|a: Seq<char>, b: Seq<char>|
            content_type == #[trigger] (a + "json"@ + b) || content_type == a + "event-stream"@ + b,
{
    laws_text::law_parts(pre, "event-stream"@, post, content_type);
    laws_text::law_parts(pre, "json"@, post, content_type);
    if response::body_kind(content_type) == Some(true) {
        let (a, b) = choose|a: Seq<char>, b: Seq<char>|
            content_type == #[trigger] (a + "event-stream"@ + b);
        assert(content_type == a + "event-stream"@ + b);
        let x = a + "json"@ + b;
    }
}

} // verus!
