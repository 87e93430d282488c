//! What holds of the policy as a whole: the entitlement decision, what a projection does to the
//! records of a payload, and how a refresh and the cache behave from step to step.

use vstd::prelude::*;
use vstd::string::*;

use crate::cache;
use crate::catalog;
use crate::cdgc;
use crate::cdgc::CachedFieldMap;
use crate::claims;
use crate::config;
use crate::entitlement;
use crate::entitlement::{CallerContext, EntitlementPolicy, FieldView, MaskMode, Projection};
use crate::json;
use crate::json::Tree;
use crate::names;
use crate::records;
use crate::refresh;
use crate::request;
use crate::request::Ctx;
use crate::response;
use crate::text;
use crate::wire;

verus! {

// ---------------------------------------------------------------------------------------------
// The entitlement decision
// ---------------------------------------------------------------------------------------------
/// A claim that is absent or blank is no claim.
pub proof fn law_blank_claims_are_none(s: Seq<char>)
    ensures
        entitlement::claim(None) is None,
        text::blank(s) ==> entitlement::claim(Some(s)) is None,
{
    if text::blank(s) {
        assert(text::trimmed(s) =~= Seq::<char>::empty());
        assert(text::lowercase(text::trimmed(s)) =~= Seq::<char>::empty());
    }
}

/// Whether two texts are ASCII and differ in case at most.
pub open spec fn same_but_for_case(a: Seq<char>, b: Seq<char>) -> bool {
    &&& text::is_ascii_text(a)
    &&& text::is_ascii_text(b)
    &&& text::ascii_lowercase(a) == text::ascii_lowercase(b)
}

/// Case and surrounding white space do not count: ASCII texts that differ in nothing else make the
/// same claim and name the same mode.
pub proof fn law_claims_ignore_case_and_surrounding_space(a: Seq<char>, b: Seq<char>)
    requires
        same_but_for_case(text::trimmed(a), text::trimmed(b)),
    ensures
        entitlement::claim(Some(a)) == entitlement::claim(Some(b)),
        entitlement::mode_named(entitlement::normalized(a)) == entitlement::mode_named(
            entitlement::normalized(b),
        ),
{
}

proof fn lemma_claims_of_both(x: Seq<Seq<char>>, y: Seq<Seq<char>>)
    ensures
        entitlement::claim_set(x + y) == entitlement::claim_set(x).union(
            entitlement::claim_set(y),
        ),
{
    let all = x + y;
    assert forall|t: Seq<char>| entitlement::claim_set(all).contains(t) == (entitlement::claim_set(
        x,
    ).contains(t) || entitlement::claim_set(y).contains(t)) by {
        if entitlement::claim_set(all).contains(t) {
            let i = choose|i: int|
                0 <= i < all.len() && t == entitlement::normalized(#[trigger] all[i]);
            if i < x.len() {
                assert(x[i] == all[i]);
            } else {
                assert(y[i - x.len()] == all[i]);
            }
        }
        if entitlement::claim_set(x).contains(t) {
            let i = choose|i: int| 0 <= i < x.len() && t == entitlement::normalized(#[trigger] x[i]);
            assert(all[i] == x[i]);
        }
        if entitlement::claim_set(y).contains(t) {
            let i = choose|i: int| 0 <= i < y.len() && t == entitlement::normalized(#[trigger] y[i]);
            assert(all[i + x.len()] == y[i]);
        }
    }
    assert(entitlement::claim_set(all) =~= entitlement::claim_set(x).union(
        entitlement::claim_set(y),
    ));
}

/// The claims that a comma-separated list names.
pub open spec fn listed(raw: Seq<char>) -> Set<Seq<char>> {
    entitlement::claim_set(text::pieces(raw, ','))
}

/// Two lists with a comma between them list what both list.
pub proof fn law_joined_lists_are_united(a: Seq<char>, b: Seq<char>)
    ensures
        listed(a + ","@ + b) == listed(a).union(listed(b)),
{
    reveal_strlit(",");
    assert(a + ","@ + b =~= a.push(',') + b);
    text::lemma_pieces_joined(a, ',', b);
    lemma_claims_of_both(text::pieces(a, ','), text::pieces(b, ','));
}

/// Names with commas between them.
pub open spec fn comma_joined(row: Seq<Seq<char>>) -> Seq<char>
    decreases row.len(),
{
    if row.len() == 0 {
        Seq::empty()
    } else if row.len() == 1 {
        row[0]
    } else {
        comma_joined(row.drop_last()) + ","@ + row.last()
    }
}

proof fn lemma_comma_joined(row: Seq<Seq<char>>)
    requires
        row.len() > 0,
        forall|i: int, k: int|
            0 <= i < row.len() && 0 <= k < row[i].len() ==> #[trigger] row[i][k] != ',',
    ensures
        text::pieces(comma_joined(row), ',') == row,
    decreases row.len(),
{
    text::lemma_one_piece(row.last(), ',');
    if row.len() == 1 {
        assert(seq![row[0]] =~= row);
    } else {
        let rest = row.drop_last();
        assert forall|i: int, k: int|
            0 <= i < rest.len() && 0 <= k < rest[i].len() implies #[trigger] rest[i][k] != ',' by {
            assert(row[i][k] != ',');
        }
        lemma_comma_joined(rest);
        reveal_strlit(",");
        assert(comma_joined(row) =~= comma_joined(rest).push(',') + row.last());
        text::lemma_pieces_joined(comma_joined(rest), ',', row.last());
        assert(rest + seq![row.last()] =~= row);
    }
}

proof fn lemma_pieces_chars(s: Seq<char>, sep: char)
    ensures
        text::pieces(s, sep).len() > 0,
        forall|i: int, k: int|
            0 <= i < text::pieces(s, sep).len() && 0 <= k < text::pieces(s, sep)[i].len() ==> {
                &&& #[trigger] text::pieces(s, sep)[i][k] != sep
                &&& s.contains(text::pieces(s, sep)[i][k])
            },
    decreases s.len(),
{
    if s.len() > 0 {
        let rest = s.drop_last();
        lemma_pieces_chars(rest, sep);
        let before = text::pieces(rest, sep);
        let all = text::pieces(s, sep);
        assert(s[s.len() - 1] == s.last());
        assert forall|i: int, k: int| 0 <= i < all.len() && 0 <= k < all[i].len() implies {
            &&& #[trigger] all[i][k] != sep
            &&& s.contains(all[i][k])
        } by {
            if i < before.len() && k < before[i].len() {
                assert(all[i][k] == before[i][k]);
                let m = choose|m: int| 0 <= m < rest.len() && rest[m] == before[i][k];
                assert(s[m] == before[i][k]);
            } else {
                assert(all[i][k] == s.last());
            }
        }
    }
}

proof fn lemma_trimmed_start(s: Seq<char>)
    ensures
        forall|k: int|
            0 <= k < text::trimmed_start(s).len() ==> s.contains(#[trigger] text::trimmed_start(s)[k]),
        text::trimmed_start(s).len() > 0 ==> !text::is_space(text::trimmed_start(s).first()),
    decreases s.len(),
{
    if s.len() > 0 && text::is_space(s.first()) {
        let rest = s.drop_first();
        lemma_trimmed_start(rest);
        assert forall|k: int| 0 <= k < text::trimmed_start(s).len() implies s.contains(
            #[trigger] text::trimmed_start(s)[k],
        ) by {
            assert(rest.contains(text::trimmed_start(rest)[k]));
            let m = choose|m: int| 0 <= m < rest.len() && rest[m] == text::trimmed_start(rest)[k];
            assert(s[m + 1] == rest[m]);
        }
    }
}

proof fn lemma_trimmed_end(s: Seq<char>)
    ensures
        forall|k: int|
            0 <= k < text::trimmed_end(s).len() ==> k < s.len() && #[trigger] text::trimmed_end(s)[k]
                == s[k],
        text::trimmed_end(s).len() > 0 ==> !text::is_space(text::trimmed_end(s).last()),
    decreases s.len(),
{
    if s.len() > 0 && text::is_space(s.last()) {
        lemma_trimmed_end(s.drop_last());
    }
}

/// An ASCII text without commas is normalized to one that is normalized already.
proof fn lemma_normalized_twice(s: Seq<char>)
    requires
        text::is_ascii_text(s),
        forall|i: int| 0 <= i < s.len() ==> #[trigger] s[i] != ',',
    ensures
        entitlement::normalized(entitlement::normalized(s)) == entitlement::normalized(s),
        forall|i: int|
            0 <= i < entitlement::normalized(s).len() ==> #[trigger] entitlement::normalized(s)[i]
                != ',',
{
    let start = text::trimmed_start(s);
    let mid = text::trimmed(s);
    lemma_trimmed_start(s);
    lemma_trimmed_end(start);
    assert forall|k: int| 0 <= k < mid.len() implies (#[trigger] mid[k]) as u32 <= 127 && mid[k]
        != ',' by {
        assert(s.contains(start[k]));
        let m = choose|m: int| 0 <= m < s.len() && s[m] == start[k];
        assert(s[m] as u32 <= 127);
    }
    assert(text::is_ascii_text(mid));
    let done = entitlement::normalized(s);
    assert(done == text::ascii_lowercase(mid));
    assert forall|k: int| 0 <= k < done.len() implies (#[trigger] done[k]) as u32 <= 127 && done[k]
        != ',' && text::ascii_lower(done[k]) == done[k] && text::is_space(done[k])
        == text::is_space(mid[k]) by {
        assert(done[k] == text::ascii_lower(mid[k]));
        assert(mid[k] as u32 <= 127);
    }
    assert(text::is_ascii_text(done));
    if done.len() > 0 {
        assert(mid[0] == start[0]);
        assert(text::is_space(done[0]) == text::is_space(mid[0]));
        assert(text::is_space(done[done.len() - 1]) == text::is_space(mid[mid.len() - 1]));
    }
    assert(text::trimmed_start(done) == done);
    assert(text::trimmed_end(done) == done);
    assert(text::ascii_lowercase(done) =~= done);
}

/// Whether a claim stays as it is when it is listed and read again.
pub open spec fn is_settled(claim: Seq<char>) -> bool {
    &&& entitlement::normalized(claim) == claim
    &&& forall|k: int| 0 <= k < claim.len() ==> #[trigger] claim[k] != ','
}

/// The claims of a list, in any order with commas between them, list the same claims. That the
/// claims are settled is known of every ASCII list.
pub proof fn law_joined_claims_read_back(raw: Seq<char>, row: Seq<Seq<char>>)
    requires
        row.to_set() == listed(raw),
        text::is_ascii_text(raw) || forall|i: int|
            0 <= i < row.len() ==> is_settled(#[trigger] row[i]),
    ensures
        listed(comma_joined(row)) == listed(raw),
{
    let parts = text::pieces(raw, ',');
    lemma_pieces_chars(raw, ',');
    assert forall|i: int| 0 <= i < row.len() implies {
        &&& (#[trigger] row[i]).len() > 0
        &&& is_settled(row[i])
    } by {
        assert(row.to_set().contains(row[i]));
        assert(listed(raw).contains(row[i]));
        let m = choose|m: int|
            0 <= m < parts.len() && row[i] == entitlement::normalized(#[trigger] parts[m]);
        if text::is_ascii_text(raw) {
            assert(text::is_ascii_text(parts[m])) by {
                assert forall|k: int| 0 <= k < parts[m].len() implies (#[trigger] parts[m][k]) as u32
                    <= 127 by {
                    assert(raw.contains(parts[m][k]));
                    let q = choose|q: int| 0 <= q < raw.len() && raw[q] == parts[m][k];
                    assert(raw[q] as u32 <= 127);
                }
            }
            lemma_normalized_twice(parts[m]);
        }
    }
    if row.len() > 0 {
        lemma_comma_joined(row);
        assert forall|t: Seq<char>| entitlement::claim_set(row).contains(t) == row.to_set().contains(
            t,
        ) by {
            if entitlement::claim_set(row).contains(t) {
                let i = choose|i: int|
                    0 <= i < row.len() && t == entitlement::normalized(#[trigger] row[i]);
                assert(row[i] == t);
            }
            if row.to_set().contains(t) {
                let i = choose|i: int| 0 <= i < row.len() && row[i] == t;
                assert(entitlement::normalized(row[i]) == t);
            }
        }
        assert(entitlement::claim_set(row) =~= row.to_set());
    } else {
        let none = comma_joined(row);
        law_blank_claims_are_none(none);
        assert(text::pieces(none, ',') =~= seq![none]);
        assert(entitlement::normalized(none).len() == 0);
        assert(listed(none) =~= row.to_set());
    }
}

/// The decision is fail-closed: a caller without a cleared clearance is not entitled, nor, where
/// purposes are enforced, one without an allowed purpose.
pub proof fn law_fail_closed(caller: CallerContext, policy: EntitlementPolicy)
    ensures
        ({
            let clearance = entitlement::claim(text::opt_text(caller.clearance));
            let purpose = entitlement::claim(text::opt_text(caller.purpose));
            &&& clearance is None ==> !entitlement::entitled(caller, policy)
            &&& clearance is Some && !policy.cleared_levels@.contains(clearance->0)
                ==> !entitlement::entitled(caller, policy)
            &&& policy.allowed_purposes@ != Set::<Seq<char>>::empty() && (purpose is None
                || !policy.allowed_purposes@.contains(purpose->0)) ==> !entitlement::entitled(
                caller,
                policy,
            )
        }),
{
}

/// Where no purpose is enforced, the clearance alone decides.
pub proof fn law_purpose_not_enforced_when_empty(
    clearance: Option<Seq<char>>,
    one: Option<Seq<char>>,
    other: Option<Seq<char>>,
    cleared: Set<Seq<char>>,
)
    ensures
        entitlement::admitted(clearance, one, cleared, Set::empty()) == entitlement::admitted(
            clearance,
            other,
            cleared,
            Set::empty(),
        ),
{
}

/// An entitled caller is withheld nothing, and everyone else every sensitive field; the count
/// that is reported for an entitled caller is zero.
pub proof fn law_withheld_names(fields: Seq<FieldView>, name: Seq<char>)
    ensures
        !entitlement::withheld_names(fields, true).contains(name),
        entitlement::withheld_names(fields, false).contains(name) <==> exists|i: int|
            0 <= i < fields.len() && (#[trigger] fields[i]).sensitive && fields[i].name == name,
        text::decimal(entitlement::withheld_names(fields, true).len()) == "0"@,
{
    reveal_strlit("0");
    assert(text::decimal(0) =~= "0"@);
}

/// The word for a mode names that mode in a configuration.
pub proof fn law_mode_words_read_back(mode: MaskMode)
    ensures
        entitlement::mode_named(entitlement::normalized(response::mode_word(mode))) == mode,
{
    reveal_strlit("mask");
    reveal_strlit("nullify");
    reveal_strlit("null");
    reveal_strlit("drop");
    reveal_strlit("remove");
    let word = response::mode_word(mode);
    assert(text::trimmed_start(word) == word);
    assert(text::trimmed_end(word) == word);
    assert(text::ascii_lowercase(word) =~= word);
    assert("mask"@ != "nullify"@ && "mask"@ != "null"@ && "mask"@ != "drop"@ && "mask"@
        != "remove"@) by {
        assert("mask"@[0] == 'm');
    }
    assert("drop"@ != "nullify"@ && "drop"@ != "null"@) by {
        assert("drop"@[0] == 'd');
    }
}

// ---------------------------------------------------------------------------------------------
// One record
// ---------------------------------------------------------------------------------------------
/// A field that is not withheld passes through untouched, and a projection adds no field.
pub proof fn law_other_fields_pass_through(
    record: Map<Seq<char>, Tree>,
    p: Projection,
    name: Seq<char>,
)
    ensures
        !p.withhold@.contains(name) ==> {
            &&& entitlement::projected(record, p).contains_key(name) == record.contains_key(name)
            &&& record.contains_key(name) ==> entitlement::projected(record, p)[name]
                == record[name]
        },
        entitlement::projected(record, p).contains_key(name) ==> record.contains_key(name),
{
}

/// A withheld field is masked, null or gone, as the mode has it.
pub proof fn law_withheld_fields_are_hidden(
    record: Map<Seq<char>, Tree>,
    p: Projection,
    name: Seq<char>,
)
    requires
        p.withhold@.contains(name),
        record.contains_key(name),
    ensures
        ({
            let after = entitlement::projected(record, p);
            match p.mode {
                MaskMode::Mask => after.contains_key(name) && after[name] == Tree::String(p.token@),
                MaskMode::Nullify => after.contains_key(name) && after[name] == Tree::Null,
                MaskMode::Drop => !after.contains_key(name),
            }
        }),
{
}

/// What a projection is planned for: the fields that are not sensitive pass through whoever calls.
pub proof fn law_insensitive_fields_pass_through(
    record: Map<Seq<char>, Tree>,
    fields: Seq<FieldView>,
    entitled: bool,
    p: Projection,
    name: Seq<char>,
)
    requires
        p.withhold@ == entitlement::withheld_names(fields, entitled),
        forall|i: int|
            0 <= i < fields.len() && (#[trigger] fields[i]).name == name ==> !fields[i].sensitive,
        record.contains_key(name),
    ensures
        entitlement::projected(record, p).contains_key(name),
        entitlement::projected(record, p)[name] == record[name],
{
    assert(!p.withhold@.contains(name));
}

/// Whether two records have the same fields, and differ in none that is not withheld.
pub open spec fn alike_record(
    a: Map<Seq<char>, Tree>,
    b: Map<Seq<char>, Tree>,
    withhold: Set<Seq<char>>,
) -> bool {
    &&& a.dom() == b.dom()
    &&& forall|k: Seq<char>|
        a.contains_key(k) && !withhold.contains(k) ==> #[trigger] a[k] == b[k]
}

/// Nothing of a withheld value shows: records that differ only in withheld fields look the same.
pub proof fn law_withheld_values_do_not_show(
    a: Map<Seq<char>, Tree>,
    b: Map<Seq<char>, Tree>,
    p: Projection,
)
    requires
        alike_record(a, b, p.withhold@),
    ensures
        entitlement::projected(a, p) == entitlement::projected(b, p),
{
    assert forall|k: Seq<char>| a.contains_key(k) == b.contains_key(k) by {
        assert(a.dom().contains(k) == b.dom().contains(k));
    }
    assert(entitlement::projected(a, p) =~= entitlement::projected(b, p));
}

/// To project a record a second time changes nothing.
pub proof fn law_projection_is_idempotent(record: Map<Seq<char>, Tree>, p: Projection)
    ensures
        entitlement::projected(entitlement::projected(record, p), p) == entitlement::projected(
            record,
            p,
        ),
{
    assert(entitlement::projected(entitlement::projected(record, p), p)
        =~= entitlement::projected(record, p));
}

/// A projection that withholds nothing leaves a record as it is.
pub proof fn law_nothing_withheld_nothing_changed(record: Map<Seq<char>, Tree>, p: Projection)
    requires
        p.withhold@ == Set::<Seq<char>>::empty(),
    ensures
        entitlement::projected(record, p) == record,
{
    assert(entitlement::projected(record, p) =~= record);
}

// ---------------------------------------------------------------------------------------------
// Places in a payload
// ---------------------------------------------------------------------------------------------
proof fn lemma_child_of_with_child(t: Tree, step: Seq<char>, new: Tree)
    requires
        records::child(t, step) is Some,
    ensures
        records::child(records::with_child(t, step, new), step) == Some(new),
{
}

/// What is put in a place is found there, and the last that is put there stays.
pub proof fn law_put_is_found(t: Tree, steps: Seq<Seq<char>>, first: Tree, last: Tree)
    requires
        records::at(t, steps) is Some,
    ensures
        records::at(records::put(t, steps, last), steps) == Some(last),
        records::put(records::put(t, steps, first), steps, last) == records::put(t, steps, last),
    decreases steps.len(),
{
    if steps.len() > 0 {
        let c = records::child(t, steps.first())->0;
        let rest = steps.drop_first();
        law_put_is_found(c, rest, first, last);
        let one = records::put(c, rest, first);
        let two = records::put(c, rest, last);
        lemma_child_of_with_child(t, steps.first(), one);
        lemma_child_of_with_child(t, steps.first(), two);
        let once = records::with_child(t, steps.first(), one);
        match t {
            Tree::Object(m) => assert(m.insert(steps.first(), one).insert(steps.first(), two)
                =~= m.insert(steps.first(), two)),
            Tree::Array(a) => {
                let n = text::number_in(steps.first())->0 as int;
                assert(a.update(n, one).update(n, two) =~= a.update(n, two));
            },
            _ => {},
        }
        assert(records::with_child(once, steps.first(), two) == records::with_child(
            t,
            steps.first(),
            two,
        ));
    }
}

/// To put in a place what is there already changes nothing.
pub proof fn law_put_back(t: Tree, steps: Seq<Seq<char>>)
    requires
        records::at(t, steps) is Some,
    ensures
        records::put(t, steps, records::at(t, steps)->0) == t,
    decreases steps.len(),
{
    if steps.len() > 0 {
        let c = records::child(t, steps.first())->0;
        law_put_back(c, steps.drop_first());
        match t {
            Tree::Object(m) => assert(m.insert(steps.first(), c) =~= m),
            Tree::Array(a) => {
                let n = text::number_in(steps.first())->0 as int;
                assert(a.update(n, c) =~= a);
            },
            _ => {},
        }
    }
}

/// Whether two rows of steps part ways at some value, so that neither leads through the other.
pub open spec fn apart(t: Tree, one: Seq<Seq<char>>, other: Seq<Seq<char>>) -> bool
    decreases one.len(),
{
    &&& one.len() > 0
    &&& other.len() > 0
    &&& {
        ||| t is Object && one.first() != other.first()
        ||| t is Array && text::number_in(one.first()) != text::number_in(other.first())
        ||| {
            &&& one.first() == other.first()
            &&& records::child(t, one.first()) is Some
            &&& apart(
                records::child(t, one.first())->0,
                one.drop_first(),
                other.drop_first(),
            )
        }
    }
}

/// What is put in one place changes nothing in a place apart from it.
pub proof fn law_put_elsewhere(t: Tree, one: Seq<Seq<char>>, other: Seq<Seq<char>>, new: Tree)
    requires
        apart(t, one, other),
    ensures
        records::at(records::put(t, one, new), other) == records::at(t, other),
    decreases one.len(),
{
    if records::child(t, one.first()) is Some {
        let c = records::child(t, one.first())->0;
        if one.first() == other.first() && apart(c, one.drop_first(), other.drop_first()) {
            law_put_elsewhere(c, one.drop_first(), other.drop_first(), new);
            lemma_child_of_with_child(
                t,
                one.first(),
                records::put(c, one.drop_first(), new),
            );
        } else {
            assert(records::child(records::put(t, one, new), other.first()) == records::child(
                t,
                other.first(),
            ));
        }
    }
}

/// A projection changes nothing outside the records: what stands in a place apart from theirs
/// stays as it is.
pub proof fn law_nothing_else_is_projected(
    payload: Tree,
    path: Seq<char>,
    p: Projection,
    other: Seq<Seq<char>>,
)
    requires
        apart(payload, records::segments(path), other),
    ensures
        records::at(records::projected_at(payload, path, p), other) == records::at(payload, other),
{
    match records::at(payload, records::segments(path)) {
        Some(node) => law_put_elsewhere(
            payload,
            records::segments(path),
            other,
            records::projected_node(node, p),
        ),
        None => {},
    }
}

// ---------------------------------------------------------------------------------------------
// A payload
// ---------------------------------------------------------------------------------------------
/// Every record at the path is projected, and nothing else there changes.
pub proof fn law_every_record_is_projected(payload: Tree, path: Seq<char>, p: Projection)
    requires
        records::at(payload, records::segments(path)) is Some,
    ensures
        ({
            let steps = records::segments(path);
            let before = records::at(payload, steps)->0;
            let after = records::at(records::projected_at(payload, path, p), steps);
            &&& after == Some(records::projected_node(before, p))
            &&& before matches Tree::Object(m) ==> after == Some(
                Tree::Object(entitlement::projected(m, p)),
            )
            &&& before matches Tree::Array(a) ==> {
                &&& after->0 is Array
                &&& after->0->Array_0.len() == a.len()
                &&& forall|i: int|
                    0 <= i < a.len() ==> #[trigger] after->0->Array_0[i]
                        == records::projected_record(a[i], p)
            }
        }),
{
    let steps = records::segments(path);
    let new = records::projected_node(records::at(payload, steps)->0, p);
    law_put_is_found(payload, steps, new, new);
}

proof fn lemma_node_twice(node: Tree, p: Projection)
    ensures
        records::projected_node(records::projected_node(node, p), p) == records::projected_node(
            node,
            p,
        ),
{
    match node {
        Tree::Array(a) => {
            let once = a.map_values(|t: Tree| records::projected_record(t, p));
            let twice = once.map_values(|t: Tree| records::projected_record(t, p));
            assert forall|i: int| 0 <= i < a.len() implies #[trigger] twice[i] == once[i] by {
                if let Tree::Object(m) = a[i] {
                    law_projection_is_idempotent(m, p);
                }
            }
            assert(twice =~= once);
        },
        Tree::Object(m) => law_projection_is_idempotent(m, p),
        _ => {},
    }
}

/// To project the records of a payload a second time changes nothing.
pub proof fn law_payload_projection_is_idempotent(payload: Tree, path: Seq<char>, p: Projection)
    ensures
        records::projected_at(records::projected_at(payload, path, p), path, p)
            == records::projected_at(payload, path, p),
{
    let steps = records::segments(path);
    if records::at(payload, steps) is Some {
        let node = records::at(payload, steps)->0;
        let new = records::projected_node(node, p);
        law_put_is_found(payload, steps, new, new);
        lemma_node_twice(node, p);
    }
}

/// Where nothing is withheld, a payload keeps every value: it gains the account of the decision,
/// with no name in it, and nothing else changes.
pub proof fn law_entitled_callers_see_everything(
    payload: Tree,
    path: Seq<char>,
    p: Projection,
    ctx: Ctx,
    map: CachedFieldMap,
)
    requires
        p.withhold@ == Set::<Seq<char>>::empty(),
    ensures
        records::projected_at(payload, path, p) == payload,
        records::withheld_at(payload, path, p) == Seq::<Seq<char>>::empty(),
        response::governed(payload, path, p, ctx, map) == json::with_member(
            payload,
            "_entitlement"@,
            response::annotation(p, ctx, map, Seq::empty()),
        ),
{
    let steps = records::segments(path);
    let row = p.withhold.names();
    assert(row.len() == 0) by {
        if row.len() > 0 {
            assert(p.withhold@.contains(row[0]));
        }
    }
    if records::at(payload, steps) is Some {
        let node = records::at(payload, steps)->0;
        reveal(Seq::filter);
        assert(records::withheld_in(node, p) =~= Seq::<Seq<char>>::empty());
        match node {
            Tree::Array(a) => {
                let after = a.map_values(|t: Tree| records::projected_record(t, p));
                assert forall|i: int| 0 <= i < a.len() implies #[trigger] after[i] == a[i] by {
                    if let Tree::Object(m) = a[i] {
                        law_nothing_withheld_nothing_changed(m, p);
                    }
                }
                assert(after =~= a);
            },
            Tree::Object(m) => law_nothing_withheld_nothing_changed(m, p),
            _ => {},
        }
        law_put_back(payload, steps);
    }
}

/// The names that are reported as withheld: those of the projection that some record at the path
/// has, each once, in ascending order.
pub proof fn law_withheld_names_are_reported(payload: Tree, path: Seq<char>, p: Projection)
    requires
        names::ascending(p.withhold.names()),
    ensures
        names::ascending(records::withheld_at(payload, path, p)),
        records::withheld_at(payload, path, p).no_duplicates(),
        forall|n: Seq<char>| #[trigger]
            records::withheld_at(payload, path, p).contains(n) <==> {
                &&& p.withhold@.contains(n)
                &&& records::at(payload, records::segments(path)) is Some
                &&& records::occurs(records::at(payload, records::segments(path))->0, n)
            },
{
    match records::at(payload, records::segments(path)) {
        Some(node) => names::lemma_filter_ascending(
            p.withhold.names(),
            |n: Seq<char>| records::occurs(node, n),
        ),
        None => {},
    }
    names::lemma_ascending_distinct(records::withheld_at(payload, path, p));
}

/// Whether two values are records that differ only in withheld fields, or the same value.
pub open spec fn alike(a: Tree, b: Tree, withhold: Set<Seq<char>>) -> bool {
    match (a, b) {
        (Tree::Object(m), Tree::Object(n)) => alike_record(m, n, withhold),
        _ => a == b,
    }
}

/// Whether two values are alike, or arrays of which each element is like the other's.
pub open spec fn alike_node(a: Tree, b: Tree, withhold: Set<Seq<char>>) -> bool {
    match (a, b) {
        (Tree::Array(x), Tree::Array(y)) => {
            &&& x.len() == y.len()
            &&& forall|i: int| 0 <= i < x.len() ==> alike(#[trigger] x[i], y[i], withhold)
        },
        _ => alike(a, b, withhold),
    }
}

proof fn lemma_alike_projected(a: Tree, b: Tree, p: Projection)
    requires
        alike(a, b, p.withhold@),
    ensures
        records::projected_record(a, p) == records::projected_record(b, p),
        forall|n: Seq<char>| #[trigger] records::has_field(a, n) == records::has_field(b, n),
{
    if let (Tree::Object(m), Tree::Object(n)) = (a, b) {
        law_withheld_values_do_not_show(m, n, p);
        assert forall|k: Seq<char>| m.contains_key(k) == n.contains_key(k) by {
            assert(m.dom().contains(k) == n.dom().contains(k));
        }
    }
}

proof fn lemma_alike_nodes(a: Tree, b: Tree, p: Projection)
    requires
        alike_node(a, b, p.withhold@),
    ensures
        records::projected_node(a, p) == records::projected_node(b, p),
        records::withheld_in(a, p) == records::withheld_in(b, p),
{
    if let (Tree::Array(x), Tree::Array(y)) = (a, b) {
        assert forall|i: int| 0 <= i < x.len() implies records::projected_record(
            #[trigger] x[i],
            p,
        ) == records::projected_record(y[i], p) by {
            lemma_alike_projected(x[i], y[i], p);
        }
        assert(x.map_values(|t: Tree| records::projected_record(t, p)) =~= y.map_values(
            |t: Tree| records::projected_record(t, p),
        ));
        assert forall|n: Seq<char>| records::occurs(a, n) == records::occurs(b, n) by {
            if records::occurs(a, n) {
                let i = choose|i: int| 0 <= i < x.len() && records::has_field(#[trigger] x[i], n);
                lemma_alike_projected(x[i], y[i], p);
                assert(records::has_field(y[i], n));
            }
            if records::occurs(b, n) {
                let i = choose|i: int| 0 <= i < y.len() && records::has_field(#[trigger] y[i], n);
                lemma_alike_projected(x[i], y[i], p);
                assert(records::has_field(x[i], n));
            }
        }
    } else {
        lemma_alike_projected(a, b, p);
    }
    assert((|n: Seq<char>| records::occurs(a, n)) =~= (|n: Seq<char>| records::occurs(b, n)));
}

/// Nothing of a withheld value shows in a payload: two payloads whose records differ only in
/// withheld fields go to the caller as the same payload.
pub proof fn law_governed_payloads_hide_withheld_values(
    payload: Tree,
    path: Seq<char>,
    node: Tree,
    p: Projection,
    ctx: Ctx,
    map: CachedFieldMap,
)
    requires
        records::at(payload, records::segments(path)) is Some,
        alike_node(records::at(payload, records::segments(path))->0, node, p.withhold@),
    ensures
        response::governed(payload, path, p, ctx, map) == response::governed(
            records::put(payload, records::segments(path), node),
            path,
            p,
            ctx,
            map,
        ),
{
    let steps = records::segments(path);
    let was = records::at(payload, steps)->0;
    lemma_alike_nodes(was, node, p);
    law_put_is_found(payload, steps, node, node);
    law_put_is_found(payload, steps, node, records::projected_node(node, p));
}

/// Whether a value, if it is a record, conceals a field: the field is masked, null or gone.
pub open spec fn conceals(t: Tree, p: Projection, name: Seq<char>) -> bool {
    match t {
        Tree::Object(m) => match p.mode {
            MaskMode::Mask => m.contains_key(name) ==> m[name] == Tree::String(p.token@),
            MaskMode::Nullify => m.contains_key(name) ==> m[name] == Tree::Null,
            MaskMode::Drop => !m.contains_key(name),
        },
        _ => true,
    }
}

/// A caller who is not entitled sees no sensitive value: in the payload that goes out, every
/// record at the path conceals every sensitive field. Left out is the place of the account of the
/// decision, which is no record.
pub proof fn law_others_see_no_sensitive_value(
    payload: Tree,
    path: Seq<char>,
    fields: Seq<FieldView>,
    p: Projection,
    ctx: Ctx,
    map: CachedFieldMap,
    name: Seq<char>,
)
    requires
        p.withhold@ == entitlement::withheld_names(fields, false),
        entitlement::sensitive_names(fields).contains(name),
        name != "_entitlement"@,
        records::at(payload, records::segments(path)) is Some,
        records::segments(path).len() > 0 ==> records::segments(path).first() != "_entitlement"@,
    ensures
        ({
            let after = records::at(
                response::governed(payload, path, p, ctx, map),
                records::segments(path),
            );
            &&& after is Some
            &&& conceals(after->0, p, name)
            &&& after->0 matches Tree::Array(a) ==> forall|i: int|
                0 <= i < a.len() ==> conceals(#[trigger] a[i], p, name)
        }),
{
    let steps = records::segments(path);
    let node = records::at(payload, steps)->0;
    law_every_record_is_projected(payload, path, p);
    let projected = records::projected_at(payload, path, p);
    let after = response::governed(payload, path, p, ctx, map);
    if steps.len() > 0 {
        assert(records::child(after, steps.first()) == records::child(projected, steps.first()));
        assert(records::at(after, steps) == records::at(projected, steps));
    }
}

/// The account of the decision stands in the payload under its name, and beside it the payload
/// holds what the projection leaves.
pub proof fn law_decision_is_reported(
    payload: Tree,
    path: Seq<char>,
    p: Projection,
    ctx: Ctx,
    map: CachedFieldMap,
    key: Seq<char>,
)
    requires
        payload is Object,
        records::has_records_at(payload, path),
    ensures
        ({
            let after = response::governed(payload, path, p, ctx, map);
            &&& json::member_of(after, "_entitlement"@) == Some(
                response::annotation(p, ctx, map, records::withheld_at(payload, path, p)),
            )
            &&& key != "_entitlement"@ ==> json::member_of(after, key) == json::member_of(
                records::projected_at(payload, path, p),
                key,
            )
        }),
{
    let steps = records::segments(path);
    assert(records::projected_at(payload, path, p) is Object);
}

/// The account of a decision names the caller's claims, the outcome, how fields are withheld and
/// which were, and the governed asset.
pub proof fn law_account_of_a_decision(
    p: Projection,
    ctx: Ctx,
    map: CachedFieldMap,
    withheld: Seq<Seq<char>>,
)
    ensures
        ({
            let account = response::annotation(p, ctx, map, withheld);
            &&& json::member_of(account, "entitled"@) == Some(Tree::Bool(p.entitled))
            &&& json::member_of(account, "clearance"@) == Some(
                json::string_or_null(text::opt_text(ctx.clearance)),
            )
            &&& json::member_of(account, "purpose"@) == Some(
                json::string_or_null(text::opt_text(ctx.purpose)),
            )
            &&& json::member_of(account, "mode"@) == Some(
                Tree::String(response::mode_word(p.mode)),
            )
            &&& json::member_of(account, "withheld"@) == Some(Tree::Array(json::strings(withheld)))
            &&& json::member_of(account, "assetId"@) == Some(Tree::String(ctx.asset_id@))
            &&& json::member_of(account, "name"@) == Some(
                json::string_or_null(text::opt_text(map.name)),
            )
            &&& json::member_of(account, "externalId"@) == Some(
                json::string_or_null(text::opt_text(map.external_id)),
            )
            &&& json::member_of(account, "source"@) == Some(Tree::String("cdgc"@))
        }),
{
    reveal_strlit("entitled");
    reveal_strlit("clearance");
    reveal_strlit("purpose");
    reveal_strlit("mode");
    reveal_strlit("withheld");
    reveal_strlit("assetId");
    reveal_strlit("name");
    reveal_strlit("externalId");
    reveal_strlit("source");
    assert("entitled"@[0] == 'e' && "externalId"@[0] == 'e');
    assert("entitled"@.len() != "externalId"@.len());
    assert("clearance"@[0] == 'c');
    assert("purpose"@[0] == 'p');
    assert("mode"@[0] == 'm');
    assert("withheld"@[0] == 'w');
    assert("assetId"@[0] == 'a');
    assert("name"@[0] == 'n');
    assert("source"@[0] == 's');
}

// ---------------------------------------------------------------------------------------------
// A message
// ---------------------------------------------------------------------------------------------
/// A reply without a result, such as an error, is left alone.
pub proof fn law_error_replies_pass_through(
    message: Tree,
    is_sse: bool,
    path: Seq<char>,
    p: Projection,
    ctx: Ctx,
    map: CachedFieldMap,
)
    requires
        json::member_of(message, "jsonrpc"@) is Some,
        json::member_of(message, "result"@) is None,
    ensures
        response::rewritten(message, is_sse, path, p, ctx, map) is None,
{
}

/// A batch with a reply in it is left alone.
pub proof fn law_batches_pass_through(
    items: Seq<Tree>,
    i: int,
    is_sse: bool,
    path: Seq<char>,
    p: Projection,
    ctx: Ctx,
    map: CachedFieldMap,
)
    requires
        0 <= i < items.len(),
        json::member_of(items[i], "jsonrpc"@) is Some,
    ensures
        response::rewritten(Tree::Array(items), is_sse, path, p, ctx, map) is None,
{
}

/// Of an event stream only a message with a result is rewritten.
pub proof fn law_streams_carry_envelopes(
    message: Tree,
    path: Seq<char>,
    p: Projection,
    ctx: Ctx,
    map: CachedFieldMap,
)
    ensures
        response::rewritten(message, true, path, p, ctx, map) is Some ==> json::member_of(
            message,
            "result"@,
        ) is Some,
{
}

/// A body without an envelope is the payload itself, also where it has a member `result` that
/// carries no payload.
pub proof fn law_bare_payloads_are_governed(
    message: Tree,
    path: Seq<char>,
    p: Projection,
    ctx: Ctx,
    map: CachedFieldMap,
)
    requires
        !response::is_marked(message),
        json::member_of(message, "result"@) matches Some(result)
            ==> response::result_payload(result) is None,
        records::has_records_at(message, path),
    ensures
        response::rewritten(message, false, path, p, ctx, map) == Some(
            response::governed(message, path, p, ctx, map),
        ),
{
}

/// The envelope of a reply stays as it is: only its result is rewritten.
pub proof fn law_envelopes_are_kept(
    message: Tree,
    is_sse: bool,
    path: Seq<char>,
    p: Projection,
    ctx: Ctx,
    map: CachedFieldMap,
    key: Seq<char>,
)
    requires
        !response::is_bare(message, is_sse),
        response::rewritten(message, is_sse, path, p, ctx, map) is Some,
    ensures
        ({
            let after = response::rewritten(message, is_sse, path, p, ctx, map)->0;
            &&& key != "result"@ ==> json::member_of(after, key) == json::member_of(message, key)
            &&& json::member_of(after, "result"@) == response::rewritten_result(
                json::member_of(message, "result"@)->0,
                path,
                p,
                ctx,
                map,
            )
        }),
{
}

proof fn lemma_first_text(items: Seq<Tree>, from: int)
    requires
        0 <= from,
    ensures
        response::first_text(items, from) matches Some(i) ==> from <= i < items.len()
            && response::is_text(items[i]),
    decreases items.len() - from,
{
    if from < items.len() && !response::is_text(items[from]) {
        lemma_first_text(items, from + 1);
    }
}

/// The structured content of a result is governed, and the text that mirrors it stays consistent
/// with it: the first text item of the content is the text of the structured content.
pub proof fn law_mirrors_stay_consistent(
    result: Tree,
    path: Seq<char>,
    p: Projection,
    ctx: Ctx,
    map: CachedFieldMap,
)
    requires
        json::member_of(result, "structuredContent"@) is Some,
        records::has_records_at(json::member_of(result, "structuredContent"@)->0, path),
    ensures
        response::rewritten_result(result, path, p, ctx, map) is Some,
        ({
            let after = response::rewritten_result(result, path, p, ctx, map)->0;
            let payload = response::governed(
                json::member_of(result, "structuredContent"@)->0,
                path,
                p,
                ctx,
                map,
            );
            &&& json::member_of(after, "structuredContent"@) == Some(payload)
            &&& json::member_of(result, "content"@) matches Some(Tree::Array(items))
                ==> response::first_text(items, 0) matches Some(i) ==> {
                &&& json::member_of(after, "content"@) matches Some(Tree::Array(new))
                &&& new.len() == items.len()
                &&& json::string_of(new[i], "text"@) == Some(wire::text_of_json(payload))
                &&& forall|j: int|
                    0 <= j < items.len() && j != i ==> #[trigger] new[j] == items[j]
            }
        }),
{
    reveal_strlit("structuredContent");
    reveal_strlit("content");
    assert("structuredContent"@.len() != "content"@.len());
    if let Some(Tree::Array(items)) = json::member_of(result, "content"@) {
        lemma_first_text(items, 0);
    }
}

/// A result without structured content is governed in the first text of its content that is JSON,
/// and in no other item.
pub proof fn law_text_content_is_governed(
    result: Tree,
    items: Seq<Tree>,
    i: int,
    path: Seq<char>,
    p: Projection,
    ctx: Ctx,
    map: CachedFieldMap,
)
    requires
        json::member_of(result, "structuredContent"@) is None,
        json::member_of(result, "content"@) == Some(Tree::Array(items)),
        0 <= i < items.len(),
        response::json_text(items[i]) is Some,
        forall|j: int| 0 <= j < i ==> response::json_text(#[trigger] items[j]) is None,
        records::has_records_at(response::json_text(items[i])->0, path),
    ensures
        ({
            let after = response::rewritten_result(result, path, p, ctx, map);
            let payload = response::governed(
                response::json_text(items[i])->0,
                path,
                p,
                ctx,
                map,
            );
            &&& after is Some
            &&& json::member_of(after->0, "content"@) matches Some(Tree::Array(new))
            &&& new.len() == items.len()
            &&& json::string_of(new[i], "text"@) == Some(wire::text_of_json(payload))
            &&& forall|j: int| 0 <= j < items.len() && j != i ==> #[trigger] new[j] == items[j]
        }),
{
    lemma_first_json_text(items, 0, i);
}

proof fn lemma_first_json_text(items: Seq<Tree>, from: int, i: int)
    requires
        0 <= from <= i < items.len(),
        response::json_text(items[i]) is Some,
        forall|j: int| from <= j < i ==> response::json_text(#[trigger] items[j]) is None,
    ensures
        response::first_json_text(items, from) == Some(i),
    decreases i - from,
{
    if from < i {
        lemma_first_json_text(items, from + 1, i);
    }
}

/// Whether two payloads have records at a path, and differ only in withheld fields of these.
pub open spec fn alike_payload(a: Tree, b: Tree, path: Seq<char>, withhold: Set<Seq<char>>) -> bool {
    let steps = records::segments(path);
    &&& records::has_records_at(a, path)
    &&& records::at(b, steps) is Some
    &&& alike_node(records::at(a, steps)->0, records::at(b, steps)->0, withhold)
    &&& b == records::put(a, steps, records::at(b, steps)->0)
}

proof fn lemma_alike_payloads(
    a: Tree,
    b: Tree,
    path: Seq<char>,
    p: Projection,
    ctx: Ctx,
    map: CachedFieldMap,
)
    requires
        alike_payload(a, b, path, p.withhold@),
    ensures
        response::governed_payload(a, path, p, ctx, map) is Some,
        response::governed_payload(a, path, p, ctx, map) == response::governed_payload(
            b,
            path,
            p,
            ctx,
            map,
        ),
        records::withheld_at(a, path, p) == records::withheld_at(b, path, p),
{
    let steps = records::segments(path);
    let x = records::at(a, steps)->0;
    let y = records::at(b, steps)->0;
    law_governed_payloads_hide_withheld_values(a, path, y, p, ctx, map);
    lemma_alike_nodes(x, y, p);
    if let (Tree::Array(m), Tree::Array(n)) = (x, y) {
        let i = choose|i: int| 0 <= i < m.len() && (#[trigger] m[i]) is Object;
        assert(alike(m[i], n[i], p.withhold@));
        assert(n[i] is Object);
    }
    assert(records::has_records_at(b, path));
}

/// Whether a content item differs from another only in its text.
pub open spec fn alike_item(a: Tree, b: Tree) -> bool {
    &&& json::member_of(b, "text"@) is Some
    &&& b == json::with_member(a, "text"@, json::member_of(b, "text"@)->0)
}

/// Whether two contents are the same, but for the text of their first text items.
pub open spec fn alike_content(a: Option<Tree>, b: Option<Tree>) -> bool {
    ||| a == b
    ||| match (a, b) {
        (Some(Tree::Array(x)), Some(Tree::Array(y))) => match response::first_text(x, 0) {
            Some(i) => y == x.update(i, y[i]) && alike_item(x[i], y[i]),
            None => false,
        },
        _ => false,
    }
}

/// Whether two tool results have records at a path, and differ only in withheld fields of these
/// and in the text that gives their payload: that which mirrors structured content or, where there
/// is none, the first JSON text.
pub open spec fn alike_result(
    a: Tree,
    b: Tree,
    path: Seq<char>,
    withhold: Set<Seq<char>>,
) -> bool {
    &&& a is Object
    &&& b is Object
    &&& forall|k: Seq<char>|
        k != "structuredContent"@ && k != "content"@ ==> #[trigger] json::member_of(a, k)
            == json::member_of(b, k)
    &&& match (
        json::member_of(a, "structuredContent"@),
        json::member_of(b, "structuredContent"@),
    ) {
        (Some(x), Some(y)) => {
            &&& alike_payload(x, y, path, withhold)
            &&& alike_content(json::member_of(a, "content"@), json::member_of(b, "content"@))
        },
        (None, None) => match (json::member_of(a, "content"@), json::member_of(b, "content"@)) {
            (Some(Tree::Array(x)), Some(Tree::Array(y))) => match response::first_json_text(x, 0) {
                Some(i) => {
                    &&& y == x.update(i, y[i])
                    &&& alike_item(x[i], y[i])
                    &&& response::json_text(y[i]) is Some
                    &&& alike_payload(
                        response::json_text(x[i])->0,
                        response::json_text(y[i])->0,
                        path,
                        withhold,
                    )
                },
                None => false,
            },
            _ => false,
        },
        _ => false,
    }
}

/// Whether two messages have records at a path, and differ only in withheld fields of these and in
/// the text that gives their payload.
pub open spec fn alike_message(
    a: Tree,
    b: Tree,
    is_sse: bool,
    path: Seq<char>,
    withhold: Set<Seq<char>>,
) -> bool {
    if response::is_bare(a, is_sse) {
        response::is_bare(b, is_sse) && alike_payload(a, b, path, withhold)
    } else {
        match (json::member_of(a, "result"@), json::member_of(b, "result"@)) {
            (Some(x), Some(y)) => {
                &&& b == json::with_member(a, "result"@, y)
                &&& alike_result(x, y, path, withhold)
            },
            _ => false,
        }
    }
}

proof fn lemma_members_decide(a: Tree, b: Tree)
    requires
        a is Object,
        b is Object,
        forall|k: Seq<char>| #[trigger] json::member_of(a, k) == json::member_of(b, k),
    ensures
        a == b,
{
    let m = a->Object_0;
    let n = b->Object_0;
    assert forall|k: Seq<char>| m.dom().contains(k) == n.dom().contains(k) by {
        assert(json::member_of(a, k) == json::member_of(b, k));
    }
    assert forall|k: Seq<char>| m.dom().contains(k) implies #[trigger] m[k] == n[k] by {
        assert(json::member_of(a, k) == json::member_of(b, k));
    }
    assert(m.dom() =~= n.dom());
    assert(m =~= n);
}

proof fn lemma_alike_item(a: Tree, b: Tree, payload: Tree)
    requires
        alike_item(a, b),
    ensures
        response::is_text(a) == response::is_text(b),
        response::with_text(a, payload) == response::with_text(b, payload),
{
    reveal_strlit("type");
    reveal_strlit("text");
    assert("type"@[1] == 'y' && "text"@[1] == 'e');
    if let Tree::Object(m) = a {
        let words = Tree::String(wire::text_of_json(payload));
        let other = json::member_of(b, "text"@)->0;
        assert(m.insert("text"@, other).insert("text"@, words) =~= m.insert("text"@, words));
    }
}

proof fn lemma_first_text_stays(x: Seq<Tree>, y: Seq<Tree>, from: int)
    requires
        0 <= from,
        x.len() == y.len(),
        forall|i: int|
            0 <= i < x.len() ==> response::is_text(#[trigger] x[i]) == response::is_text(y[i]),
    ensures
        response::first_text(x, from) == response::first_text(y, from),
    decreases x.len() - from,
{
    if from < x.len() {
        assert(response::is_text(x[from]) == response::is_text(y[from]));
        if !response::is_text(x[from]) {
            lemma_first_text_stays(x, y, from + 1);
        }
    }
}

proof fn lemma_first_json_text_found(items: Seq<Tree>, from: int)
    requires
        0 <= from,
    ensures
        response::first_json_text(items, from) matches Some(i) ==> {
            &&& from <= i < items.len()
            &&& response::json_text(items[i]) is Some
            &&& forall|j: int| from <= j < i ==> response::json_text(#[trigger] items[j]) is None
        },
    decreases items.len() - from,
{
    if from < items.len() && response::json_text(items[from]) is None {
        lemma_first_json_text_found(items, from + 1);
    }
}

proof fn lemma_alike_structured(
    a: Tree,
    b: Tree,
    path: Seq<char>,
    p: Projection,
    ctx: Ctx,
    map: CachedFieldMap,
)
    requires
        alike_result(a, b, path, p.withhold@),
        json::member_of(a, "structuredContent"@) is Some,
    ensures
        response::rewritten_result(a, path, p, ctx, map) is Some,
        response::rewritten_result(a, path, p, ctx, map) == response::rewritten_result(
            b,
            path,
            p,
            ctx,
            map,
        ),
{
    reveal_strlit("structuredContent");
    reveal_strlit("content");
    assert("structuredContent"@.len() != "content"@.len());
    let s = json::member_of(a, "structuredContent"@)->0;
    lemma_alike_payloads(s, json::member_of(b, "structuredContent"@)->0, path, p, ctx, map);
    let new = response::governed_payload(s, path, p, ctx, map)->0;
    let one = json::with_member(a, "structuredContent"@, new);
    let other = json::with_member(b, "structuredContent"@, new);
    let left = response::mirrored(one, new);
    let right = response::mirrored(other, new);
    let had = json::member_of(a, "content"@);
    let has = json::member_of(b, "content"@);
    assert(json::member_of(one, "content"@) == had);
    assert(json::member_of(other, "content"@) == has);
    if had != has {
        let x = had->0->Array_0;
        let y = has->0->Array_0;
        let i = response::first_text(x, 0)->0;
        lemma_first_text(x, 0);
        lemma_alike_item(x[i], y[i], new);
        lemma_first_text_stays(x, y, 0);
        assert(x.update(i, response::with_text(x[i], new)) =~= y.update(
            i,
            response::with_text(y[i], new),
        ));
    }
    assert(json::member_of(left, "content"@) == json::member_of(right, "content"@));
    assert forall|k: Seq<char>| #[trigger] json::member_of(left, k) == json::member_of(right, k) by {
        assert(k != "structuredContent"@ && k != "content"@ ==> json::member_of(a, k)
            == json::member_of(b, k));
    }
    lemma_members_decide(left, right);
}

proof fn lemma_alike_text(
    a: Tree,
    b: Tree,
    path: Seq<char>,
    p: Projection,
    ctx: Ctx,
    map: CachedFieldMap,
)
    requires
        alike_result(a, b, path, p.withhold@),
        json::member_of(a, "structuredContent"@) is None,
    ensures
        response::rewritten_result(a, path, p, ctx, map) is Some,
        response::rewritten_result(a, path, p, ctx, map) == response::rewritten_result(
            b,
            path,
            p,
            ctx,
            map,
        ),
{
    let x = json::member_of(a, "content"@)->0->Array_0;
    let y = json::member_of(b, "content"@)->0->Array_0;
    let i = response::first_json_text(x, 0)->0;
    lemma_first_json_text_found(x, 0);
    assert forall|j: int| 0 <= j < i implies response::json_text(#[trigger] y[j]) is None by {
        assert(y[j] == x[j]);
    }
    lemma_first_json_text(y, 0, i);
    lemma_alike_payloads(
        response::json_text(x[i])->0,
        response::json_text(y[i])->0,
        path,
        p,
        ctx,
        map,
    );
    let new = response::governed_payload(response::json_text(x[i])->0, path, p, ctx, map)->0;
    lemma_alike_item(x[i], y[i], new);
    assert(x.update(i, response::with_text(x[i], new)) =~= y.update(
        i,
        response::with_text(y[i], new),
    ));
    let left = response::rewritten_result(a, path, p, ctx, map)->0;
    let right = response::rewritten_result(b, path, p, ctx, map)->0;
    assert forall|k: Seq<char>| #[trigger] json::member_of(left, k) == json::member_of(right, k) by {
        assert(k != "structuredContent"@ && k != "content"@ ==> json::member_of(a, k)
            == json::member_of(b, k));
    }
    lemma_members_decide(left, right);
}

/// Nothing of a withheld value shows in a response: bodies whose messages differ only in withheld
/// fields of their records, and in the text that gives these, go to the caller as the same body.
/// The count that the response reports does not depend on the body at all.
pub proof fn law_bodies_hide_withheld_values(
    one: Seq<char>,
    other: Seq<char>,
    is_sse: bool,
    path: Seq<char>,
    p: Projection,
    ctx: Ctx,
    map: CachedFieldMap,
)
    requires
        response::message_in(one, is_sse) is Some,
        response::message_in(other, is_sse) is Some,
        alike_message(
            response::message_in(one, is_sse)->0,
            response::message_in(other, is_sse)->0,
            is_sse,
            path,
            p.withhold@,
        ),
    ensures
        response::rewritten_text(one, is_sse, path, p, ctx, map) is Some,
        response::rewritten_text(one, is_sse, path, p, ctx, map) == response::rewritten_text(
            other,
            is_sse,
            path,
            p,
            ctx,
            map,
        ),
        response::withheld_in_message(response::message_in(one, is_sse)->0, is_sse, path, p)
            == response::withheld_in_message(
            response::message_in(other, is_sse)->0,
            is_sse,
            path,
            p,
        ),
{
    let a = response::message_in(one, is_sse)->0;
    let b = response::message_in(other, is_sse)->0;
    if response::is_bare(a, is_sse) {
        lemma_alike_payloads(a, b, path, p, ctx, map);
    } else {
        let x = json::member_of(a, "result"@)->0;
        let y = json::member_of(b, "result"@)->0;
        reveal_strlit("jsonrpc");
        reveal_strlit("result");
        assert("jsonrpc"@.len() != "result"@.len());
        lemma_alike_carried(x, y, path, p, ctx, map);
        if json::member_of(x, "structuredContent"@) is Some {
            lemma_alike_structured(x, y, path, p, ctx, map);
        } else {
            lemma_alike_text(x, y, path, p, ctx, map);
        }
        let new = response::rewritten_result(x, path, p, ctx, map)->0;
        let m = a->Object_0;
        assert(m.insert("result"@, y).insert("result"@, new) =~= m.insert("result"@, new));
    }
}

proof fn lemma_alike_carried(
    a: Tree,
    b: Tree,
    path: Seq<char>,
    p: Projection,
    ctx: Ctx,
    map: CachedFieldMap,
)
    requires
        alike_result(a, b, path, p.withhold@),
    ensures
        response::result_payload(a) is Some,
        response::result_payload(b) is Some,
        records::withheld_at(response::result_payload(a)->0, path, p) == records::withheld_at(
            response::result_payload(b)->0,
            path,
            p,
        ),
{
    if json::member_of(a, "structuredContent"@) is None {
        let x = json::member_of(a, "content"@)->0->Array_0;
        let y = json::member_of(b, "content"@)->0->Array_0;
        let i = response::first_json_text(x, 0)->0;
        lemma_first_json_text_found(x, 0);
        assert forall|j: int| 0 <= j < i implies response::json_text(#[trigger] y[j]) is None by {
            assert(y[j] == x[j]);
        }
        lemma_first_json_text(y, 0, i);
    }
    lemma_alike_payloads(
        response::result_payload(a)->0,
        response::result_payload(b)->0,
        path,
        p,
        ctx,
        map,
    );
}

// ---------------------------------------------------------------------------------------------
// The caller
// ---------------------------------------------------------------------------------------------
/// A configured claim wins over its header: where the token has it, the header has no say. Where
/// no claim is configured, or the token has none, the header counts and the token has no say.
pub proof fn law_claims_win_over_headers(
    token: Option<Tree>,
    other_token: Option<Tree>,
    name: Option<Seq<char>>,
    header: Option<Seq<char>>,
    other_header: Option<Seq<char>>,
)
    ensures
        claims::claim_value(token, name) is Some ==> {
            &&& request::claim_or_header(token, name, header) == claims::claim_value(token, name)
            &&& request::claim_or_header(token, name, header) == request::claim_or_header(
                token,
                name,
                other_header,
            )
        },
        claims::claim_value(token, name) is None ==> request::claim_or_header(token, name, header)
            == claims::present(header),
        name is None ==> request::claim_or_header(token, name, header) == request::claim_or_header(
            other_token,
            name,
            header,
        ),
{
}

/// What is taken for a caller's claim is never blank.
pub proof fn law_blank_values_are_not_taken(
    token: Option<Tree>,
    name: Option<Seq<char>>,
    header: Option<Seq<char>>,
)
    ensures
        request::claim_or_header(token, name, header) matches Some(s) ==> !text::blank(s),
{
}

/// What is not a JSON-RPC call is filtered, and of the calls those of the content methods.
pub proof fn law_which_responses_are_filtered(message: Tree)
    ensures
        request::filtered(None),
        json::string_of(message, "method"@) is None ==> request::filtered(Some(message)),
        json::string_of(message, "method"@) matches Some(m) ==> request::filtered(Some(message))
            == request::content_method(m),
{
}

// ---------------------------------------------------------------------------------------------
// Time
// ---------------------------------------------------------------------------------------------
/// A call gets at least a millisecond, ends within the budget, and takes no more than the time
/// per call where that is a time at all.
pub proof fn law_calls_stay_within_the_budget(per_call_ms: int, elapsed: int)
    ensures
        cdgc::call_timeout(per_call_ms, elapsed) is Some <==> elapsed < cdgc::REFRESH_BUDGET_MS,
        cdgc::call_timeout(per_call_ms, elapsed) matches Some(t) ==> {
            &&& 1 <= t
            &&& elapsed + t <= cdgc::REFRESH_BUDGET_MS
            &&& per_call_ms >= 1 ==> t <= per_call_ms
        },
{
}

proof fn lemma_decimal(n: nat)
    ensures
        text::decimal(n).len() > 0,
        text::all_digits(text::decimal(n)),
        text::digits_value(text::decimal(n)) == n,
    decreases n,
{
    if n < 10 {
        let s = text::decimal(n);
        assert(s.drop_last() =~= Seq::<char>::empty());
        assert(text::digits_value(s.drop_last()) == 0);
        assert(s.last() as nat == 48 + n);
    } else {
        lemma_decimal(n / 10);
        let s = text::decimal(n);
        assert(s.drop_last() =~= text::decimal(n / 10));
        assert(s.last() as nat == 48 + n % 10);
    }
}

/// A number in decimal reads back as the number, so different points in time have different
/// nonces.
pub proof fn law_decimals_read_back(n: nat, m: nat)
    ensures
        text::number_in(text::decimal(n)) == Some(n),
        text::decimal(n) == text::decimal(m) ==> n == m,
{
    lemma_decimal(n);
    lemma_decimal(m);
    assert(text::is_digit(text::decimal(n)[0]));
}

/// A stored field map is kept for at least the minimum, and beyond the time for which it is
/// fresh, unless that is longer than a store can count.
pub proof fn law_stored_maps_outlive_their_freshness(interval: Option<i64>)
    ensures
        config::FIELD_MAP_STORE_MIN_TTL_MS <= config::store_ttl(interval) <= u32::MAX,
        config::store_ttl(interval) >= config::fresh_seconds(interval) * 2 * 1000
            || config::store_ttl(interval) == u32::MAX,
{
}

// ---------------------------------------------------------------------------------------------
// A refresh
// ---------------------------------------------------------------------------------------------
/// How many calls a refresh has made when it waits in a stage.
pub open spec fn calls_before(stage: refresh::StageView) -> nat {
    match stage {
        refresh::StageView::Login => 1,
        refresh::StageView::Token { .. } => 2,
        refresh::StageView::Schema { .. } => 3,
        refresh::StageView::Columns { .. } => 4,
        refresh::StageView::Links { .. } => 5,
        refresh::StageView::Terms { .. } => 6,
    }
}

/// One reply, with the nonce and the elapsed time at which it came.
pub struct Arrival {
    pub reply: refresh::ReplyView,
    pub nonce: Seq<char>,
    pub elapsed: int,
}

/// Where a refresh stands after some replies.
pub open spec fn after_arrivals(
    step: refresh::StepView,
    arrivals: Seq<Arrival>,
    t: refresh::Basis,
) -> refresh::StepView
    decreases arrivals.len(),
{
    if arrivals.len() == 0 {
        step
    } else {
        match step {
            refresh::StepView::Send { stage, .. } => after_arrivals(
                refresh::after_reply(
                    stage,
                    arrivals.first().reply,
                    t,
                    arrivals.first().nonce,
                    arrivals.first().elapsed,
                ),
                arrivals.drop_first(),
                t,
            ),
            _ => step,
        }
    }
}

/// A reply either ends a refresh or leads to the next call, and each call is of the kind whose
/// reply is then awaited.
pub proof fn law_stages_follow_one_another(
    stage: refresh::StageView,
    arrival: Arrival,
    t: refresh::Basis,
)
    ensures
        refresh::after_reply(stage, arrival.reply, t, arrival.nonce, arrival.elapsed) matches
            refresh::StepView::Send { stage: next, call, timeout_ms } ==> {
            &&& calls_before(next) == calls_before(stage) + 1
            &&& refresh::kind_of(call) == refresh::awaited(next)
            &&& 1 <= timeout_ms
            &&& arrival.elapsed + timeout_ms <= cdgc::REFRESH_BUDGET_MS
        },
{
}

proof fn lemma_calls_run_out(step: refresh::StepView, arrivals: Seq<Arrival>, t: refresh::Basis)
    ensures
        after_arrivals(step, arrivals, t) matches refresh::StepView::Send { stage: last, .. } ==> {
            &&& step is Send
            &&& calls_before(last) == calls_before(step->stage) + arrivals.len()
        },
    decreases arrivals.len(),
{
    if arrivals.len() > 0 && step is Send {
        let a = arrivals.first();
        law_stages_follow_one_another(step->stage, a, t);
        lemma_calls_run_out(
            refresh::after_reply(step->stage, a.reply, t, a.nonce, a.elapsed),
            arrivals.drop_first(),
            t,
        );
    }
}

/// A refresh makes at most six calls: after six replies it has failed or is done.
pub proof fn law_a_refresh_makes_at_most_six_calls(
    cfg: config::Config,
    elapsed: int,
    arrivals: Seq<Arrival>,
    t: refresh::Basis,
)
    requires
        arrivals.len() >= 6,
    ensures
        !(after_arrivals(refresh::begun(cfg, elapsed), arrivals, t) is Send),
{
    lemma_calls_run_out(refresh::begun(cfg, elapsed), arrivals, t);
}

/// A refresh that fails or is done stays so, whatever still arrives.
pub proof fn law_an_ended_refresh_stays_ended(
    step: refresh::StepView,
    arrivals: Seq<Arrival>,
    t: refresh::Basis,
)
    requires
        !(step is Send),
    ensures
        after_arrivals(step, arrivals, t) == step,
{
}

/// A search that came in time and found documents.
pub open spec fn found(arrival: Arrival, docs: Seq<Tree>) -> bool {
    &&& arrival.elapsed < cdgc::REFRESH_BUDGET_MS
    &&& arrival.reply matches refresh::ReplyView::Search { status, body }
    &&& status < 300
    &&& wire::json_of_bytes(body) is Some
    &&& catalog::documents(wire::json_of_bytes(body)->0) == docs
}

/// What a refresh yields when every call succeeds in time: the field map of the columns, links
/// and terms that the searches found, and the identity of the asset.
pub proof fn law_a_refresh_yields_the_field_map(
    cfg: config::Config,
    elapsed: int,
    schema_id: Seq<char>,
    arrivals: Seq<Arrival>,
    schema: Seq<Tree>,
    columns: Seq<Tree>,
    links: Seq<Tree>,
    terms: Seq<Tree>,
)
    requires
        elapsed < cdgc::REFRESH_BUDGET_MS,
        arrivals.len() == 6,
        arrivals[0].elapsed < cdgc::REFRESH_BUDGET_MS,
        arrivals[0].reply matches refresh::ReplyView::Login { status, session } && status < 300
            && session is Some,
        arrivals[1].elapsed < cdgc::REFRESH_BUDGET_MS,
        arrivals[1].reply matches refresh::ReplyView::Token { status, jwt } && status < 300
            && jwt is Some,
        found(arrivals[2], schema),
        schema.len() > 0,
        json::string_of(schema[0], "core.location"@) is Some,
        found(arrivals[3], columns),
        columns.len() > 0,
        found(arrivals[4], links),
        catalog::linked_terms(links).len() > 0,
        found(arrivals[5], terms),
    ensures
        after_arrivals(
            refresh::begun(cfg, elapsed),
            arrivals,
            refresh::basis_of(cfg, schema_id),
        ) == (refresh::StepView::Done {
            fields: catalog::field_map(
                columns,
                links,
                terms,
                refresh::basis_of(cfg, schema_id).marker,
            ),
            asset: refresh::AssetView {
                name: json::string_of(schema[0], "core.name"@),
                external_id: json::string_of(schema[0], "core.externalId"@),
            },
        }),
{
    let t = refresh::basis_of(cfg, schema_id);
    reveal_with_fuel(after_arrivals, 7);
    let a1 = arrivals.drop_first();
    let a2 = a1.drop_first();
    let a3 = a2.drop_first();
    let a4 = a3.drop_first();
    let a5 = a4.drop_first();
    assert(a1.first() == arrivals[1]);
    assert(a2.first() == arrivals[2]);
    assert(a3.first() == arrivals[3]);
    assert(a4.first() == arrivals[4]);
    assert(a5.first() == arrivals[5]);
    assert(a5.drop_first().len() == 0);
}

// ---------------------------------------------------------------------------------------------
// The field map
// ---------------------------------------------------------------------------------------------
/// The field map has one field for each column, in the order of the columns, where every column
/// has an identity and a name.
pub proof fn law_one_field_per_column(
    columns: Seq<Tree>,
    links: Seq<Tree>,
    terms: Seq<Tree>,
    marker: Seq<char>,
)
    requires
        forall|i: int|
            0 <= i < columns.len() ==> json::string_of(#[trigger] columns[i], "core.identity"@) is Some
                && json::string_of(columns[i], "core.name"@) is Some,
    ensures
        catalog::field_map(columns, links, terms, marker).len() == columns.len(),
        forall|i: int|
            0 <= i < columns.len() ==> Some(
                #[trigger] catalog::field_map(columns, links, terms, marker)[i],
            ) == catalog::column_field(columns[i], links, terms, marker),
    decreases columns.len(),
{
    if columns.len() > 0 {
        let rest = columns.drop_last();
        assert forall|i: int| 0 <= i < rest.len() implies json::string_of(
            #[trigger] rest[i],
            "core.identity"@,
        ) is Some && json::string_of(rest[i], "core.name"@) is Some by {
            assert(rest[i] == columns[i]);
        }
        law_one_field_per_column(rest, links, terms, marker);
        assert(columns[columns.len() - 1] == columns.last());
        assert(catalog::column_field(columns.last(), links, terms, marker) is Some);
    }
}

/// A field is sensitive exactly where a term governs its column and the description of the term
/// has the marker in it; a column that no link leads from is not sensitive.
pub proof fn law_when_a_field_is_sensitive(
    column: Tree,
    links: Seq<Tree>,
    terms: Seq<Tree>,
    marker: Seq<char>,
)
    ensures
        catalog::column_field(column, links, terms, marker) matches Some(f) ==> {
            let id = json::string_of(column, "core.identity"@)->0;
            &&& f.sensitive <==> catalog::governing_term(id, links, terms) is Some
                && catalog::marks_sensitive(catalog::governing_term(id, links, terms)->0, marker)
            &&& catalog::linked_term(links, id) is None ==> !f.sensitive && f.term is None
        },
{
}

/// The marker is found whatever its case and that of the description: ASCII texts that differ
/// only in case mark the same.
pub proof fn law_markers_ignore_case(
    one: Tree,
    other: Tree,
    description: Seq<char>,
    other_description: Seq<char>,
    marker: Seq<char>,
    other_marker: Seq<char>,
)
    requires
        json::string_of(one, "core.description"@) == Some(description),
        json::string_of(other, "core.description"@) == Some(other_description),
        same_but_for_case(description, other_description),
        same_but_for_case(marker, other_marker),
    ensures
        catalog::marks_sensitive(one, text::lowercase(marker)) == catalog::marks_sensitive(
            other,
            text::lowercase(other_marker),
        ),
{
}

/// Whether a link leads to a term.
pub open spec fn leads_to(link: Tree, term: Seq<char>) -> bool {
    match catalog::link_ends(link) {
        Some((_, target)) => target == term,
        None => false,
    }
}

/// Each term that links lead to is asked for once, and no other.
pub proof fn law_linked_terms_are_asked_for_once(links: Seq<Tree>)
    ensures
        catalog::linked_terms(links).no_duplicates(),
        forall|t: Seq<char>| #[trigger]
            catalog::linked_terms(links).contains(t) <==> exists|i: int|
                0 <= i < links.len() && leads_to(#[trigger] links[i], t),
    decreases links.len(),
{
    if links.len() > 0 {
        let rest = links.drop_last();
        let before = catalog::linked_terms(rest);
        let all = catalog::linked_terms(links);
        law_linked_terms_are_asked_for_once(rest);
        assert forall|t: Seq<char>| #[trigger] all.contains(t) <==> exists|i: int|
            0 <= i < links.len() && leads_to(#[trigger] links[i], t) by {
            if all.contains(t) {
                let k = choose|k: int| 0 <= k < all.len() && all[k] == t;
                if k < before.len() {
                    assert(before[k] == t);
                    assert(before.contains(t));
                    let i = choose|i: int|
                        0 <= i < rest.len() && leads_to(#[trigger] rest[i], t);
                    assert(links[i] == rest[i]);
                } else {
                    assert(links[links.len() - 1] == links.last());
                }
            }
            if exists|i: int|
                0 <= i < links.len() && leads_to(#[trigger] links[i], t) {
                let i = choose|i: int|
                    0 <= i < links.len() && leads_to(#[trigger] links[i], t);
                if i < rest.len() {
                    assert(rest[i] == links[i]);
                    assert(before.contains(t));
                    let k = choose|k: int| 0 <= k < before.len() && before[k] == t;
                    assert(all[k] == t);
                } else {
                    if before.contains(t) {
                        let k = choose|k: int| 0 <= k < before.len() && before[k] == t;
                        assert(all[k] == t);
                    } else {
                        assert(all[all.len() - 1] == t);
                    }
                }
            }
        }
    }
}

/// The term that governs a column is among those that are asked for.
pub proof fn law_governing_terms_are_asked_for(links: Seq<Tree>, column: Seq<char>)
    ensures
        catalog::linked_term(links, column) matches Some(t) ==> catalog::linked_terms(
            links,
        ).contains(t),
{
    law_linked_terms_are_asked_for_once(links);
    lemma_linked_term(links, column);
}

proof fn lemma_linked_term(links: Seq<Tree>, column: Seq<char>)
    ensures
        catalog::linked_term(links, column) matches Some(t) ==> exists|i: int|
            0 <= i < links.len() && leads_to(#[trigger] links[i], t),
    decreases links.len(),
{
    if links.len() > 0 {
        let rest = links.drop_first();
        lemma_linked_term(rest, column);
        assert(links[0] == links.first());
        if let Some(t) = catalog::linked_term(rest, column) {
            let i = choose|i: int|
                0 <= i < rest.len() && leads_to(#[trigger] rest[i], t);
            assert(links[i + 1] == rest[i]);
        }
    }
}

// ---------------------------------------------------------------------------------------------
// The cache
// ---------------------------------------------------------------------------------------------
/// A map that was fetched is served from the cache for as long as it is fresh, and no longer.
pub proof fn law_fetched_maps_are_served_while_fresh(
    cached: Option<CachedFieldMap>,
    fetched: cache::FetchOutcome,
    now: i64,
    fails_open: bool,
    later: i64,
    ttl: i64,
)
    requires
        fetched is Fetched,
    ensures
        cache::after_fetch(cached, fetched, now, fails_open) matches cache::LookupStep::Store(map)
            && map.timestamp == now && cache::after_read(
            cache::ReadOutcome::Found(map),
            later,
            ttl,
        ) == (if later - now < ttl {
            cache::LookupStep::Serve(Some(map))
        } else {
            cache::LookupStep::TakeLock { cached: Some(map) }
        }),
{
}

/// When the catalog fails, the last known map is served if the policy fails open, and otherwise
/// none; where there is no map, none is served either way.
pub proof fn law_what_is_served_when_the_catalog_fails(
    cached: Option<CachedFieldMap>,
    now: i64,
    fails_open: bool,
)
    ensures
        cache::after_fetch(cached, cache::FetchOutcome::Failed, now, fails_open)
            == cache::LookupStep::Serve(
            if fails_open {
                cached
            } else {
                None
            },
        ),
        cache::after_fetch(None, cache::FetchOutcome::Failed, now, fails_open)
            == cache::LookupStep::Serve(None),
{
}

/// Only who has the refresh lock fetches: whoever does not get it serves what there is, stale or
/// not.
pub proof fn law_one_fetches_for_all(cached: Option<CachedFieldMap>)
    ensures
        cache::after_lock(cached, Some(false)) == cache::LookupStep::Serve(cached),
        cache::after_lock(cached, Some(true)) == (cache::LookupStep::Fetch { cached }),
        cache::after_lock(cached, None) == (cache::LookupStep::Fetch { cached }),
{
}

/// What a lookup serves, and the map that it stores, from what came of its steps.
pub open spec fn looked_up(
    read: cache::ReadOutcome,
    acquired: Option<bool>,
    fetched: cache::FetchOutcome,
    now: i64,
    ttl: i64,
    fails_open: bool,
) -> (Option<CachedFieldMap>, Option<CachedFieldMap>) {
    match cache::after_read(read, now, ttl) {
        cache::LookupStep::TakeLock { cached } => match cache::after_lock(cached, acquired) {
            cache::LookupStep::Fetch { cached } => match cache::after_fetch(
                cached,
                fetched,
                now,
                fails_open,
            ) {
                cache::LookupStep::Store(map) => (Some(map), Some(map)),
                cache::LookupStep::Serve(map) => (map, None),
                _ => (None, None),
            },
            cache::LookupStep::Serve(map) => (map, None),
            _ => (None, None),
        },
        cache::LookupStep::Serve(map) => (map, None),
        _ => (None, None),
    }
}

/// What a lookup serves: a fresh map from the cache; else, for whoever does not get the lock, the
/// cached map; else the map that was fetched, which is stored too; and if the fetch failed, the
/// cached map where the policy fails open, and otherwise none.
pub proof fn law_what_a_lookup_serves(
    read: cache::ReadOutcome,
    acquired: Option<bool>,
    fetched: cache::FetchOutcome,
    now: i64,
    ttl: i64,
    fails_open: bool,
)
    ensures
        ({
            let cached = cache::read_map(read);
            let (served, stored) = looked_up(read, acquired, fetched, now, ttl, fails_open);
            if (cached is Some && now - cached->0.timestamp < ttl) || acquired == Some(false) {
                served == cached && stored is None
            } else {
                match fetched {
                    cache::FetchOutcome::Fetched { fields, asset } => {
                        &&& served is Some && stored == served
                        &&& served->0.fields == fields
                        &&& served->0.name == asset.name
                        &&& served->0.external_id == asset.external_id
                        &&& served->0.timestamp == now
                    },
                    cache::FetchOutcome::Failed => {
                        &&& served == (if fails_open {
                            cached
                        } else {
                            None
                        })
                        &&& stored is None
                    },
                }
            }
        }),
{
}

/// What a store that holds a lock acquired at a time, or none, answers to a step while nobody
/// else writes to it.
pub open spec fn store_answer(held: Option<i64>, step: cache::LockStep) -> cache::LockEvent {
    match step {
        cache::LockStep::Claim | cache::LockStep::Reclaim => if held is None {
            cache::LockEvent::Stored
        } else {
            cache::LockEvent::Conflict
        },
        cache::LockStep::Read => match held {
            Some(at) => cache::LockEvent::Held(at),
            None => cache::LockEvent::Free,
        },
        _ => cache::LockEvent::Stored,
    }
}

/// What the store holds after a step.
pub open spec fn held_after(held: Option<i64>, step: cache::LockStep, now: i64) -> Option<i64> {
    match step {
        cache::LockStep::Claim | cache::LockStep::Reclaim => if held is None {
            Some(now)
        } else {
            held
        },
        cache::LockStep::TakeOver => Some(now),
        _ => held,
    }
}

/// How an attempt at the lock goes on from a step while nobody else writes to the store: the step
/// that it comes to after so many steps, and what the store then holds.
pub open spec fn attempt(
    held: Option<i64>,
    step: cache::LockStep,
    now: i64,
    steps: nat,
) -> (cache::LockStep, Option<i64>)
    decreases steps,
{
    if steps == 0 {
        (step, held)
    } else {
        attempt(
            held_after(held, step, now),
            cache::after_lock_step(step, store_answer(held, step), now),
            now,
            (steps - 1) as nat,
        )
    }
}

/// An attempt at the lock ends within three steps. It succeeds exactly where there is no lock or
/// the lock is as old as its time to live, and then leaves a lock of its own; a younger lock is
/// left as it is.
pub proof fn law_young_locks_are_respected(held: Option<i64>, now: i64)
    ensures
        attempt(held, cache::LockStep::Claim, now, 3) == (if held is None || now - held->0
            >= cache::REFRESH_LOCK_TTL_SECONDS {
            (cache::LockStep::Ended(true), Some(now))
        } else {
            (cache::LockStep::Ended(false), held)
        }),
{
    reveal_with_fuel(attempt, 4);
}

/// One of those who try for the lock: the time at which they do, the step that they are at, and
/// the version of the lock that they read.
pub struct Contender {
    pub now: i64,
    pub step: cache::LockStep,
    pub seen: nat,
}

/// A store that holds a lock acquired at a time, or none, and counts the versions of it, with all
/// who try for the lock.
pub struct Race {
    pub held: Option<i64>,
    pub version: nat,
    pub contenders: Seq<Contender>,
}

/// What the store answers to a contender: it stores a lock where there is none, or in place of
/// the version that the contender read; it may also fail.
pub open spec fn race_answer(race: Race, c: Contender, fails: bool) -> cache::LockEvent {
    if fails {
        cache::LockEvent::Failed
    } else {
        match c.step {
            cache::LockStep::TakeOver => if race.held is Some && race.version == c.seen {
                cache::LockEvent::Stored
            } else {
                cache::LockEvent::Conflict
            },
            cache::LockStep::Ended(_) | cache::LockStep::Failed => cache::LockEvent::Failed,
            _ => store_answer(race.held, c.step),
        }
    }
}

/// One step of one contender.
pub open spec fn turn(race: Race, who: int, fails: bool) -> Race {
    if 0 <= who < race.contenders.len() {
        let c = race.contenders[who];
        let event = race_answer(race, c, fails);
        Race {
            held: if event == cache::LockEvent::Stored {
                Some(c.now)
            } else {
                race.held
            },
            version: if event == cache::LockEvent::Stored {
                race.version + 1
            } else {
                race.version
            },
            contenders: race.contenders.update(
                who,
                Contender {
                    now: c.now,
                    step: cache::after_lock_step(c.step, event, c.now),
                    seen: if c.step is Read {
                        race.version
                    } else {
                        c.seen
                    },
                },
            ),
        }
    } else {
        race
    }
}

/// How a race stands after some turns: who takes each, and whether the store then fails.
pub open spec fn raced(race: Race, turns: Seq<(int, bool)>) -> Race
    decreases turns.len(),
{
    if turns.len() == 0 {
        race
    } else {
        let before = raced(race, turns.drop_last());
        let (who, fails) = turns.last();
        turn(before, who, fails)
    }
}

/// Whether two times are as far apart as the time to live of a lock.
pub open spec fn far_apart(one: i64, other: i64) -> bool {
    one - other >= cache::REFRESH_LOCK_TTL_SECONDS || other - one >= cache::REFRESH_LOCK_TTL_SECONDS
}

/// Whether a contender has acquired the lock.
pub open spec fn has_won(c: Contender) -> bool {
    c.step == cache::LockStep::Ended(true)
}

/// What holds at every point of a race that began with a lock or none: the lock is no older than
/// any that was acquired, whoever takes it over has read an expired one, and those who acquired it
/// are far apart.
spec fn orderly(race: Race, first: Option<i64>) -> bool {
    &&& first is Some ==> race.held is Some && first->0 <= race.held->0
    &&& forall|i: int|
        #![trigger race.contenders[i]]
        0 <= i < race.contenders.len() ==> {
            let c = race.contenders[i];
            &&& has_won(c) ==> race.held is Some && c.now <= race.held->0
            &&& has_won(c) && first is Some ==> c.now - first->0 >= cache::REFRESH_LOCK_TTL_SECONDS
            &&& c.step is TakeOver ==> c.seen <= race.version
            &&& c.step is TakeOver && c.seen == race.version ==> race.held is Some && c.now
                - race.held->0 >= cache::REFRESH_LOCK_TTL_SECONDS
        }
    &&& forall|i: int, j: int|
        #![trigger race.contenders[i], race.contenders[j]]
        0 <= i < race.contenders.len() && 0 <= j < race.contenders.len() && i != j && has_won(
            race.contenders[i],
        ) && has_won(race.contenders[j]) ==> far_apart(
            race.contenders[i].now,
            race.contenders[j].now,
        )
}

proof fn lemma_turn(race: Race, first: Option<i64>, who: int, fails: bool)
    requires
        orderly(race, first),
    ensures
        orderly(turn(race, who, fails), first),
{
    if 0 <= who < race.contenders.len() {
        let after = turn(race, who, fails);
        let c = race.contenders[who];
        assert forall|i: int|
            #![trigger after.contenders[i]]
            0 <= i < after.contenders.len() implies {
            let d = after.contenders[i];
            &&& has_won(d) ==> after.held is Some && d.now <= after.held->0
            &&& has_won(d) && first is Some ==> d.now - first->0 >= cache::REFRESH_LOCK_TTL_SECONDS
            &&& d.step is TakeOver ==> d.seen <= after.version
            &&& d.step is TakeOver && d.seen == after.version ==> after.held is Some && d.now
                - after.held->0 >= cache::REFRESH_LOCK_TTL_SECONDS
        } by {
            assert(orderly(race, first));
            let d = race.contenders[i];
            assert(race.contenders[who] == c);
        }
        assert forall|i: int, j: int|
            #![trigger after.contenders[i], after.contenders[j]]
            0 <= i < after.contenders.len() && 0 <= j < after.contenders.len() && i != j && has_won(
                after.contenders[i],
            ) && has_won(after.contenders[j]) implies far_apart(
            after.contenders[i].now,
            after.contenders[j].now,
        ) by {
            let a = race.contenders[i];
            let b = race.contenders[j];
        }
    }
}

proof fn lemma_raced(race: Race, turns: Seq<(int, bool)>)
    requires
        orderly(race, race.held),
    ensures
        orderly(raced(race, turns), race.held),
    decreases turns.len(),
{
    if turns.len() > 0 {
        lemma_raced(race, turns.drop_last());
        let (who, fails) = turns.last();
        lemma_turn(raced(race, turns.drop_last()), race.held, who, fails);
    }
}

/// A refresh has a single initiator. However the steps of any number of attempts interleave, and
/// at whatever times they are made, on a store that keeps the lock: of attempts within the time to
/// live of a lock only one acquires it, and none within that of the lock that was there at first.
pub proof fn law_single_flight(race: Race, turns: Seq<(int, bool)>, i: int, j: int)
    requires
        forall|k: int|
            0 <= k < race.contenders.len() ==> (#[trigger] race.contenders[k]).step
                == cache::LockStep::Claim,
        0 <= i < raced(race, turns).contenders.len(),
        0 <= j < raced(race, turns).contenders.len(),
    ensures
        ({
            let after = raced(race, turns);
            let one = after.contenders[i];
            let other = after.contenders[j];
            &&& has_won(one) && has_won(other) && i != j ==> far_apart(one.now, other.now)
            &&& has_won(one) && race.held is Some ==> one.now - race.held->0
                >= cache::REFRESH_LOCK_TTL_SECONDS
        }),
{
    lemma_raced(race, turns);
}

/// A turn changes nobody's time, so an attempt keeps the time at which it was made.
pub proof fn law_attempts_keep_their_time(race: Race, turns: Seq<(int, bool)>, i: int)
    requires
        0 <= i < race.contenders.len(),
    ensures
        raced(race, turns).contenders.len() == race.contenders.len(),
        raced(race, turns).contenders[i].now == race.contenders[i].now,
    decreases turns.len(),
{
    if turns.len() > 0 {
        law_attempts_keep_their_time(race, turns.drop_last(), i);
    }
}

/// Whatever others write to the store, the lock is acquired only by storing it.
pub proof fn law_locks_are_acquired_by_storing(
    step: cache::LockStep,
    event: cache::LockEvent,
    now: i64,
)
    requires
        !(step is Ended),
    ensures
        cache::after_lock_step(step, event, now) == cache::LockStep::Ended(true) ==> {
            &&& event == cache::LockEvent::Stored
            &&& step is Claim || step is TakeOver || step is Reclaim
        },
{
}

/// How many operations storing a field map may still take.
pub open spec fn operations_left(step: cache::WriteStep) -> int {
    match step {
        cache::WriteStep::Read(left) => 2 * left,
        cache::WriteStep::Replace(left) => 2 * left - 1,
        cache::WriteStep::Create(left) => 2 * left - 1,
        cache::WriteStep::Ended => 0,
    }
}

/// Whether a step of storing a field map has an attempt left.
pub open spec fn has_attempts(step: cache::WriteStep) -> bool {
    match step {
        cache::WriteStep::Read(left) => 1 <= left <= cache::CAS_MAX_RETRIES,
        cache::WriteStep::Replace(left) => 1 <= left <= cache::CAS_MAX_RETRIES,
        cache::WriteStep::Create(left) => 1 <= left <= cache::CAS_MAX_RETRIES,
        cache::WriteStep::Ended => true,
    }
}

/// Storing a field map ends: each operation leaves fewer to come, of six at first, since no more
/// than three attempts are made. It is tried again only after a conflict.
pub proof fn law_storing_ends(step: cache::WriteStep, event: cache::WriteEvent)
    requires
        has_attempts(step),
    ensures
        has_attempts(cache::WriteStep::Read(cache::CAS_MAX_RETRIES)),
        operations_left(cache::WriteStep::Read(cache::CAS_MAX_RETRIES)) == 6,
        has_attempts(cache::after_write_step(step, event)),
        !(step is Ended) ==> 0 <= operations_left(cache::after_write_step(step, event))
            < operations_left(step),
        cache::after_write_step(step, event) is Read ==> event == cache::WriteEvent::Conflict,
{
}

/// What a store that holds a map, or none, answers to a step of storing one while nobody else
/// writes to it.
pub open spec fn write_answer(present: bool, step: cache::WriteStep) -> cache::WriteEvent {
    match step {
        cache::WriteStep::Read(_) => if present {
            cache::WriteEvent::Found
        } else {
            cache::WriteEvent::Missing
        },
        cache::WriteStep::Replace(_) => if present {
            cache::WriteEvent::Stored
        } else {
            cache::WriteEvent::Conflict
        },
        cache::WriteStep::Create(_) => if present {
            cache::WriteEvent::Conflict
        } else {
            cache::WriteEvent::Stored
        },
        cache::WriteStep::Ended => cache::WriteEvent::Failed,
    }
}

/// The step that storing a map comes to after so many operations while nobody else writes to the
/// store, and whether the store then holds the map.
pub open spec fn stored_after(
    present: bool,
    step: cache::WriteStep,
    operations: nat,
) -> (cache::WriteStep, bool)
    decreases operations,
{
    if operations == 0 {
        (step, false)
    } else {
        let event = write_answer(present, step);
        let (last, stored) = stored_after(
            present || event == cache::WriteEvent::Stored,
            cache::after_write_step(step, event),
            (operations - 1) as nat,
        );
        (last, stored || event == cache::WriteEvent::Stored)
    }
}

/// While nobody else writes to the store, the first attempt stores a map in two operations,
/// whether or not there was one.
pub proof fn law_maps_are_stored(present: bool)
    ensures
        stored_after(present, cache::WriteStep::Read(cache::CAS_MAX_RETRIES), 2) == (
            cache::WriteStep::Ended,
            true,
        ),
{
    reveal_with_fuel(stored_after, 3);
}

} // verus!
