//! The catalog: what is asked of its search, and the field map that its answers make.

use vstd::prelude::*;
use vstd::string::*;

use crate::entitlement;
use crate::entitlement::{FieldView, GovernedField};
use crate::json;
use crate::json::{single_object, string_array, Json, Object, Tree};
use crate::text;
use crate::text::{contains, same, to_lowercase};
use crate::wire;
use crate::wire::integer;

verus! {

/// The class of the columns of a flat file.
pub const CT_FLATFIELD: &'static str = "com.infa.odin.models.file.flat.FlatField";

/// The kind of a link from a column to its business term.
pub const REL_TECH_GLOSSARY: &'static str =
    "com.infa.ccgf.models.governance.IClassTechnicalGlossaryBase";

// ---------------------------------------------------------------------------------------------
// Queries
// ---------------------------------------------------------------------------------------------
/// A clause that asks for one of some values in a field.
pub open spec fn terms_clause(field: Seq<char>, values: Seq<Seq<char>>) -> Tree {
    json::single("terms"@, json::single(field, Tree::Array(json::strings(values))))
}

/// A search for up to `size` documents that satisfy some clauses.
pub open spec fn search(size: u64, clauses: Map<Seq<char>, Tree>) -> Tree {
    Tree::Object(
        Map::<Seq<char>, Tree>::empty().insert("from"@, Tree::Number(wire::number_of(0))).insert(
            "size"@,
            Tree::Number(wire::number_of(size as i128)),
        ).insert("query"@, json::single("bool"@, Tree::Object(clauses))),
    )
}

/// Clauses all of which must hold.
pub open spec fn must(clauses: Seq<Tree>) -> Map<Seq<char>, Tree> {
    Map::<Seq<char>, Tree>::empty().insert("must"@, Tree::Array(clauses))
}

/// The search for the schema asset.
pub open spec fn schema_query(schema_id: Seq<char>) -> Tree {
    search(
        1,
        must(
            seq![
                terms_clause("elementType"@, seq!["OBJECT"@]),
                terms_clause("core.identity"@, seq![schema_id]),
            ],
        ),
    )
}

/// The search for the columns under a location.
pub open spec fn columns_query(location: Seq<char>) -> Tree {
    search(
        1000,
        must(seq![terms_clause("core.classType"@, seq![CT_FLATFIELD@])]).insert(
            "filter"@,
            Tree::Array(
                seq![terms_clause("core.location::path_hierarchy.parent"@, seq![location])],
            ),
        ),
    )
}

/// The search for the links from columns to business terms.
pub open spec fn links_query(columns: Seq<Seq<char>>) -> Tree {
    search(
        5000,
        must(
            seq![
                terms_clause("elementType"@, seq!["RELATIONSHIP"@]),
                terms_clause("type"@, seq![REL_TECH_GLOSSARY@]),
                terms_clause("core.sourceIdentity"@, columns),
            ],
        ),
    )
}

/// The search for business terms.
pub open spec fn terms_query(terms: Seq<Seq<char>>) -> Tree {
    search(
        5000,
        must(
            seq![
                terms_clause("elementType"@, seq!["OBJECT"@]),
                terms_clause("core.identity"@, terms),
            ],
        ),
    )
}

fn clause(field: &str, values: Vec<String>) -> (r: Json)
    ensures
        r@ == terms_clause(field@, text::texts(values@)),
{
    single_object("terms", single_object(field, string_array(values)))
}

fn clause_of(field: &str, value: &str) -> (r: Json)
    ensures
        r@ == terms_clause(field@, seq![value@]),
{
    let mut values: Vec<String> = Vec::new();
    values.push(value.to_owned());
    assert(text::texts(values@) =~= seq![value@]);
    clause(field, values)
}

fn search_for(size: u64, clauses: Object) -> (r: Json)
    ensures
        r@ == search(size, clauses@),
{
    let mut o = Object::new();
    o.insert("from".to_owned(), integer(0));
    o.insert("size".to_owned(), integer(size));
    o.insert("query".to_owned(), single_object("bool", Json::Object(clauses)));
    Json::Object(o)
}

fn all_of(clauses: Vec<Json>) -> (r: Object)
    ensures
        r@ == must(json::trees(clauses@)),
{
    let mut o = Object::new();
    o.insert("must".to_owned(), Json::Array(clauses));
    o
}

/// The search for the schema asset.
pub fn query_schema(schema_id: &str) -> (r: Json)
    ensures
        r@ == schema_query(schema_id@),
{
    let mut clauses: Vec<Json> = Vec::new();
    clauses.push(clause_of("elementType", "OBJECT"));
    clauses.push(clause_of("core.identity", schema_id));
    proof {
        json::lemma_trees(clauses@);
        assert(json::trees(clauses@) =~= seq![
            terms_clause("elementType"@, seq!["OBJECT"@]),
            terms_clause("core.identity"@, seq![schema_id@]),
        ]);
    }
    search_for(1, all_of(clauses))
}

/// The search for the columns under a location.
pub fn query_columns(location: &str) -> (r: Json)
    ensures
        r@ == columns_query(location@),
{
    let mut clauses: Vec<Json> = Vec::new();
    clauses.push(clause_of("core.classType", CT_FLATFIELD));
    let mut filters: Vec<Json> = Vec::new();
    filters.push(clause_of("core.location::path_hierarchy.parent", location));
    proof {
        json::lemma_trees(clauses@);
        json::lemma_trees(filters@);
        assert(json::trees(clauses@) =~= seq![terms_clause("core.classType"@, seq![CT_FLATFIELD@])]);
        assert(json::trees(filters@) =~= seq![
            terms_clause("core.location::path_hierarchy.parent"@, seq![location@]),
        ]);
    }
    let mut o = all_of(clauses);
    o.insert("filter".to_owned(), Json::Array(filters));
    search_for(1000, o)
}

/// The search for the links from columns to business terms.
pub fn query_links(columns: Vec<String>) -> (r: Json)
    ensures
        r@ == links_query(text::texts(columns@)),
{
    let ghost ids = text::texts(columns@);
    let mut clauses: Vec<Json> = Vec::new();
    clauses.push(clause_of("elementType", "RELATIONSHIP"));
    clauses.push(clause_of("type", REL_TECH_GLOSSARY));
    clauses.push(clause("core.sourceIdentity", columns));
    proof {
        json::lemma_trees(clauses@);
        assert(json::trees(clauses@) =~= seq![
            terms_clause("elementType"@, seq!["RELATIONSHIP"@]),
            terms_clause("type"@, seq![REL_TECH_GLOSSARY@]),
            terms_clause("core.sourceIdentity"@, ids),
        ]);
    }
    search_for(5000, all_of(clauses))
}

/// The search for business terms.
pub fn query_terms(terms: Vec<String>) -> (r: Json)
    ensures
        r@ == terms_query(text::texts(terms@)),
{
    let ghost ids = text::texts(terms@);
    let mut clauses: Vec<Json> = Vec::new();
    clauses.push(clause_of("elementType", "OBJECT"));
    clauses.push(clause("core.identity", terms));
    proof {
        json::lemma_trees(clauses@);
        assert(json::trees(clauses@) =~= seq![
            terms_clause("elementType"@, seq!["OBJECT"@]),
            terms_clause("core.identity"@, ids),
        ]);
    }
    search_for(5000, all_of(clauses))
}

// ---------------------------------------------------------------------------------------------
// Answers
// ---------------------------------------------------------------------------------------------
/// The documents of hits: what each has as its source, where it has one.
pub open spec fn sources(hits: Seq<Tree>) -> Seq<Tree>
    decreases hits.len(),
{
    if hits.len() == 0 {
        Seq::empty()
    } else {
        let before = sources(hits.drop_last());
        match json::member_of(hits.last(), "sourceAsMap"@) {
            Some(doc) => before.push(doc),
            None => before,
        }
    }
}

/// The documents that a search found.
pub open spec fn documents(answer: Tree) -> Seq<Tree> {
    match json::member_of(answer, "hits"@) {
        Some(hits) => match json::member_of(hits, "hits"@) {
            Some(Tree::Array(a)) => sources(a),
            _ => Seq::empty(),
        },
        None => Seq::empty(),
    }
}

fn take_sources(hits: Vec<Json>) -> (r: Vec<Json>)
    ensures
        json::trees(r@) == sources(json::trees(hits@)),
{
    let ghost all = hits@;
    let ghost whole = json::trees(all);
    let mut out: Vec<Json> = Vec::new();
    proof {
        json::lemma_trees(all);
        assert(whole.take(0) =~= Seq::empty());
    }
    for hit in it: hits.into_iter()
        invariant
            it.seq() == all,
            whole == json::trees(all),
            whole.len() == all.len(),
            forall|k: int| 0 <= k < all.len() ==> #[trigger] whole[k] == json::tree(all[k]),
            json::trees(out@) == sources(whole.take(it.index())),
    {
        proof {
            assert(whole.take(it.index() + 1).drop_last() =~= whole.take(it.index()));
            assert(whole[it.index()] == json::tree(hit));
        }
        let ghost had = out@;
        let mut hit = hit;
        if let Some(slot) = hit.member_mut("sourceAsMap") {
            let mut doc = Json::Null;
            core::mem::swap(slot, &mut doc);
            proof {
                json::lemma_trees_push(had, doc);
            }
            out.push(doc);
        }
    }
    assert(whole.take(all.len() as int) =~= whole);
    out
}

/// The documents that a search found.
pub fn found_documents(answer: Json) -> (r: Vec<Json>)
    ensures
        json::trees(r@) == documents(answer@),
{
    let mut answer = answer;
    if let Some(hits) = answer.member_mut("hits") {
        if let Some(Json::Array(list)) = hits.member_mut("hits") {
            let mut items: Vec<Json> = Vec::new();
            core::mem::swap(list, &mut items);
            return take_sources(items);
        }
    }
    Vec::new()
}

/// The strings that documents have under a name, where they have one.
pub open spec fn strings_under(docs: Seq<Tree>, key: Seq<char>) -> Seq<Seq<char>>
    decreases docs.len(),
{
    if docs.len() == 0 {
        Seq::empty()
    } else {
        let before = strings_under(docs.drop_last(), key);
        match json::string_of(docs.last(), key) {
            Some(s) => before.push(s),
            None => before,
        }
    }
}

/// The identities of columns.
pub fn column_ids(columns: &Vec<Json>) -> (r: Vec<String>)
    ensures
        text::texts(r@) == strings_under(json::trees(columns@), "core.identity"@),
{
    let ghost all = json::trees(columns@);
    let mut out: Vec<String> = Vec::new();
    let mut i: usize = 0;
    proof {
        json::lemma_trees(columns@);
        assert(all.take(0) =~= Seq::empty());
        assert(text::texts(out@) =~= Seq::empty());
    }
    while i < columns.len()
        invariant
            0 <= i <= columns@.len(),
            all == json::trees(columns@),
            all.len() == columns@.len(),
            forall|k: int| 0 <= k < columns@.len() ==> #[trigger] all[k] == json::tree(columns@[k]),
            text::texts(out@) == strings_under(all.take(i as int), "core.identity"@),
        decreases columns@.len() - i,
    {
        assert(all.take(i + 1).drop_last() =~= all.take(i as int));
        assert(all[i as int] == json::tree(columns@[i as int]));
        if let Some(s) = columns[i].string("core.identity") {
            let ghost had = text::texts(out@);
            out.push(s.clone());
            assert(text::texts(out@) =~= had.push(s@));
        }
        i += 1;
    }
    assert(all.take(i as int) =~= all);
    out
}

// ---------------------------------------------------------------------------------------------
// Links and terms
// ---------------------------------------------------------------------------------------------
/// The column and the term that a link joins, if it names both.
pub open spec fn link_ends(link: Tree) -> Option<(Seq<char>, Seq<char>)> {
    match (json::string_of(link, "core.sourceIdentity"@), json::string_of(link, "core.targetIdentity"@)) {
        (Some(source), Some(target)) => Some((source, target)),
        _ => None,
    }
}

/// The term that a column is linked to: that of the first link from it.
pub open spec fn linked_term(links: Seq<Tree>, column: Seq<char>) -> Option<Seq<char>>
    decreases links.len(),
{
    if links.len() == 0 {
        None
    } else {
        match link_ends(links.first()) {
            Some((source, target)) if source == column => Some(target),
            _ => linked_term(links.drop_first(), column),
        }
    }
}

/// The terms that links lead to, each once, in the order in which they first occur.
pub open spec fn linked_terms(links: Seq<Tree>) -> Seq<Seq<char>>
    decreases links.len(),
{
    if links.len() == 0 {
        Seq::empty()
    } else {
        let before = linked_terms(links.drop_last());
        match link_ends(links.last()) {
            Some((_, target)) => if before.contains(target) {
                before
            } else {
                before.push(target)
            },
            None => before,
        }
    }
}

/// The document of a term: the last one with its identity.
pub open spec fn term_document(docs: Seq<Tree>, id: Seq<char>) -> Option<Tree>
    decreases docs.len(),
{
    if docs.len() == 0 {
        None
    } else if json::string_of(docs.last(), "core.identity"@) == Some(id) {
        Some(docs.last())
    } else {
        term_document(docs.drop_last(), id)
    }
}

/// The term that governs a column.
pub open spec fn governing_term(
    column: Seq<char>,
    links: Seq<Tree>,
    terms: Seq<Tree>,
) -> Option<Tree> {
    match linked_term(links, column) {
        Some(id) => term_document(terms, id),
        None => None,
    }
}

/// Whether a term marks its columns as sensitive: its description in lower case has the marker
/// in it.
pub open spec fn marks_sensitive(term: Tree, marker: Seq<char>) -> bool {
    let description = match json::string_of(term, "core.description"@) {
        Some(s) => s,
        None => Seq::empty(),
    };
    text::has_part(text::lowercase(description), marker)
}

/// The field that a column makes, if it has an identity and a name.
pub open spec fn column_field(
    column: Tree,
    links: Seq<Tree>,
    terms: Seq<Tree>,
    marker: Seq<char>,
) -> Option<FieldView> {
    match (json::string_of(column, "core.identity"@), json::string_of(column, "core.name"@)) {
        (Some(id), Some(name)) => {
            let term = governing_term(id, links, terms);
            Some(
                FieldView {
                    name,
                    sensitive: term is Some && marks_sensitive(term->0, marker),
                    term: match term {
                        Some(t) => json::string_of(t, "core.name"@),
                        None => None,
                    },
                },
            )
        },
        _ => None,
    }
}

/// The field map: one field for each column that makes one.
pub open spec fn field_map(
    columns: Seq<Tree>,
    links: Seq<Tree>,
    terms: Seq<Tree>,
    marker: Seq<char>,
) -> Seq<FieldView>
    decreases columns.len(),
{
    if columns.len() == 0 {
        Seq::empty()
    } else {
        let before = field_map(columns.drop_last(), links, terms, marker);
        match column_field(columns.last(), links, terms, marker) {
            Some(f) => before.push(f),
            None => before,
        }
    }
}

fn ends_of(link: &Json) -> (r: Option<(&String, &String)>)
    ensures
        match r {
            Some((source, target)) => link_ends(link@) == Some((source@, target@)),
            None => link_ends(link@) is None,
        },
{
    match (link.string("core.sourceIdentity"), link.string("core.targetIdentity")) {
        (Some(source), Some(target)) => Some((source, target)),
        _ => None,
    }
}

fn has_string(list: &Vec<String>, s: &str) -> (r: bool)
    ensures
        r == text::texts(list@).contains(s@),
{
    let mut i: usize = 0;
    while i < list.len()
        invariant
            0 <= i <= list@.len(),
            forall|k: int| 0 <= k < i ==> #[trigger] list@[k]@ != s@,
        decreases list@.len() - i,
    {
        if same(list[i].as_str(), s) {
            assert(text::texts(list@)[i as int] == s@);
            return true;
        }
        i += 1;
    }
    proof {
        if text::texts(list@).contains(s@) {
            let k = choose|k: int| 0 <= k < list@.len() && text::texts(list@)[k] == s@;
            assert(list@[k]@ == s@);
        }
    }
    false
}

/// The terms that links lead to, each once, in the order in which they first occur.
pub fn term_ids(links: &Vec<Json>) -> (r: Vec<String>)
    ensures
        text::texts(r@) == linked_terms(json::trees(links@)),
{
    let ghost all = json::trees(links@);
    let mut out: Vec<String> = Vec::new();
    let mut i: usize = 0;
    proof {
        json::lemma_trees(links@);
        assert(all.take(0) =~= Seq::empty());
        assert(text::texts(out@) =~= Seq::empty());
    }
    while i < links.len()
        invariant
            0 <= i <= links@.len(),
            all == json::trees(links@),
            all.len() == links@.len(),
            forall|k: int| 0 <= k < links@.len() ==> #[trigger] all[k] == json::tree(links@[k]),
            text::texts(out@) == linked_terms(all.take(i as int)),
        decreases links@.len() - i,
    {
        assert(all.take(i + 1).drop_last() =~= all.take(i as int));
        assert(all[i as int] == json::tree(links@[i as int]));
        if let Some((_, target)) = ends_of(&links[i]) {
            if !has_string(&out, target.as_str()) {
                let ghost had = text::texts(out@);
                out.push(target.clone());
                assert(text::texts(out@) =~= had.push(target@));
            }
        }
        i += 1;
    }
    assert(all.take(i as int) =~= all);
    out
}

fn find_linked<'a>(links: &'a Vec<Json>, column: &str) -> (r: Option<&'a String>)
    ensures
        match r {
            Some(id) => linked_term(json::trees(links@), column@) == Some(id@),
            None => linked_term(json::trees(links@), column@) is None,
        },
{
    let ghost all = json::trees(links@);
    let mut i: usize = 0;
    proof {
        json::lemma_trees(links@);
        assert(all.skip(0) =~= all);
    }
    while i < links.len()
        invariant
            0 <= i <= links@.len(),
            all == json::trees(links@),
            all.len() == links@.len(),
            forall|k: int| 0 <= k < links@.len() ==> #[trigger] all[k] == json::tree(links@[k]),
            linked_term(all.skip(i as int), column@) == linked_term(all, column@),
        decreases links@.len() - i,
    {
        assert(all.skip(i as int).drop_first() =~= all.skip(i + 1));
        assert(all.skip(i as int).first() == json::tree(links@[i as int])) by {
            assert(all[i as int] == json::tree(links@[i as int]));
        }
        if let Some((source, target)) = ends_of(&links[i]) {
            if same(source.as_str(), column) {
                return Some(target);
            }
        }
        i += 1;
    }
    None
}

fn find_term<'a>(docs: &'a Vec<Json>, id: &str) -> (r: Option<&'a Json>)
    ensures
        match r {
            Some(t) => term_document(json::trees(docs@), id@) == Some(t@),
            None => term_document(json::trees(docs@), id@) is None,
        },
{
    let ghost all = json::trees(docs@);
    let mut i: usize = docs.len();
    proof {
        json::lemma_trees(docs@);
        assert(all.take(i as int) =~= all);
    }
    while i > 0
        invariant
            0 <= i <= docs@.len(),
            all == json::trees(docs@),
            all.len() == docs@.len(),
            forall|k: int| 0 <= k < docs@.len() ==> #[trigger] all[k] == json::tree(docs@[k]),
            term_document(all.take(i as int), id@) == term_document(all, id@),
        decreases i,
    {
        assert(all.take(i as int).drop_last() =~= all.take(i - 1));
        assert(all.take(i as int).last() == json::tree(docs@[i - 1])) by {
            assert(all[i - 1] == json::tree(docs@[i - 1]));
        }
        if let Some(found) = docs[i - 1].string("core.identity") {
            if same(found.as_str(), id) {
                return Some(&docs[i - 1]);
            }
        }
        i -= 1;
    }
    None
}

fn is_marked(term: &Json, marker: &str) -> (r: bool)
    ensures
        r == marks_sensitive(term@, marker@),
{
    match term.string("core.description") {
        Some(s) => contains(to_lowercase(s.as_str()).as_str(), marker),
        None => {
            let empty = String::new();
            assert(text::lowercase(empty@) =~= empty@);
            contains(empty.as_str(), marker)
        },
    }
}

fn field_of(column: &Json, links: &Vec<Json>, terms: &Vec<Json>, marker: &str) -> (r: Option<
    GovernedField,
>)
    ensures
        match r {
            Some(f) => column_field(
                column@,
                json::trees(links@),
                json::trees(terms@),
                marker@,
            ) == Some(f@),
            None => column_field(
                column@,
                json::trees(links@),
                json::trees(terms@),
                marker@,
            ) is None,
        },
{
    match (column.string("core.identity"), column.string("core.name")) {
        (Some(id), Some(name)) => {
            let term = match find_linked(links, id.as_str()) {
                Some(tid) => find_term(terms, tid.as_str()),
                None => None,
            };
            match term {
                Some(t) => Some(
                    GovernedField {
                        name: name.clone(),
                        sensitive: is_marked(t, marker),
                        term: match t.string("core.name") {
                            Some(n) => Some(n.clone()),
                            None => None,
                        },
                    },
                ),
                None => Some(GovernedField { name: name.clone(), sensitive: false, term: None }),
            }
        },
        _ => None,
    }
}

/// The field map: one field for each column that has an identity and a name, sensitive if its
/// business term says so.
pub fn build_field_map(
    columns: &Vec<Json>,
    links: &Vec<Json>,
    terms: &Vec<Json>,
    marker: &str,
) -> (r: Vec<GovernedField>)
    ensures
        entitlement::field_views(r@) == field_map(
            json::trees(columns@),
            json::trees(links@),
            json::trees(terms@),
            marker@,
        ),
{
    let ghost all = json::trees(columns@);
    let ghost l = json::trees(links@);
    let ghost t = json::trees(terms@);
    let mut out: Vec<GovernedField> = Vec::new();
    let mut i: usize = 0;
    proof {
        json::lemma_trees(columns@);
        assert(all.take(0) =~= Seq::empty());
        assert(entitlement::field_views(out@) =~= Seq::empty());
    }
    while i < columns.len()
        invariant
            0 <= i <= columns@.len(),
            all == json::trees(columns@),
            all.len() == columns@.len(),
            l == json::trees(links@),
            t == json::trees(terms@),
            forall|k: int| 0 <= k < columns@.len() ==> #[trigger] all[k] == json::tree(columns@[k]),
            entitlement::field_views(out@) == field_map(all.take(i as int), l, t, marker@),
        decreases columns@.len() - i,
    {
        assert(all.take(i + 1).drop_last() =~= all.take(i as int));
        assert(all[i as int] == json::tree(columns@[i as int]));
        if let Some(f) = field_of(&columns[i], links, terms, marker) {
            let ghost had = entitlement::field_views(out@);
            out.push(f);
            assert(entitlement::field_views(out@) =~= had.push(f@));
        }
        i += 1;
    }
    assert(all.take(i as int) =~= all);
    out
}

} // verus!
