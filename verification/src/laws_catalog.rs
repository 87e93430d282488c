//! What is asked of the catalog and what its answers make, said of the documents themselves.

use vstd::prelude::*;
use vstd::string::*;

use crate::catalog;
use crate::entitlement::FieldView;
use crate::json;
use crate::json::Tree;
use crate::laws_payload;
use crate::laws_text;
use crate::wire;

verus! {

// ---------------------------------------------------------------------------------------------
// Queries
// ---------------------------------------------------------------------------------------------
/// An object with one member.
pub open spec fn only(key: Seq<char>, value: Tree) -> Tree {
    Tree::Object(Map::<Seq<char>, Tree>::empty().insert(key, value))
}

/// An array of strings.
pub open spec fn words(row: Seq<Seq<char>>) -> Tree {
    Tree::Array(Seq::new(row.len(), |i: int| Tree::String(row[i])))
}

/// A clause that asks for one of some values in a field.
pub open spec fn any_of(field: Seq<char>, row: Seq<Seq<char>>) -> Tree {
    only("terms"@, only(field, words(row)))
}

/// A query from the first hit on.
pub open spec fn query(size: i128, clauses: Tree) -> Tree {
    Tree::Object(
        Map::<Seq<char>, Tree>::empty().insert("from"@, Tree::Number(wire::number_of(0))).insert(
            "size"@,
            Tree::Number(wire::number_of(size)),
        ).insert("query"@, only("bool"@, clauses)),
    )
}

/// What the four searches ask for: the asset itself, the columns under its location, the links
/// from every column, and every term.
pub proof fn law_queries(id: Seq<char>, ids: Seq<Seq<char>>)
    ensures
        catalog::schema_query(id) == query(
            1,
            only(
                "must"@,
                Tree::Array(
                    seq![
                        any_of("elementType"@, seq!["OBJECT"@]),
                        any_of("core.identity"@, seq![id]),
                    ],
                ),
            ),
        ),
        catalog::columns_query(id) == query(
            1000,
            Tree::Object(
                Map::<Seq<char>, Tree>::empty().insert(
                    "must"@,
                    Tree::Array(
                        seq![
                            any_of(
                                "core.classType"@,
                                seq!["com.infa.odin.models.file.flat.FlatField"@],
                            ),
                        ],
                    ),
                ).insert(
                    "filter"@,
                    Tree::Array(seq![any_of("core.location::path_hierarchy.parent"@, seq![id])]),
                ),
            ),
        ),
        catalog::links_query(ids) == query(
            5000,
            only(
                "must"@,
                Tree::Array(
                    seq![
                        any_of("elementType"@, seq!["RELATIONSHIP"@]),
                        any_of(
                            "type"@,
                            seq!["com.infa.ccgf.models.governance.IClassTechnicalGlossaryBase"@],
                        ),
                        any_of("core.sourceIdentity"@, ids),
                    ],
                ),
            ),
        ),
        catalog::terms_query(ids) == query(
            5000,
            only(
                "must"@,
                Tree::Array(
                    seq![any_of("elementType"@, seq!["OBJECT"@]), any_of("core.identity"@, ids)],
                ),
            ),
        ),
{
    assert forall|field: Seq<char>, row: Seq<Seq<char>>| #[trigger]
        catalog::terms_clause(field, row) == any_of(field, row) by {
        assert(json::strings(row) =~= Seq::new(row.len(), |i: int| Tree::String(row[i])));
    }
}

// ---------------------------------------------------------------------------------------------
// Answers
// ---------------------------------------------------------------------------------------------
/// The documents of hits, one after another: that of each hit which has a source.
pub proof fn law_sources(a: Seq<Tree>, b: Seq<Tree>, hit: Tree)
    ensures
        catalog::sources(Seq::<Tree>::empty()) == Seq::<Tree>::empty(),
        catalog::sources(seq![hit]) == (if laws_payload::owns(hit, "sourceAsMap"@) {
            seq![hit->Object_0["sourceAsMap"@]]
        } else {
            Seq::<Tree>::empty()
        }),
        catalog::sources(a + b) == catalog::sources(a) + catalog::sources(b),
    decreases b.len(),
{
    let one = seq![hit];
    assert(one.drop_last() =~= Seq::<Tree>::empty());
    assert(catalog::sources(one.drop_last()) =~= Seq::<Tree>::empty());
    assert(one.last() == hit);
    assert(catalog::sources(one) =~= (if laws_payload::owns(hit, "sourceAsMap"@) {
        seq![hit->Object_0["sourceAsMap"@]]
    } else {
        Seq::<Tree>::empty()
    }));
    if b.len() > 0 {
        law_sources(a, b.drop_last(), hit);
        assert((a + b).drop_last() =~= a + b.drop_last());
        assert((a + b).last() == b.last());
        assert(catalog::sources(a + b) =~= catalog::sources(a) + catalog::sources(b));
    } else {
        assert(a + b =~= a);
        assert(catalog::sources(b) =~= Seq::<Tree>::empty());
        assert(catalog::sources(a) + catalog::sources(b) =~= catalog::sources(a));
    }
}

/// What an answer found: the documents of the hits in its hits, and nothing where it has none.
pub proof fn law_documents(answer: Tree, m: Map<Seq<char>, Tree>, hits: Seq<Tree>)
    ensures
        laws_payload::holds(answer, "hits"@, Tree::Object(m)) && m.contains_key("hits"@)
            && m["hits"@] == Tree::Array(hits) ==> catalog::documents(answer) == catalog::sources(
            hits,
        ),
        laws_payload::holds(answer, "hits"@, Tree::Object(m)) && !(m.contains_key("hits"@)
            && m["hits"@] is Array) ==> catalog::documents(answer) == Seq::<Tree>::empty(),
        !laws_payload::owns(answer, "hits"@) || !(answer->Object_0["hits"@] is Object)
            ==> catalog::documents(answer) == Seq::<Tree>::empty(),
{
}

/// The strings under a name, one after another: that of each document which has one.
pub proof fn law_strings_under(a: Seq<Tree>, b: Seq<Tree>, doc: Tree, key: Seq<char>, s: Seq<char>)
    ensures
        catalog::strings_under(Seq::<Tree>::empty(), key) == Seq::<Seq<char>>::empty(),
        laws_payload::holds(doc, key, Tree::String(s)) ==> catalog::strings_under(seq![doc], key)
            == seq![s],
        !(laws_payload::owns(doc, key) && doc->Object_0[key] is String) ==> catalog::strings_under(
            seq![doc],
            key,
        ) == Seq::<Seq<char>>::empty(),
        catalog::strings_under(a + b, key) == catalog::strings_under(a, key)
            + catalog::strings_under(b, key),
    decreases b.len(),
{
    let one = seq![doc];
    assert(one.drop_last() =~= Seq::<Tree>::empty());
    assert(catalog::strings_under(one.drop_last(), key) =~= Seq::<Seq<char>>::empty());
    assert(one.last() == doc);
    if laws_payload::holds(doc, key, Tree::String(s)) {
        assert(catalog::strings_under(one, key) =~= seq![s]);
    }
    if b.len() > 0 {
        law_strings_under(a, b.drop_last(), doc, key, s);
        assert((a + b).drop_last() =~= a + b.drop_last());
        assert((a + b).last() == b.last());
        assert(catalog::strings_under(a + b, key) =~= catalog::strings_under(a, key)
            + catalog::strings_under(b, key));
    } else {
        assert(a + b =~= a);
        assert(catalog::strings_under(b, key) =~= Seq::<Seq<char>>::empty());
        assert(catalog::strings_under(a, key) + catalog::strings_under(b, key)
            =~= catalog::strings_under(a, key));
    }
}

// ---------------------------------------------------------------------------------------------
// Links and terms
// ---------------------------------------------------------------------------------------------
/// Whether a link joins a column to a term.
pub open spec fn joins(link: Tree, column: Seq<char>, term: Seq<char>) -> bool {
    &&& laws_payload::holds(link, "core.sourceIdentity"@, Tree::String(column))
    &&& laws_payload::holds(link, "core.targetIdentity"@, Tree::String(term))
}

/// Whether a link does not lead from a column to a term.
pub open spec fn leads_elsewhere(link: Tree, column: Seq<char>) -> bool {
    ||| !laws_payload::holds(link, "core.sourceIdentity"@, Tree::String(column))
    ||| !laws_payload::owns(link, "core.targetIdentity"@)
    ||| !(link->Object_0["core.targetIdentity"@] is String)
}

/// The first link from a column to a term counts, whatever comes before and after.
pub proof fn law_first_links_count(
    before: Seq<Tree>,
    link: Tree,
    after: Seq<Tree>,
    column: Seq<char>,
    term: Seq<char>,
)
    requires
        forall|j: int| 0 <= j < before.len() ==> leads_elsewhere(#[trigger] before[j], column),
    ensures
        joins(link, column, term) ==> catalog::linked_term(before + seq![link] + after, column)
            == Some(term),
        catalog::linked_term(before, column) is None,
    decreases before.len(),
{
    let all = before + seq![link] + after;
    if before.len() > 0 {
        let rest = before.drop_first();
        assert forall|j: int| 0 <= j < rest.len() implies leads_elsewhere(
            #[trigger] rest[j],
            column,
        ) by {
            assert(leads_elsewhere(before[j + 1], column));
        }
        law_first_links_count(rest, link, after, column, term);
        assert(leads_elsewhere(before[0], column));
        assert(all.first() == before[0]);
        assert(all.drop_first() =~= rest + seq![link] + after);
    } else {
        assert(all.first() == link);
    }
}

/// Every term that a link from a column leads to is asked for, and no other, each once.
pub proof fn law_terms_asked_for(a: Seq<Tree>, link: Tree, column: Seq<char>, term: Seq<char>)
    ensures
        catalog::linked_terms(Seq::<Tree>::empty()) == Seq::<Seq<char>>::empty(),
        joins(link, column, term) && !catalog::linked_terms(a).contains(term)
            ==> catalog::linked_terms(a.push(link)) == catalog::linked_terms(a).push(term),
        joins(link, column, term) && catalog::linked_terms(a).contains(term)
            ==> catalog::linked_terms(a.push(link)) == catalog::linked_terms(a),
        (forall|c: Seq<char>, t: Seq<char>| !(#[trigger] joins(link, c, t)))
            ==> catalog::linked_terms(a.push(link)) == catalog::linked_terms(a),
{
    let all = a.push(link);
    assert(all.drop_last() =~= a);
    assert(all.last() == link);
    if let Some((source, target)) = catalog::link_ends(link) {
        assert(joins(link, source, target));
    }
}

/// Whether a document is not that of a term.
pub open spec fn another_term(doc: Tree, id: Seq<char>) -> bool {
    !laws_payload::holds(doc, "core.identity"@, Tree::String(id))
}

/// The last document with the identity of a term counts, whatever comes before and after.
pub proof fn law_last_terms_count(before: Seq<Tree>, doc: Tree, after: Seq<Tree>, id: Seq<char>)
    requires
        forall|j: int| 0 <= j < after.len() ==> another_term(#[trigger] after[j], id),
    ensures
        !another_term(doc, id) ==> catalog::term_document(before + seq![doc] + after, id) == Some(
            doc,
        ),
        catalog::term_document(after, id) is None,
    decreases after.len(),
{
    let all = before + seq![doc] + after;
    if after.len() > 0 {
        let rest = after.drop_last();
        assert forall|j: int| 0 <= j < rest.len() implies another_term(#[trigger] rest[j], id) by {
            assert(another_term(after[j], id));
        }
        law_last_terms_count(before, doc, rest, id);
        assert(another_term(after[after.len() - 1], id));
        assert(all.last() == after.last());
        assert(all.drop_last() =~= before + seq![doc] + rest);
    } else {
        assert(all.last() == doc);
    }
}

/// The description of a term, and the empty text where it has none.
pub open spec fn description(term: Tree) -> Seq<char> {
    if laws_payload::owns(term, "core.description"@) && term->Object_0["core.description"@] is String {
        term->Object_0["core.description"@]->String_0
    } else {
        Seq::empty()
    }
}

/// A term marks its columns as sensitive exactly where the marker stands somewhere in its
/// description in lower case: at the beginning, at the end or anywhere between.
pub proof fn law_where_the_marker_stands(term: Tree, marker: Seq<char>, pre: Seq<char>, post: Seq<char>)
    ensures
        laws_text::in_lower_case(description(term)) == pre + marker + post
            ==> catalog::marks_sensitive(term, marker),
        catalog::marks_sensitive(term, marker) ==> exists|a: Seq<char>, b: Seq<char>|
            laws_text::in_lower_case(description(term)) == #[trigger] (a + marker + b),
{
    laws_text::law_lower_case(description(term));
    laws_text::law_parts(pre, marker, post, laws_text::in_lower_case(description(term)));
}

/// A description that has a word anywhere in it, in whatever case, marks its columns where the
/// marker is that word in lower case.
pub proof fn law_marked_descriptions(
    term: Tree,
    pre: Seq<char>,
    word: Seq<char>,
    post: Seq<char>,
)
    requires
        description(term) == pre + word + post,
        laws_text::plain(pre + word + post),
    ensures
        catalog::marks_sensitive(term, laws_text::lowered(word)),
{
    let whole = pre + word + post;
    assert(laws_text::lowered(whole) =~= laws_text::lowered(pre) + laws_text::lowered(word)
        + laws_text::lowered(post));
    law_where_the_marker_stands(
        term,
        laws_text::lowered(word),
        laws_text::lowered(pre),
        laws_text::lowered(post),
    );
}

// ---------------------------------------------------------------------------------------------
// Fields
// ---------------------------------------------------------------------------------------------
/// The field that a column makes: its name, and what the term says that its first link leads to.
pub proof fn law_field_of_a_column(
    column: Tree,
    id: Seq<char>,
    name: Seq<char>,
    links: Seq<Tree>,
    terms: Seq<Tree>,
    marker: Seq<char>,
    term: Seq<char>,
    doc: Tree,
)
    requires
        laws_payload::holds(column, "core.identity"@, Tree::String(id)),
        laws_payload::holds(column, "core.name"@, Tree::String(name)),
    ensures
        catalog::column_field(column, links, terms, marker) is Some,
        ({
            let field = catalog::column_field(column, links, terms, marker)->0;
            &&& field.name == name
            &&& catalog::linked_term(links, id) is None ==> !field.sensitive && field.term is None
            &&& catalog::linked_term(links, id) == Some(term) && catalog::term_document(
                terms,
                term,
            ) is None ==> !field.sensitive && field.term is None
            &&& catalog::linked_term(links, id) == Some(term) && catalog::term_document(
                terms,
                term,
            ) == Some(doc) ==> {
                &&& field.sensitive == catalog::marks_sensitive(doc, marker)
                &&& field.term == (if laws_payload::owns(doc, "core.name"@)
                    && doc->Object_0["core.name"@] is String {
                    Some(doc->Object_0["core.name"@]->String_0)
                } else {
                    None
                })
            }
        }),
{
}

/// The field map holds the fields of the columns, one after another; a column without an identity
/// or a name makes none.
pub proof fn law_field_maps(
    a: Seq<Tree>,
    b: Seq<Tree>,
    column: Tree,
    links: Seq<Tree>,
    terms: Seq<Tree>,
    marker: Seq<char>,
)
    ensures
        catalog::field_map(Seq::<Tree>::empty(), links, terms, marker) == Seq::<
            FieldView,
        >::empty(),
        catalog::column_field(column, links, terms, marker) matches Some(f) ==> catalog::field_map(
            seq![column],
            links,
            terms,
            marker,
        ) == seq![f],
        !(laws_payload::owns(column, "core.identity"@) && column->Object_0["core.identity"@] is String
            && laws_payload::owns(column, "core.name"@) && column->Object_0["core.name"@] is String)
            ==> catalog::field_map(seq![column], links, terms, marker) == Seq::<
            FieldView,
        >::empty(),
        catalog::field_map(a + b, links, terms, marker) == catalog::field_map(
            a,
            links,
            terms,
            marker,
        ) + catalog::field_map(b, links, terms, marker),
    decreases b.len(),
{
    let one = seq![column];
    assert(one.drop_last() =~= Seq::<Tree>::empty());
    assert(catalog::field_map(one.drop_last(), links, terms, marker) =~= Seq::<FieldView>::empty());
    assert(one.last() == column);
    if let Some(f) = catalog::column_field(column, links, terms, marker) {
        assert(catalog::field_map(one, links, terms, marker) =~= seq![f]);
    }
    if b.len() > 0 {
        law_field_maps(a, b.drop_last(), column, links, terms, marker);
        assert((a + b).drop_last() =~= a + b.drop_last());
        assert((a + b).last() == b.last());
        assert(catalog::field_map(a + b, links, terms, marker) =~= catalog::field_map(
            a,
            links,
            terms,
            marker,
        ) + catalog::field_map(b, links, terms, marker));
    } else {
        assert(a + b =~= a);
        assert(catalog::field_map(b, links, terms, marker) =~= Seq::<FieldView>::empty());
        assert(catalog::field_map(a, links, terms, marker) + catalog::field_map(
            b,
            links,
            terms,
            marker,
        ) =~= catalog::field_map(a, links, terms, marker));
    }
}

} // verus!
