//! What becomes of a message, said of its members themselves.

use vstd::prelude::*;
use vstd::string::*;

use crate::cdgc::CachedFieldMap;
use crate::entitlement::{MaskMode, Projection};
use crate::json;
use crate::json::Tree;
use crate::laws_payload;
use crate::records;
use crate::request::Ctx;
use crate::response;
use crate::text;
use crate::wire;

verus! {

/// Whether a content item is of type text.
pub open spec fn text_item(item: Tree) -> bool {
    laws_payload::holds(item, "type"@, Tree::String("text"@))
}

/// Whether the text of a content item writes a JSON value.
pub open spec fn writes(item: Tree, value: Tree) -> bool {
    &&& text_item(item)
    &&& laws_payload::owns(item, "text"@)
    &&& item->Object_0["text"@] is String
    &&& wire::json_of_text(item->Object_0["text"@]->String_0) == Some(value)
}

/// Whether the text of a content item writes no JSON value.
pub open spec fn writes_nothing(item: Tree) -> bool {
    ||| !text_item(item)
    ||| !laws_payload::owns(item, "text"@)
    ||| !(item->Object_0["text"@] is String)
    ||| wire::json_of_text(item->Object_0["text"@]->String_0) is None
}

proof fn lemma_items(item: Tree)
    ensures
        response::is_text(item) == text_item(item),
        writes_nothing(item) <==> response::json_text(item) is None,
        response::json_text(item) matches Some(v) ==> writes(item, v),
{
}

proof fn lemma_first_text_item(items: Seq<Tree>, from: int, i: int)
    requires
        0 <= from <= i < items.len(),
        text_item(items[i]),
        forall|j: int| from <= j < i ==> !text_item(#[trigger] items[j]),
    ensures
        response::first_text(items, from) == Some(i),
    decreases i - from,
{
    lemma_items(items[from]);
    if from < i {
        lemma_first_text_item(items, from + 1, i);
    }
}

proof fn lemma_no_text_item(items: Seq<Tree>, from: int)
    requires
        0 <= from,
        forall|j: int| from <= j < items.len() ==> !text_item(#[trigger] items[j]),
    ensures
        response::first_text(items, from) is None,
    decreases items.len() - from,
{
    if from < items.len() {
        lemma_items(items[from]);
        lemma_no_text_item(items, from + 1);
    }
}

proof fn lemma_first_json_item(items: Seq<Tree>, from: int, i: int)
    requires
        0 <= from <= i < items.len(),
        !writes_nothing(items[i]),
        forall|j: int| from <= j < i ==> writes_nothing(#[trigger] items[j]),
    ensures
        response::first_json_text(items, from) == Some(i),
    decreases i - from,
{
    lemma_items(items[from]);
    if from < i {
        lemma_first_json_item(items, from + 1, i);
    }
}

proof fn lemma_no_json_item(items: Seq<Tree>, from: int)
    requires
        0 <= from,
        forall|j: int| from <= j < items.len() ==> writes_nothing(#[trigger] items[j]),
    ensures
        response::first_json_text(items, from) is None,
    decreases items.len() - from,
{
    if from < items.len() {
        lemma_items(items[from]);
        lemma_no_json_item(items, from + 1);
    }
}

/// The items with the text of a payload in one of them, and nothing else changed.
pub open spec fn with_payload(items: Seq<Tree>, i: int, payload: Tree) -> Seq<Tree> {
    items.update(
        i,
        Tree::Object(
            items[i]->Object_0.insert("text"@, Tree::String(wire::text_of_json(payload))),
        ),
    )
}

/// What goes out of a payload: its projection and, if that is an object, the account of the
/// decision in it.
pub proof fn law_what_goes_out(
    payload: Tree,
    path: Seq<char>,
    p: Projection,
    ctx: Ctx,
    map: CachedFieldMap,
)
    ensures
        response::governed(payload, path, p, ctx, map) == (match records::projected_at(
            payload,
            path,
            p,
        ) {
            Tree::Object(m) => Tree::Object(
                m.insert(
                    "_entitlement"@,
                    response::annotation(p, ctx, map, records::withheld_at(payload, path, p)),
                ),
            ),
            other => other,
        }),
        response::governed_payload(payload, path, p, ctx, map) == (if records::has_records_at(
            payload,
            path,
        ) {
            Some(response::governed(payload, path, p, ctx, map))
        } else {
            None
        }),
{
}

/// A text as JSON, or null.
pub open spec fn or_null(s: Option<String>) -> Tree {
    match s {
        Some(s) => Tree::String(s@),
        None => Tree::Null,
    }
}

/// The account of a decision has nine members and no other: what each of them is.
pub proof fn law_members_of_the_account(
    p: Projection,
    ctx: Ctx,
    map: CachedFieldMap,
    withheld: Seq<Seq<char>>,
    key: Seq<char>,
)
    ensures
        ({
            let account = response::annotation(p, ctx, map, withheld);
            &&& account is Object
            &&& account->Object_0.contains_key(key) <==> {
                ||| key == "entitled"@
                ||| key == "clearance"@
                ||| key == "purpose"@
                ||| key == "mode"@
                ||| key == "withheld"@
                ||| key == "assetId"@
                ||| key == "name"@
                ||| key == "externalId"@
                ||| key == "source"@
            }
            &&& account->Object_0["entitled"@] == Tree::Bool(p.entitled)
            &&& account->Object_0["clearance"@] == or_null(ctx.clearance)
            &&& account->Object_0["purpose"@] == or_null(ctx.purpose)
            &&& account->Object_0["mode"@] == Tree::String(
                match p.mode {
                    MaskMode::Mask => "mask"@,
                    MaskMode::Nullify => "nullify"@,
                    MaskMode::Drop => "drop"@,
                },
            )
            &&& account->Object_0["withheld"@] == Tree::Array(
                Seq::new(withheld.len(), |i: int| Tree::String(withheld[i])),
            )
            &&& account->Object_0["assetId"@] == Tree::String(ctx.asset_id@)
            &&& account->Object_0["name"@] == or_null(map.name)
            &&& account->Object_0["externalId"@] == or_null(map.external_id)
            &&& account->Object_0["source"@] == Tree::String("cdgc"@)
        }),
{
    reveal_strlit("entitled");
    reveal_strlit("clearance");
    reveal_strlit("purpose");
    reveal_strlit("mode");
    reveal_strlit("withheld");
    reveal_strlit("assetId");
    reveal_strlit("name");
    reveal_strlit("externalId");
    reveal_strlit("source");
    assert("entitled"@[0] == 'e' && "externalId"@[0] == 'e');
    assert("entitled"@.len() != "externalId"@.len());
    assert("clearance"@[0] == 'c');
    assert("purpose"@[0] == 'p');
    assert("mode"@[0] == 'm');
    assert("withheld"@[0] == 'w');
    assert("assetId"@[0] == 'a');
    assert("name"@[0] == 'n');
    assert("source"@[0] == 's');
    assert(json::strings(withheld) =~= Seq::new(withheld.len(), |i: int| Tree::String(withheld[i])));
}

/// A result with structured content is rewritten in its envelope: the structured content is
/// governed, the first text item of the content gets its text, and nothing else changes. It is
/// left alone where there is no record.
pub proof fn law_structured_content(
    m: Map<Seq<char>, Tree>,
    r: Map<Seq<char>, Tree>,
    items: Seq<Tree>,
    i: int,
    is_sse: bool,
    path: Seq<char>,
    p: Projection,
    ctx: Ctx,
    map: CachedFieldMap,
)
    requires
        m.contains_key("result"@),
        m["result"@] == Tree::Object(r),
        r.contains_key("structuredContent"@),
    ensures
        ({
            let payload = r["structuredContent"@];
            let new = response::governed(payload, path, p, ctx, map);
            let out = response::rewritten(Tree::Object(m), is_sse, path, p, ctx, map);
            let result = r.insert("structuredContent"@, new);
            &&& !records::has_records_at(payload, path) ==> out is None
            &&& records::has_records_at(payload, path) ==> {
                &&& response::withheld_in_message(Tree::Object(m), is_sse, path, p)
                    == records::withheld_at(payload, path, p)
                &&& (!r.contains_key("content"@) || !(r["content"@] is Array)) ==> out == Some(
                    Tree::Object(m.insert("result"@, Tree::Object(result))),
                )
                &&& laws_payload::holds(Tree::Object(r), "content"@, Tree::Array(items)) && (
                forall|j: int| 0 <= j < items.len() ==> !text_item(#[trigger] items[j])) ==> out
                    == Some(Tree::Object(m.insert("result"@, Tree::Object(result))))
                &&& laws_payload::holds(Tree::Object(r), "content"@, Tree::Array(items)) && 0 <= i
                    < items.len() && text_item(items[i]) && (forall|j: int|
                    0 <= j < i ==> !text_item(#[trigger] items[j])) ==> out == Some(
                    Tree::Object(
                        m.insert(
                            "result"@,
                            Tree::Object(
                                result.insert(
                                    "content"@,
                                    Tree::Array(with_payload(items, i, new)),
                                ),
                            ),
                        ),
                    ),
                )
            }
        }),
{
    reveal_strlit("structuredContent");
    reveal_strlit("content");
    assert("structuredContent"@.len() != "content"@.len());
    if laws_payload::holds(Tree::Object(r), "content"@, Tree::Array(items)) {
        if forall|j: int| 0 <= j < items.len() ==> !text_item(#[trigger] items[j]) {
            lemma_no_text_item(items, 0);
        }
        if 0 <= i < items.len() && text_item(items[i]) && (forall|j: int|
            0 <= j < i ==> !text_item(#[trigger] items[j])) {
            lemma_first_text_item(items, 0, i);
        }
    }
}

/// A result without structured content is rewritten in the first text of its content that is
/// JSON, and nowhere else. It is left alone where there is no record.
pub proof fn law_content_in_text(
    m: Map<Seq<char>, Tree>,
    r: Map<Seq<char>, Tree>,
    items: Seq<Tree>,
    i: int,
    payload: Tree,
    is_sse: bool,
    path: Seq<char>,
    p: Projection,
    ctx: Ctx,
    map: CachedFieldMap,
)
    requires
        m.contains_key("result"@),
        m["result"@] == Tree::Object(r),
        !r.contains_key("structuredContent"@),
        r.contains_key("content"@),
        r["content"@] == Tree::Array(items),
        0 <= i < items.len(),
        writes(items[i], payload),
        forall|j: int| 0 <= j < i ==> writes_nothing(#[trigger] items[j]),
    ensures
        ({
            let new = response::governed(payload, path, p, ctx, map);
            let out = response::rewritten(Tree::Object(m), is_sse, path, p, ctx, map);
            &&& !records::has_records_at(payload, path) ==> out is None
            &&& records::has_records_at(payload, path) ==> {
                &&& response::withheld_in_message(Tree::Object(m), is_sse, path, p)
                    == records::withheld_at(payload, path, p)
                &&& out == Some(
                    Tree::Object(
                        m.insert(
                            "result"@,
                            Tree::Object(
                                r.insert("content"@, Tree::Array(with_payload(items, i, new))),
                            ),
                        ),
                    ),
                )
            }
        }),
{
    lemma_items(items[i]);
    lemma_first_json_item(items, 0, i);
}

/// Whether a result carries no payload: no structured content, and no text that is JSON.
pub open spec fn carries_no_payload(result: Tree) -> bool {
    &&& !laws_payload::owns(result, "structuredContent"@)
    &&& laws_payload::owns(result, "content"@) && result->Object_0["content"@] is Array
        ==> forall|j: int|
        0 <= j < result->Object_0["content"@]->Array_0.len() ==> writes_nothing(
            #[trigger] result->Object_0["content"@]->Array_0[j],
        )
}

/// Whether a message is a JSON-RPC reply, or a batch with one in it.
pub open spec fn enveloped(message: Tree) -> bool {
    match message {
        Tree::Array(items) => exists|i: int|
            0 <= i < items.len() && laws_payload::owns(#[trigger] items[i], "jsonrpc"@),
        _ => laws_payload::owns(message, "jsonrpc"@),
    }
}

/// A message whose result carries no payload, or that has no result, is the payload itself where
/// it is the whole of a body and not marked as JSON-RPC, and is left alone otherwise.
pub proof fn law_messages_without_a_result(
    message: Tree,
    is_sse: bool,
    path: Seq<char>,
    p: Projection,
    ctx: Ctx,
    map: CachedFieldMap,
)
    requires
        laws_payload::owns(message, "result"@) ==> carries_no_payload(
            message->Object_0["result"@],
        ),
    ensures
        is_sse || enveloped(message) ==> response::rewritten(message, is_sse, path, p, ctx, map)
            is None,
        !is_sse && !enveloped(message) ==> {
            &&& response::rewritten(message, is_sse, path, p, ctx, map) == (
            if records::has_records_at(message, path) {
                Some(response::governed(message, path, p, ctx, map))
            } else {
                None
            })
            &&& response::withheld_in_message(message, is_sse, path, p) == records::withheld_at(
                message,
                path,
                p,
            )
        },
{
    if let Tree::Array(items) = message {
        assert forall|i: int| 0 <= i < items.len() implies laws_payload::owns(
            #[trigger] items[i],
            "jsonrpc"@,
        ) == (json::member_of(items[i], "jsonrpc"@) is Some) by {}
        if enveloped(message) {
            let i = choose|i: int|
                0 <= i < items.len() && laws_payload::owns(#[trigger] items[i], "jsonrpc"@);
            assert(json::member_of(items[i], "jsonrpc"@) is Some);
        }
        if response::is_marked(message) {
            let i = choose|i: int|
                0 <= i < items.len() && json::member_of(#[trigger] items[i], "jsonrpc"@) is Some;
            assert(laws_payload::owns(items[i], "jsonrpc"@));
        }
    }
    if laws_payload::owns(message, "result"@) {
        let result = message->Object_0["result"@];
        if let Some(Tree::Array(items)) = json::member_of(result, "content"@) {
            lemma_no_json_item(items, 0);
        }
    }
}

/// A body goes out as the frame of its rewritten message, and is left alone where it carries none
/// or none that is rewritten.
pub proof fn law_bodies(
    body: Seq<char>,
    is_sse: bool,
    path: Seq<char>,
    p: Projection,
    ctx: Ctx,
    map: CachedFieldMap,
)
    ensures
        response::message_in(body, is_sse) is None ==> response::rewritten_text(
            body,
            is_sse,
            path,
            p,
            ctx,
            map,
        ) is None,
        response::message_in(body, is_sse) matches Some(message) ==> match response::rewritten(
            message,
            is_sse,
            path,
            p,
            ctx,
            map,
        ) {
            Some(new) => response::rewritten_text(body, is_sse, path, p, ctx, map) == Some(
                if is_sse {
                    "event: message\ndata: "@ + wire::text_of_json(new) + "\n\n"@
                } else {
                    wire::text_of_json(new)
                },
            ),
            None => response::rewritten_text(body, is_sse, path, p, ctx, map) is None,
        },
{
}

/// What replaces a body is its rewritten text, and the names that come with it are those that are
/// withheld in its message.
pub proof fn law_replacements(
    out: response::Rewritten<String>,
    body: Seq<char>,
    is_sse: bool,
    path: Seq<char>,
    p: Projection,
    ctx: Ctx,
    map: CachedFieldMap,
)
    requires
        response::replaces(out, body, is_sse, path, p, ctx, map),
    ensures
        response::rewritten_text(body, is_sse, path, p, ctx, map) == Some(out.value@),
        text::texts(out.withheld@) == response::withheld_in_message(
            response::message_in(body, is_sse)->0,
            is_sse,
            path,
            p,
        ),
{
}

} // verus!
