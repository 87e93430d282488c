//! The response leg: what becomes of a response body for one caller.

use vstd::prelude::*;
use vstd::string::*;

use crate::cdgc::CachedFieldMap;
use crate::config;
use crate::config::{entitlement_policy, Config};
use crate::entitlement;
use crate::entitlement::{plan, CallerContext, MaskMode, Projection};
use crate::json;
use crate::json::{string_array, text_or_null, Json, Object, Tree};
use crate::records;
use crate::records::{has_records, project_records};
use crate::request::Ctx;
use crate::text;
use crate::text::{
    contains, copy_opt, decimal_of, from_utf8, join, same, split, strip_prefix, trim, trim_start,
};
use crate::wire;
use crate::wire::{parse, to_text};

verus! {

// ---------------------------------------------------------------------------------------------
// Framing
// ---------------------------------------------------------------------------------------------
/// The data that a line of an event stream carries, if it is a data line.
pub open spec fn data_of(line: Seq<char>) -> Option<Seq<char>> {
    match text::after_prefix(text::trimmed_start(line), "data:"@) {
        Some(rest) => Some(text::trimmed(rest)),
        None => None,
    }
}

/// The JSON value that a line of an event stream carries.
pub open spec fn event_in(line: Seq<char>) -> Option<Tree> {
    match data_of(line) {
        Some(data) => wire::json_of_text(data),
        None => None,
    }
}

/// The first JSON value that lines of an event stream carry.
pub open spec fn first_event(lines: Seq<Seq<char>>) -> Option<Tree>
    decreases lines.len(),
{
    if lines.len() == 0 {
        None
    } else {
        match event_in(lines.first()) {
            Some(t) => Some(t),
            None => first_event(lines.drop_first()),
        }
    }
}

/// The message that a body carries: the whole body, or the first data line of an event stream
/// that is JSON.
pub open spec fn message_in(body: Seq<char>, is_sse: bool) -> Option<Tree> {
    if is_sse {
        first_event(text::pieces(body, '\n'))
    } else {
        wire::json_of_text(body)
    }
}

fn data_line(line: &str) -> (r: Option<String>)
    ensures
        text::opt_text(r) == data_of(line@),
{
    match strip_prefix(trim_start(line).as_str(), "data:") {
        Some(rest) => Some(trim(rest.as_str())),
        None => None,
    }
}

/// The message that a body carries.
pub fn parse_rpc(body: &str, is_sse: bool) -> (r: Option<Json>)
    ensures
        wire::opt_tree(r) == message_in(body@, is_sse),
        !is_sse ==> wire::opt_tree(r) == wire::json_of_text(body@),
{
    if !is_sse {
        return parse(body);
    }
    let lines = split(body, '\n');
    let ghost all = text::texts(lines@);
    let mut i: usize = 0;
    assert(all.skip(0) =~= all);
    while i < lines.len()
        invariant
            0 <= i <= lines@.len(),
            all == text::texts(lines@),
            first_event(all.skip(i as int)) == first_event(all),
            all == text::pieces(body@, '\n'),
            is_sse,
        decreases lines@.len() - i,
    {
        assert(all.skip(i as int).first() == lines@[i as int]@);
        assert(all.skip(i as int).drop_first() =~= all.skip(i + 1));
        if let Some(data) = data_line(lines[i].as_str()) {
            if let Some(v) = parse(data.as_str()) {
                return Some(v);
            }
        }
        i += 1;
    }
    None
}

/// The body that carries a message: its text, or one event of a stream.
pub open spec fn framed(message: Seq<char>, is_sse: bool) -> Seq<char> {
    if is_sse {
        "event: message\ndata: "@ + message + "\n\n"@
    } else {
        message
    }
}

/// Lines without content carry no message.
proof fn lemma_blank_lines(lines: Seq<Seq<char>>)
    requires
        forall|i: int| 0 <= i < lines.len() ==> (#[trigger] lines[i]).len() == 0,
    ensures
        first_event(lines) is None,
    decreases lines.len(),
{
    if lines.len() > 0 {
        reveal_strlit("data:");
        assert(text::trimmed_start(lines.first()) == lines.first());
        assert(event_in(lines.first()) is None);
        lemma_blank_lines(lines.drop_first());
    }
}

/// An event stream of one message carries that message.
proof fn lemma_framed(message: Seq<char>)
    requires
        wire::one_line(message),
    ensures
        message_in(framed(message, true), true) == wire::json_of_text(message),
{
    reveal_strlit("event: message\ndata: ");
    reveal_strlit("\n\n");
    reveal_strlit("data:");
    let head = "event: message"@;
    let data = "data: "@ + message;
    let rest = data.push('\n') + seq!['\n'];
    reveal_strlit("event: message");
    reveal_strlit("data: ");
    assert(framed(message, true) =~= head.push('\n') + rest);
    assert(forall|i: int| 0 <= i < data.len() ==> #[trigger] data[i] != '\n') by {
        assert forall|i: int| 0 <= i < data.len() implies #[trigger] data[i] != '\n' by {
            if i >= 6 {
                assert(data[i] == message[i - 6]);
            }
        }
    }
    text::lemma_one_piece(head, '\n');
    text::lemma_one_piece(data, '\n');
    text::lemma_pieces_joined(head, '\n', rest);
    text::lemma_pieces_joined(data, '\n', seq!['\n']);
    assert(text::pieces(seq!['\n'], '\n') =~= seq![Seq::<char>::empty(), Seq::<char>::empty()]) by {
        reveal_with_fuel(text::pieces, 2);
        assert(seq!['\n'].drop_last() =~= Seq::<char>::empty());
    }
    let lines = text::pieces(framed(message, true), '\n');
    assert(lines.first() == head);
    assert(lines.drop_first().first() == data);
    assert(text::trimmed_start(head) == head);
    assert(head[0] != "data:"@[0]);
    assert(event_in(head) is None);
    assert(text::trimmed_start(data) == data);
    assert("data:"@.is_prefix_of(data)) by {
        assert("data:"@ =~= data.take(5));
    }
    let after = data.skip(5);
    assert(after =~= seq![' '] + message);
    assert(after.drop_first() =~= message);
    assert(text::trimmed_start(message) == message);
    assert(text::trimmed_start(after) == message);
    assert(text::trimmed_end(message) == message);
    assert(data_of(data) == Some(message));
    assert(first_event(lines.drop_first()) == (match wire::json_of_text(message) {
        Some(t) => Some(t),
        None => first_event(lines.drop_first().drop_first()),
    }));
    assert(lines.drop_first().drop_first() =~= text::pieces(seq!['\n'], '\n'));
    lemma_blank_lines(lines.drop_first().drop_first());
}

/// The body that carries a message. The message that it carries is the one that its text writes,
/// which is the message itself if that is readable.
pub fn frame(rpc: &Json, is_sse: bool) -> (r: String)
    ensures
        r@ == framed(wire::text_of_json(rpc@), is_sse),
        message_in(r@, is_sse) == wire::json_of_text(wire::text_of_json(rpc@)),
        wire::readable(rpc@, wire::READ_DEPTH as nat) ==> message_in(r@, is_sse) == Some(rpc@),
{
    let message = to_text(rpc);
    proof {
        lemma_framed(message@);
    }
    if is_sse {
        join(join("event: message\ndata: ", message.as_str()).as_str(), "\n\n")
    } else {
        message
    }
}

// ---------------------------------------------------------------------------------------------
// The payload
// ---------------------------------------------------------------------------------------------
/// The word for a mode.
pub open spec fn mode_word(mode: MaskMode) -> Seq<char> {
    match mode {
        MaskMode::Mask => "mask"@,
        MaskMode::Nullify => "nullify"@,
        MaskMode::Drop => "drop"@,
    }
}

/// The word for a mode.
pub fn mode_str(mode: MaskMode) -> (r: &'static str)
    ensures
        r@ == mode_word(mode),
{
    match mode {
        MaskMode::Mask => "mask",
        MaskMode::Nullify => "nullify",
        MaskMode::Drop => "drop",
    }
}

/// The account of an entitlement decision that goes into the payload.
pub open spec fn annotation(
    p: Projection,
    ctx: Ctx,
    map: CachedFieldMap,
    withheld: Seq<Seq<char>>,
) -> Tree {
    Tree::Object(
        Map::<Seq<char>, Tree>::empty().insert("entitled"@, Tree::Bool(p.entitled)).insert(
            "clearance"@,
            json::string_or_null(text::opt_text(ctx.clearance)),
        ).insert("purpose"@, json::string_or_null(text::opt_text(ctx.purpose))).insert(
            "mode"@,
            Tree::String(mode_word(p.mode)),
        ).insert("withheld"@, Tree::Array(json::strings(withheld))).insert(
            "assetId"@,
            Tree::String(ctx.asset_id@),
        ).insert("name"@, json::string_or_null(text::opt_text(map.name))).insert(
            "externalId"@,
            json::string_or_null(text::opt_text(map.external_id)),
        ).insert("source"@, Tree::String("cdgc"@)),
    )
}

fn annotate(p: &Projection, ctx: &Ctx, map: &CachedFieldMap, withheld: Vec<String>) -> (r: Json)
    ensures
        r@ == annotation(*p, *ctx, *map, text::texts(withheld@)),
{
    let mut o = Object::new();
    o.insert("entitled".to_owned(), Json::Bool(p.entitled));
    o.insert("clearance".to_owned(), text_or_null(&ctx.clearance));
    o.insert("purpose".to_owned(), text_or_null(&ctx.purpose));
    o.insert("mode".to_owned(), Json::String(mode_str(p.mode).to_owned()));
    o.insert("withheld".to_owned(), string_array(withheld));
    o.insert("assetId".to_owned(), Json::String(ctx.asset_id.clone()));
    o.insert("name".to_owned(), text_or_null(&map.name));
    o.insert("externalId".to_owned(), text_or_null(&map.external_id));
    o.insert("source".to_owned(), Json::String("cdgc".to_owned()));
    Json::Object(o)
}

/// A payload as it goes to the caller: its records projected and, if it is an object, the account
/// of the decision beside them.
pub open spec fn governed(
    payload: Tree,
    path: Seq<char>,
    p: Projection,
    ctx: Ctx,
    map: CachedFieldMap,
) -> Tree {
    json::with_member(
        records::projected_at(payload, path, p),
        "_entitlement"@,
        annotation(p, ctx, map, records::withheld_at(payload, path, p)),
    )
}

/// A value as it goes to the caller, with the names of the fields that were withheld in it.
#[derive(Debug)]
pub struct Rewritten<T> {
    pub value: T,
    pub withheld: Vec<String>,
}

/// A payload as it goes to the caller, if it has records at the path.
pub fn govern(
    payload: Json,
    path: &str,
    p: &Projection,
    ctx: &Ctx,
    map: &CachedFieldMap,
) -> (r: Option<Rewritten<Json>>)
    ensures
        match r {
            Some(out) => {
                &&& records::has_records_at(payload@, path@)
                &&& out.value@ == governed(payload@, path@, *p, *ctx, *map)
                &&& text::texts(out.withheld@) == records::withheld_at(payload@, path@, *p)
            },
            None => !records::has_records_at(payload@, path@),
        },
{
    if !has_records(&payload, path) {
        return None;
    }
    let mut payload = payload;
    let withheld = project_records(&mut payload, path, p);
    let account = annotate(p, ctx, map, withheld.to_vec());
    payload.set_member("_entitlement", account);
    Some(Rewritten { value: payload, withheld: withheld.to_vec() })
}

/// A payload as it goes to the caller; nothing if it has no records at the path.
pub open spec fn governed_payload(
    payload: Tree,
    path: Seq<char>,
    p: Projection,
    ctx: Ctx,
    map: CachedFieldMap,
) -> Option<Tree> {
    if records::has_records_at(payload, path) {
        Some(governed(payload, path, p, ctx, map))
    } else {
        None
    }
}

// ---------------------------------------------------------------------------------------------
// The message
// ---------------------------------------------------------------------------------------------
/// Whether a content item is of type text.
pub open spec fn is_text(item: Tree) -> bool {
    json::string_of(item, "type"@) == Some("text"@)
}

/// The JSON value that the text of a content item writes.
pub open spec fn json_text(item: Tree) -> Option<Tree> {
    if is_text(item) {
        match json::string_of(item, "text"@) {
            Some(s) => wire::json_of_text(s),
            None => None,
        }
    } else {
        None
    }
}

/// The first place from `from` on at which an item is of type text.
pub open spec fn first_text(items: Seq<Tree>, from: int) -> Option<int>
    decreases items.len() - from,
{
    if from >= items.len() {
        None
    } else if is_text(items[from]) {
        Some(from)
    } else {
        first_text(items, from + 1)
    }
}

/// The first place from `from` on at which the text of an item is JSON.
pub open spec fn first_json_text(items: Seq<Tree>, from: int) -> Option<int>
    decreases items.len() - from,
{
    if from >= items.len() {
        None
    } else if json_text(items[from]) is Some {
        Some(from)
    } else {
        first_json_text(items, from + 1)
    }
}

/// A content item with the text of a payload.
pub open spec fn with_text(item: Tree, payload: Tree) -> Tree {
    json::with_member(item, "text"@, Tree::String(wire::text_of_json(payload)))
}

/// A tool result whose content, where it has any, gives a payload in its first text item.
pub open spec fn mirrored(result: Tree, payload: Tree) -> Tree {
    match json::member_of(result, "content"@) {
        Some(Tree::Array(items)) => match first_text(items, 0) {
            Some(i) => json::with_member(
                result,
                "content"@,
                Tree::Array(items.update(i, with_text(items[i], payload))),
            ),
            None => result,
        },
        _ => result,
    }
}

/// A tool result as it goes to the caller. The payload is the structured content or else the
/// first JSON text of the content; nothing is rewritten where there is neither, or no record.
pub open spec fn rewritten_result(
    result: Tree,
    path: Seq<char>,
    p: Projection,
    ctx: Ctx,
    map: CachedFieldMap,
) -> Option<Tree> {
    match json::member_of(result, "structuredContent"@) {
        Some(payload) => match governed_payload(payload, path, p, ctx, map) {
            Some(new) => Some(
                mirrored(json::with_member(result, "structuredContent"@, new), new),
            ),
            None => None,
        },
        None => match json::member_of(result, "content"@) {
            Some(Tree::Array(items)) => match first_json_text(items, 0) {
                Some(i) => match governed_payload(json_text(items[i])->0, path, p, ctx, map) {
                    Some(new) => Some(
                        json::with_member(
                            result,
                            "content"@,
                            Tree::Array(items.update(i, with_text(items[i], new))),
                        ),
                    ),
                    None => None,
                },
                None => None,
            },
            _ => None,
        },
    }
}

/// The payload that a tool result carries: its structured content, or else the first JSON text of
/// its content.
pub open spec fn result_payload(result: Tree) -> Option<Tree> {
    match json::member_of(result, "structuredContent"@) {
        Some(payload) => Some(payload),
        None => match json::member_of(result, "content"@) {
            Some(Tree::Array(items)) => match first_json_text(items, 0) {
                Some(i) => json_text(items[i]),
                None => None,
            },
            _ => None,
        },
    }
}

/// Whether a message is marked as JSON-RPC: it is a reply, or a batch with a reply in it.
pub open spec fn is_marked(message: Tree) -> bool {
    match message {
        Tree::Array(items) => exists|i: int|
            0 <= i < items.len() && json::member_of(#[trigger] items[i], "jsonrpc"@) is Some,
        _ => json::member_of(message, "jsonrpc"@) is Some,
    }
}

/// Whether a message is a payload itself, without an envelope: it is the whole of a body, it is
/// not marked as JSON-RPC, and it has no result that carries a payload. Of an event stream only
/// enveloped messages are governed.
pub open spec fn is_bare(message: Tree, is_sse: bool) -> bool {
    &&& !is_sse
    &&& !is_marked(message)
    &&& json::member_of(message, "result"@) is None || result_payload(
        json::member_of(message, "result"@)->0,
    ) is None
}

/// The payload that a message carries.
pub open spec fn payload_of(message: Tree, is_sse: bool) -> Option<Tree> {
    if is_bare(message, is_sse) {
        Some(message)
    } else {
        match json::member_of(message, "result"@) {
            Some(result) => result_payload(result),
            None => None,
        }
    }
}

/// A message as it goes to the caller. A bare payload is governed itself; the result of a reply
/// is rewritten in its envelope; a reply without a result, a batch of replies and a bare message of
/// an event stream are left alone.
pub open spec fn rewritten(
    message: Tree,
    is_sse: bool,
    path: Seq<char>,
    p: Projection,
    ctx: Ctx,
    map: CachedFieldMap,
) -> Option<Tree> {
    if is_bare(message, is_sse) {
        governed_payload(message, path, p, ctx, map)
    } else {
        match json::member_of(message, "result"@) {
            Some(result) => match rewritten_result(result, path, p, ctx, map) {
                Some(new) => Some(json::with_member(message, "result"@, new)),
                None => None,
            },
            None => None,
        }
    }
}

/// The names that are withheld in a message, in ascending order.
pub open spec fn withheld_in_message(
    message: Tree,
    is_sse: bool,
    path: Seq<char>,
    p: Projection,
) -> Seq<Seq<char>> {
    match payload_of(message, is_sse) {
        Some(payload) => records::withheld_at(payload, path, p),
        None => Seq::empty(),
    }
}

fn item_is_text(item: &Json) -> (r: bool)
    ensures
        r == is_text(item@),
{
    match item.string("type") {
        Some(t) => same(t.as_str(), "text"),
        None => false,
    }
}

fn item_json(item: &Json) -> (r: Option<Json>)
    ensures
        wire::opt_tree(r) == json_text(item@),
{
    if !item_is_text(item) {
        return None;
    }
    match item.string("text") {
        Some(s) => parse(s.as_str()),
        None => None,
    }
}

/// The place of the first text item.
fn find_text(items: &Vec<Json>) -> (r: Option<usize>)
    ensures
        match r {
            Some(i) => {
                &&& i < json::trees(items@).len()
                &&& first_text(json::trees(items@), 0) == Some(i as int)
            },
            None => first_text(json::trees(items@), 0) is None,
        },
{
    let ghost all = json::trees(items@);
    let mut i: usize = 0;
    proof {
        json::lemma_trees(items@);
    }
    while i < items.len()
        invariant
            0 <= i <= items@.len(),
            all == json::trees(items@),
            all.len() == items@.len(),
            forall|k: int| 0 <= k < items@.len() ==> #[trigger] all[k] == json::tree(items@[k]),
            first_text(all, i as int) == first_text(all, 0),
        decreases items@.len() - i,
    {
        assert(all[i as int] == json::tree(items@[i as int]));
        if item_is_text(&items[i]) {
            return Some(i);
        }
        i += 1;
    }
    None
}

/// The first JSON text of the content, with its place.
fn find_json(items: &Vec<Json>) -> (r: Option<(usize, Json)>)
    ensures
        match r {
            Some((i, v)) => {
                &&& i < json::trees(items@).len()
                &&& first_json_text(json::trees(items@), 0) == Some(i as int)
                &&& json_text(json::trees(items@)[i as int]) == Some(v@)
            },
            None => first_json_text(json::trees(items@), 0) is None,
        },
{
    let ghost all = json::trees(items@);
    let mut i: usize = 0;
    proof {
        json::lemma_trees(items@);
    }
    while i < items.len()
        invariant
            0 <= i <= items@.len(),
            all == json::trees(items@),
            all.len() == items@.len(),
            forall|k: int| 0 <= k < items@.len() ==> #[trigger] all[k] == json::tree(items@[k]),
            first_json_text(all, i as int) == first_json_text(all, 0),
        decreases items@.len() - i,
    {
        assert(all[i as int] == json::tree(items@[i as int]));
        if let Some(v) = item_json(&items[i]) {
            return Some((i, v));
        }
        i += 1;
    }
    None
}

/// Puts a text into one item of the content.
fn put_text(result: &mut Json, i: usize, words: String)
    requires
        json::member_of(old(result)@, "content"@) matches Some(Tree::Array(items)) && i
            < items.len(),
    ensures
        final(result)@ == json::with_member(
            old(result)@,
            "content"@,
            Tree::Array(
                json::member_of(old(result)@, "content"@)->0->Array_0.update(
                    i as int,
                    json::with_member(
                        json::member_of(old(result)@, "content"@)->0->Array_0[i as int],
                        "text"@,
                        Tree::String(words@),
                    ),
                ),
            ),
        ),
{
    if let Some(Json::Array(items)) = result.member_mut("content") {
        let ghost was = items@;
        proof {
            json::lemma_trees(was);
            assert(json::trees(was)[i as int] == json::tree(was[i as int]));
        }
        items[i].set_member("text", Json::String(words));
        proof {
            json::lemma_trees_update(was, i as int, items@[i as int]);
            assert(items@ =~= was.update(i as int, items@[i as int]));
        }
    }
}

/// The tool result as it goes to the caller, in place, and the names that were withheld. Nothing
/// comes back if there was nothing to rewrite; what is left in place is then of no use.
fn rewrite_result(
    result: &mut Json,
    path: &str,
    p: &Projection,
    ctx: &Ctx,
    map: &CachedFieldMap,
) -> (r: Option<Vec<String>>)
    ensures
        match rewritten_result(old(result)@, path@, *p, *ctx, *map) {
            Some(new) => {
                &&& final(result)@ == new
                &&& r is Some
                &&& result_payload(old(result)@) is Some
                &&& text::texts(r->0@) == records::withheld_at(
                    result_payload(old(result)@)->0,
                    path@,
                    *p,
                )
            },
            None => r is None,
        },
{
    if let Some(slot) = result.member_mut("structuredContent") {
        let mut payload = Json::Null;
        core::mem::swap(slot, &mut payload);
        match govern(payload, path, p, ctx, map) {
            Some(new) => {
                let words = to_text(&new.value);
                *slot = new.value;
                let found = match result.member("content") {
                    Some(Json::Array(items)) => find_text(items),
                    _ => None,
                };
                if let Some(i) = found {
                    put_text(result, i, words);
                }
                Some(new.withheld)
            },
            None => None,
        }
    } else {
        let found = match result.member("content") {
            Some(Json::Array(items)) => find_json(items),
            _ => None,
        };
        match found {
            Some((i, payload)) => match govern(payload, path, p, ctx, map) {
                Some(new) => {
                    put_text(result, i, to_text(&new.value));
                    Some(new.withheld)
                },
                None => None,
            },
            None => None,
        }
    }
}

/// Whether a tool result carries a payload.
fn carries_payload(result: &Json) -> (r: bool)
    ensures
        r == (result_payload(result@) is Some),
{
    if result.member("structuredContent").is_some() {
        return true;
    }
    match result.member("content") {
        Some(Json::Array(items)) => find_json(items).is_some(),
        _ => false,
    }
}

/// Whether a message is marked as JSON-RPC.
fn message_is_marked(message: &Json) -> (r: bool)
    ensures
        r == is_marked(message@),
{
    match message {
        Json::Array(items) => {
            let ghost all = json::trees(items@);
            let mut i: usize = 0;
            proof {
                json::lemma_trees(items@);
            }
            while i < items.len()
                invariant
                    0 <= i <= items@.len(),
                    message@ == Tree::Array(all),
                    all.len() == items@.len(),
                    forall|k: int|
                        0 <= k < items@.len() ==> #[trigger] all[k] == json::tree(items@[k]),
                    forall|k: int|
                        0 <= k < i ==> json::member_of(#[trigger] all[k], "jsonrpc"@) is None,
                decreases items@.len() - i,
            {
                assert(all[i as int] == json::tree(items@[i as int]));
                if items[i].member("jsonrpc").is_some() {
                    return true;
                }
                i += 1;
            }
            false
        },
        _ => message.member("jsonrpc").is_some(),
    }
}

/// Whether a message is a payload itself.
fn message_is_bare(message: &Json, is_sse: bool) -> (r: bool)
    ensures
        r == is_bare(message@, is_sse),
{
    if is_sse || message_is_marked(message) {
        return false;
    }
    match message.member("result") {
        Some(result) => !carries_payload(result),
        None => true,
    }
}

/// The message as it goes to the caller, with the names that were withheld; none where the
/// response is left as it is.
pub fn rewrite(
    message: Json,
    is_sse: bool,
    path: &str,
    p: &Projection,
    ctx: &Ctx,
    map: &CachedFieldMap,
) -> (r: Option<Rewritten<Json>>)
    ensures
        match r {
            Some(out) => {
                &&& rewritten(message@, is_sse, path@, *p, *ctx, *map) == Some(out.value@)
                &&& text::texts(out.withheld@) == withheld_in_message(message@, is_sse, path@, *p)
            },
            None => rewritten(message@, is_sse, path@, *p, *ctx, *map) is None,
        },
{
    if message_is_bare(&message, is_sse) {
        return govern(message, path, p, ctx, map);
    }
    let mut message = message;
    let done = match message.member_mut("result") {
        Some(result) => rewrite_result(result, path, p, ctx, map),
        None => None,
    };
    match done {
        Some(withheld) => Some(Rewritten { value: message, withheld }),
        None => None,
    }
}

/// A body as it goes to the caller; none where the response is left as it is.
pub open spec fn rewritten_text(
    body: Seq<char>,
    is_sse: bool,
    path: Seq<char>,
    p: Projection,
    ctx: Ctx,
    map: CachedFieldMap,
) -> Option<Seq<char>> {
    match message_in(body, is_sse) {
        Some(message) => match rewritten(message, is_sse, path, p, ctx, map) {
            Some(new) => Some(framed(wire::text_of_json(new), is_sse)),
            None => None,
        },
        None => None,
    }
}

/// Whether a body is what goes to the caller in place of another: the framed text of the rewritten
/// message, from which the caller reads that message if it is readable, with the names that were
/// withheld in it.
pub open spec fn replaces(
    out: Rewritten<String>,
    body: Seq<char>,
    is_sse: bool,
    path: Seq<char>,
    p: Projection,
    ctx: Ctx,
    map: CachedFieldMap,
) -> bool {
    let message = message_in(body, is_sse)->0;
    let new = rewritten(message, is_sse, path, p, ctx, map)->0;
    &&& rewritten_text(body, is_sse, path, p, ctx, map) == Some(out.value@)
    &&& wire::readable(new, wire::READ_DEPTH as nat) ==> message_in(out.value@, is_sse) == Some(new)
    &&& text::texts(out.withheld@) == withheld_in_message(message, is_sse, path, p)
}

/// The body as it goes to the caller; none where the response is left as it is.
pub fn rewrite_text(
    body: &str,
    is_sse: bool,
    path: &str,
    p: &Projection,
    ctx: &Ctx,
    map: &CachedFieldMap,
) -> (r: Option<Rewritten<String>>)
    ensures
        match r {
            Some(out) => replaces(out, body@, is_sse, path@, *p, *ctx, *map),
            None => rewritten_text(body@, is_sse, path@, *p, *ctx, *map) is None,
        },
{
    match parse_rpc(body, is_sse) {
        Some(message) => match rewrite(message, is_sse, path, p, ctx, map) {
            Some(new) => Some(
                Rewritten { value: frame(&new.value, is_sse), withheld: new.withheld },
            ),
            None => None,
        },
        None => None,
    }
}

// ---------------------------------------------------------------------------------------------
// The response
// ---------------------------------------------------------------------------------------------
/// Whether a response of this content type is an event stream; none where it is neither that nor
/// JSON.
pub open spec fn body_kind(content_type: Seq<char>) -> Option<bool> {
    if text::has_part(content_type, "event-stream"@) {
        Some(true)
    } else if text::has_part(content_type, "json"@) {
        Some(false)
    } else {
        None
    }
}

/// The response header that reports how many sensitive fields are withheld from the caller.
pub const ENTITLEMENT_HEADER: &'static str = "x-entitlement-filtered";

/// What the headers of a response decide: how its body is framed, what is withheld from the
/// caller, and the count that the response reports.
#[derive(Debug, Clone)]
pub struct Governance {
    pub is_sse: bool,
    pub projection: Projection,
    /// How many sensitive fields are withheld, in decimal.
    pub filtered: String,
}

/// Whether a caller is entitled to see sensitive fields under a configuration.
pub open spec fn ctx_entitled(ctx: Ctx, cfg: Config) -> bool {
    entitlement::admitted(
        entitlement::claim(text::opt_text(ctx.clearance)),
        entitlement::claim(text::opt_text(ctx.purpose)),
        config::cleared_levels(cfg.cleared_levels),
        config::allowed_purposes(cfg.allowed_purposes),
    )
}

/// Whether a response is governed: there is a field map with fields in it, and the body is an
/// event stream or JSON.
pub open spec fn is_governed(map: Option<CachedFieldMap>, content_type: Seq<char>) -> bool {
    &&& map is Some && map->0.fields@.len() > 0
    &&& body_kind(content_type) is Some
}

/// What is withheld from the caller of a response, and how; none where the response passes
/// through.
pub fn response_governance(
    ctx: &Ctx,
    map: &Option<CachedFieldMap>,
    cfg: &Config,
    content_type: &str,
) -> (r: Option<Governance>)
    ensures
        r is Some == is_governed(*map, content_type@),
        match r {
            Some(g) => {
                &&& Some(g.is_sse) == body_kind(content_type@)
                &&& g.projection.entitled == ctx_entitled(*ctx, *cfg)
                &&& g.projection.withhold@ == entitlement::withheld_names(
                    entitlement::field_views(map->0.fields@),
                    g.projection.entitled,
                )
                &&& g.projection.mode == entitlement::mode_named(
                    entitlement::normalized(
                        config::text_or(cfg.mask_mode, config::DEFAULT_MASK_MODE@),
                    ),
                )
                &&& g.projection.token@ == config::text_or(
                    cfg.mask_token,
                    config::DEFAULT_MASK_TOKEN@,
                )
                &&& g.filtered@ == text::decimal(g.projection.withhold@.len())
            },
            None => true,
        },
{
    let map = match map {
        Some(m) => m,
        None => return None,
    };
    if map.fields.len() == 0 {
        return None;
    }
    let is_sse = contains(content_type, "event-stream");
    if !is_sse && !contains(content_type, "json") {
        return None;
    }
    let policy = entitlement_policy(cfg);
    let caller = CallerContext {
        clearance: copy_opt(&ctx.clearance),
        purpose: copy_opt(&ctx.purpose),
    };
    let projection = plan(map.fields.as_slice(), &caller, &policy);
    let filtered = decimal_of(projection.withhold.len() as u128);
    Some(Governance { is_sse, projection, filtered })
}

/// The body that goes to the caller in place of some bytes; none where the response is left as it
/// is, as it is where the bytes are no text.
pub fn rewrite_body(
    body: Vec<u8>,
    governance: &Governance,
    ctx: &Ctx,
    map: &CachedFieldMap,
    cfg: &Config,
) -> (r: Option<Rewritten<String>>)
    ensures
        match r {
            Some(out) => {
                &&& vstd::utf8::valid_utf8(body@)
                &&& replaces(
                    out,
                    vstd::utf8::decode_utf8(body@),
                    governance.is_sse,
                    config::text_or(cfg.records_path, Seq::empty()),
                    governance.projection,
                    *ctx,
                    *map,
                )
            },
            None => vstd::utf8::valid_utf8(body@) ==> rewritten_text(
                vstd::utf8::decode_utf8(body@),
                governance.is_sse,
                config::text_or(cfg.records_path, Seq::empty()),
                governance.projection,
                *ctx,
                *map,
            ) is None,
        },
{
    match from_utf8(body) {
        Some(s) => rewrite_text(
            s.as_str(),
            governance.is_sse,
            cfg.records_path_or_root(),
            &governance.projection,
            ctx,
            map,
        ),
        None => None,
    }
}

} // verus!
