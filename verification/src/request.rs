//! The request leg: who calls, for which asset, and whether the response is to be filtered.

use vstd::prelude::*;
use vstd::string::*;

use crate::claims;
use crate::claims::{claim, decode_claims, if_present};
use crate::config::Config;
use crate::json;
use crate::json::{Json, Tree};
use crate::text;
use crate::text::{same, starts_with};
use crate::wire;
use crate::wire::parse_bytes;

verus! {

/// What the request leg hands to the response leg.
#[derive(Debug, Clone)]
pub struct Ctx {
    pub asset_id: String,
    pub clearance: Option<String>,
    pub purpose: Option<String>,
}

/// The request headers that say who calls: the three that the configuration names, and the
/// authorization.
#[derive(Debug, Clone)]
pub struct CallerHeaders {
    pub schema: Option<String>,
    pub clearance: Option<String>,
    pub purpose: Option<String>,
    pub authorization: Option<String>,
}

/// A configured claim of the token where the token has it, or else the header.
pub open spec fn claim_or_header(
    claims: Option<Tree>,
    name: Option<Seq<char>>,
    header: Option<Seq<char>>,
) -> Option<Seq<char>> {
    match claims::claim_value(claims, name) {
        Some(s) => Some(s),
        None => claims::present(header),
    }
}

/// A configured claim of the token where the token has it, or else the header.
fn select(claims: &Option<Json>, name: &Option<String>, header: Option<String>) -> (r: Option<
    String,
>)
    ensures
        text::opt_text(r) == claim_or_header(
            wire::opt_tree(*claims),
            text::opt_text(*name),
            text::opt_text(header),
        ),
{
    match claim(claims, name) {
        Some(s) => Some(s),
        None => if_present(header),
    }
}

/// The caller's context, from the claims of the token and the headers.
pub fn context_from(claims: &Option<Json>, headers: CallerHeaders, config: &Config) -> (r: Ctx)
    ensures
        r.asset_id@ == (match claim_or_header(
            wire::opt_tree(*claims),
            text::opt_text(config.schema_id_claim),
            text::opt_text(headers.schema),
        ) {
            Some(s) => s,
            None => config.schema_id@,
        }),
        text::opt_text(r.clearance) == claim_or_header(
            wire::opt_tree(*claims),
            text::opt_text(config.clearance_claim),
            text::opt_text(headers.clearance),
        ),
        text::opt_text(r.purpose) == claim_or_header(
            wire::opt_tree(*claims),
            text::opt_text(config.purpose_claim),
            text::opt_text(headers.purpose),
        ),
{
    let asset_id = match select(claims, &config.schema_id_claim, headers.schema) {
        Some(s) => s,
        None => config.schema_id.clone(),
    };
    Ctx {
        asset_id,
        clearance: select(claims, &config.clearance_claim, headers.clearance),
        purpose: select(claims, &config.purpose_claim, headers.purpose),
    }
}

/// The caller's context.
pub fn request_context(headers: CallerHeaders, config: &Config) -> (r: Ctx)
    ensures
        r.asset_id@ == (match claim_or_header(
            claims::token_claims(text::opt_text(headers.authorization)),
            text::opt_text(config.schema_id_claim),
            text::opt_text(headers.schema),
        ) {
            Some(s) => s,
            None => config.schema_id@,
        }),
        text::opt_text(r.clearance) == claim_or_header(
            claims::token_claims(text::opt_text(headers.authorization)),
            text::opt_text(config.clearance_claim),
            text::opt_text(headers.clearance),
        ),
        text::opt_text(r.purpose) == claim_or_header(
            claims::token_claims(text::opt_text(headers.authorization)),
            text::opt_text(config.purpose_claim),
            text::opt_text(headers.purpose),
        ),
{
    let claims = decode_claims(&headers.authorization);
    context_from(&claims, headers, config)
}

// ---------------------------------------------------------------------------------------------
// Which responses are filtered
// ---------------------------------------------------------------------------------------------
/// The methods whose results carry content.
pub open spec fn content_method(method: Seq<char>) -> bool {
    ||| method == "tools/call"@
    ||| method == "resources/read"@
    ||| method == "prompts/get"@
    ||| method == "message/send"@
    ||| method == "message/stream"@
    ||| method == "SendMessage"@
    ||| method == "SendStreamingMessage"@
}

/// Whether the results of a method carry content.
pub fn is_content_method(method: &str) -> (r: bool)
    ensures
        r == content_method(method@),
{
    same(method, "tools/call") || same(method, "resources/read") || same(method, "prompts/get")
        || same(method, "message/send") || same(method, "message/stream") || same(
        method,
        "SendMessage",
    ) || same(method, "SendStreamingMessage")
}

/// Whether the body of a request may be a JSON-RPC call.
pub open spec fn may_be_call(content_type: Seq<char>, method: Seq<char>) -> bool {
    "application/json"@.is_prefix_of(content_type) && method == "POST"@
}

/// Whether the body of a request has to be read to know whether it is a JSON-RPC call.
pub fn reads_body(content_type: &str, method: &str) -> (r: bool)
    ensures
        r == may_be_call(content_type@, method@),
{
    starts_with(content_type, "application/json") && same(method, "POST")
}

/// Whether the response to a message is filtered: to a call of a content method, and to anything
/// that is no call.
pub open spec fn filtered(message: Option<Tree>) -> bool {
    match message {
        Some(m) => match json::string_of(m, "method"@) {
            Some(method) => content_method(method),
            None => true,
        },
        None => true,
    }
}

/// Whether the response to a message is filtered.
pub fn filters_response(message: &Option<Json>) -> (r: bool)
    ensures
        r == filtered(wire::opt_tree(*message)),
{
    match message {
        Some(m) => match m.string("method") {
            Some(method) => is_content_method(method.as_str()),
            None => true,
        },
        None => true,
    }
}

/// Whether the response to a request with this body is filtered.
pub fn filters_body(body: &Vec<u8>) -> (r: bool)
    ensures
        r == filtered(wire::json_of_bytes(body@)),
{
    filters_response(&parse_bytes(body))
}

/// What a request hands to its response: the caller's context, or nothing where the response is
/// not filtered. The body is there if it had to be read.
pub fn request_outcome(ctx: Ctx, body: &Option<Vec<u8>>) -> (r: Option<Ctx>)
    ensures
        r == (if body is Some && !filtered(wire::json_of_bytes(body->0@)) {
            None
        } else {
            Some(ctx)
        }),
{
    match body {
        Some(bytes) => if filters_body(bytes) {
            Some(ctx)
        } else {
            None
        },
        None => Some(ctx),
    }
}

} // verus!
