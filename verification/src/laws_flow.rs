//! What requests, clocks, refreshes and the cache come to, said of their inputs themselves.

use vstd::prelude::*;
use vstd::string::*;

use crate::cache;
use crate::catalog;
use crate::cdgc;
use crate::cdgc::CachedFieldMap;
use crate::claims;
use crate::config;
use crate::config::Config;
use crate::entitlement;
use crate::json;
use crate::json::Tree;
use crate::laws_payload;
use crate::laws_text;
use crate::refresh;
use crate::request;
use crate::request::Ctx;
use crate::response;
use crate::text;
use crate::wire;

verus! {

// ---------------------------------------------------------------------------------------------
// Requests
// ---------------------------------------------------------------------------------------------
/// Which methods carry content.
pub open spec fn carries_content(m: Seq<char>) -> bool {
    ||| m == "tools/call"@
    ||| m == "resources/read"@
    ||| m == "prompts/get"@
    ||| m == "message/send"@
    ||| m == "message/stream"@
    ||| m == "SendMessage"@
    ||| m == "SendStreamingMessage"@
}

/// Which responses are filtered: all but those to a call of a method that carries no content.
pub proof fn law_which_calls_are_filtered(message: Tree, m: Seq<char>)
    ensures
        request::content_method(m) == carries_content(m),
        request::filtered(None),
        laws_payload::holds(message, "method"@, Tree::String(m)) ==> request::filtered(
            Some(message),
        ) == carries_content(m),
        !(laws_payload::owns(message, "method"@) && message->Object_0["method"@] is String)
            ==> request::filtered(Some(message)),
{
}

/// Which request bodies are read: those of posts whose content type begins with JSON's.
pub proof fn law_which_bodies_are_read(
    parameters: Seq<char>,
    content_type: Seq<char>,
    method: Seq<char>,
)
    ensures
        request::may_be_call("application/json"@ + parameters, "POST"@),
        request::may_be_call(content_type, method) ==> method == "POST"@ && exists|rest: Seq<char>|
            content_type == #[trigger] ("application/json"@ + rest),
{
    let prefix = "application/json"@;
    assert(prefix =~= (prefix + parameters).take(prefix.len() as int));
    if request::may_be_call(content_type, method) {
        let rest = content_type.skip(prefix.len() as int);
        assert(content_type =~= prefix + rest);
    }
}

/// What a token says of a claim: the string under its name, unless that is blank.
pub proof fn law_claims_of_a_token(token: Tree, name: Seq<char>, s: Seq<char>)
    ensures
        laws_payload::holds(token, name, Tree::String(s)) ==> claims::claim_value(
            Some(token),
            Some(name),
        ) == claims::present(Some(s)),
        !(laws_payload::owns(token, name) && token->Object_0[name] is String)
            ==> claims::claim_value(Some(token), Some(name)) is None,
        claims::claim_value(None, Some(name)) is None,
        claims::claim_value(Some(token), None) is None,
{
}

/// The token of an authorization header: what follows the bearer scheme, in whatever case, without
/// the white space around it.
pub proof fn law_bearer_tokens(
    pre: Seq<char>,
    scheme: Seq<char>,
    gap: Seq<char>,
    core: Seq<char>,
    post: Seq<char>,
)
    requires
        laws_text::all_white(pre),
        laws_text::lowered(scheme) == "bearer"@,
        laws_text::all_white(gap),
        laws_text::is_core(core),
        core.len() > 0,
        laws_text::all_white(post),
    ensures
        claims::bearer_token(pre + (scheme.push(' ') + gap + core) + post) == Some(core),
{
    let value = scheme.push(' ') + gap + core;
    let none = Seq::<char>::empty();
    reveal_strlit("bearer");
    reveal_strlit("bearer ");
    assert(scheme.len() == 6) by {
        assert(laws_text::lowered(scheme).len() == scheme.len());
    }
    assert(laws_text::lowered(scheme)[0] == 'b');
    assert(laws_text::lower(scheme[0]) == 'b');
    assert(value.first() == scheme[0]);
    assert(!laws_text::white(value.first()));
    assert(value.last() == core.last());
    laws_text::law_trimming(pre, value, post);
    laws_text::law_lower_case(value);
    assert("bearer "@ =~= laws_text::lowered(value).take(7)) by {
        assert forall|i: int| 0 <= i < 7 implies "bearer "@[i] == laws_text::lowered(value)[i] by {
            if i < 6 {
                assert(laws_text::lowered(scheme)[i] == "bearer"@[i]);
                assert(value[i] == scheme[i]);
            } else {
                assert(value[i] == ' ');
            }
        }
    }
    assert(value.skip(7) =~= gap + core + none);
    laws_text::law_trimming(gap, core, none);
}

/// Only the bearer scheme has a token.
pub proof fn law_other_schemes_have_no_token(authorization: Seq<char>)
    ensures
        claims::bearer_token(authorization) is Some ==> {
            let value = text::trimmed(authorization);
            &&& value.len() > 7
            &&& laws_text::lowered(value.take(6)) == "bearer"@
            &&& value[6] == ' '
        },
{
    if claims::bearer_token(authorization) is Some {
        let value = text::trimmed(authorization);
        reveal_strlit("bearer");
        reveal_strlit("bearer ");
        laws_text::law_lower_case(value);
        let low = laws_text::lowered(value);
        assert(low.take(7) =~= "bearer "@);
        assert forall|i: int| 0 <= i < 6 implies laws_text::lowered(value.take(6))[i]
            == "bearer"@[i] by {
            assert(low[i] == low.take(7)[i]);
        }
        assert(laws_text::lowered(value.take(6)) =~= "bearer"@);
        assert(low[6] == low.take(7)[6]);
        assert(laws_text::lower(value[6]) == ' ');
        laws_text::law_every_text_has_a_core(authorization);
        let (a, c, b) = choose|a: Seq<char>, c: Seq<char>, b: Seq<char>|
            #![trigger a + c + b]
            laws_text::all_white(a) && laws_text::is_core(c) && laws_text::all_white(b)
                && authorization == a + c + b;
        laws_text::law_trimming(a, c, b);
        if value.len() == 7 {
            assert(value.last() == value[6]);
        }
    }
}

/// A token has three parts, and its claims stand in the middle one.
pub proof fn law_parts_of_a_token(row: Seq<Seq<char>>)
    requires
        row.len() > 0,
        laws_text::all_lack(row, '.'),
    ensures
        row.len() == 3 ==> claims::token_payload(laws_text::joined(row, '.'))
            == claims::base64_bytes(row[1]),
        row.len() != 3 ==> claims::token_payload(laws_text::joined(row, '.')) is None,
{
    laws_text::law_splitting_undoes_joining(row, '.');
}

/// What the claims of a request come from.
pub proof fn law_token_claims(authorization: Seq<char>)
    ensures
        claims::token_claims(None) is None,
        claims::bearer_token(authorization) is None ==> claims::token_claims(
            Some(authorization),
        ) is None,
        claims::bearer_token(authorization) matches Some(token) ==> match claims::token_payload(
            token,
        ) {
            Some(bytes) => claims::token_claims(Some(authorization)) == wire::json_of_bytes(bytes),
            None => claims::token_claims(Some(authorization)) is None,
        },
{
}

/// The six bits that a character of the URL-safe alphabet stands for; a negative number for every
/// other character.
pub open spec fn bits(c: char) -> int {
    let n = laws_text::code(c);
    if 65 <= n <= 90 {
        n - 65
    } else if 97 <= n <= 122 {
        n - 71
    } else if 48 <= n <= 57 {
        n + 4
    } else if n == 45 {
        62
    } else if n == 95 {
        63
    } else {
        -1
    }
}

proof fn lemma_sextet(c: char)
    ensures
        bits(c) >= 0 ==> claims::sextet(c) == Some(bits(c) as nat) && bits(c) < 64,
        bits(c) < 0 ==> claims::sextet(c) is None,
{
}

/// Which texts are unpadded URL-safe base64.
pub proof fn law_what_base64_is(s: Seq<char>)
    ensures
        claims::base64_bytes(s) is Some <==> {
            &&& forall|i: int| 0 <= i < s.len() ==> bits(#[trigger] s[i]) >= 0
            &&& s.len() % 4 != 1
            &&& s.len() % 4 == 2 ==> bits(s.last()) % 16 == 0
            &&& s.len() % 4 == 3 ==> bits(s.last()) % 4 == 0
        },
        claims::base64_bytes(s) matches Some(b) ==> b.len() == s.len() / 4 * 3 + (if s.len() % 4
            == 0 {
            0int
        } else {
            s.len() % 4 - 1
        }),
{
    assert forall|i: int| 0 <= i < s.len() implies (bits(#[trigger] s[i]) >= 0) == (claims::sextet(
        s[i],
    ) is Some) by {
        lemma_sextet(s[i]);
    }
    if s.len() > 0 {
        lemma_sextet(s.last());
    }
    if claims::base64_bytes(s) is Some {
        assert forall|i: int| 0 <= i < s.len() implies bits(#[trigger] s[i]) >= 0 by {
            assert(claims::sextet(s[i]) is Some);
        }
        if s.len() > 0 {
            assert(s.last() == s[s.len() - 1]);
        }
    }
    if forall|i: int| 0 <= i < s.len() ==> bits(#[trigger] s[i]) >= 0 {
        assert forall|i: int| 0 <= i < s.len() implies claims::sextet(#[trigger] s[i]) is Some by {
            assert(bits(s[i]) >= 0);
        }
        if s.len() > 0 {
            assert(s.last() == s[s.len() - 1]);
        }
    }
}

/// What base64 stands for: the bits of each four characters are those of three bytes.
pub proof fn law_what_base64_stands_for(s: Seq<char>, g: int)
    requires
        claims::base64_bytes(s) is Some,
        0 <= g,
    ensures
        ({
            let b = claims::base64_bytes(s)->0;
            &&& 4 * g + 3 < s.len() ==> b[3 * g] * 65536 + b[3 * g + 1] * 256 + b[3 * g + 2] == bits(
                s[4 * g],
            ) * 262144 + bits(s[4 * g + 1]) * 4096 + bits(s[4 * g + 2]) * 64 + bits(s[4 * g + 3])
            &&& 4 * g + 3 == s.len() ==> b[3 * g] * 1024 + b[3 * g + 1] * 4 == bits(s[4 * g])
                * 4096 + bits(s[4 * g + 1]) * 64 + bits(s[4 * g + 2])
            &&& 4 * g + 2 == s.len() ==> b[3 * g] * 16 == bits(s[4 * g]) * 64 + bits(s[4 * g + 1])
        }),
{
    let b = claims::base64_bytes(s)->0;
    law_what_base64_is(s);
    if 4 * g + 2 <= s.len() {
        lemma_sextet(s[4 * g]);
        lemma_sextet(s[4 * g + 1]);
        assert(bits(s[4 * g]) >= 0 && bits(s[4 * g + 1]) >= 0);
        assert((3 * g) / 3 == g && (3 * g) % 3 == 0);
        assert(b[3 * g] == claims::base64_byte(s, 3 * g));
        if 4 * g + 3 <= s.len() {
            lemma_sextet(s[4 * g + 2]);
            assert(bits(s[4 * g + 2]) >= 0);
            assert((3 * g + 1) / 3 == g && (3 * g + 1) % 3 == 1);
            assert(b[3 * g + 1] == claims::base64_byte(s, 3 * g + 1));
            if 4 * g + 3 < s.len() {
                lemma_sextet(s[4 * g + 3]);
                assert(bits(s[4 * g + 3]) >= 0);
                assert((3 * g + 2) / 3 == g && (3 * g + 2) % 3 == 2);
                assert(b[3 * g + 2] == claims::base64_byte(s, 3 * g + 2));
            }
        }
    }
}

// ---------------------------------------------------------------------------------------------
// Configuration
// ---------------------------------------------------------------------------------------------
/// What a configuration means where it says something, and where it does not.
pub proof fn law_configured_values(
    v: Option<String>,
    default: Seq<char>,
    n: Option<i64>,
    levels: Option<Vec<String>>,
)
    ensures
        config::text_or(v, default) == (match v {
            Some(s) => s@,
            None => default,
        }),
        config::per_call(n) == (match n {
            Some(t) => t as int,
            None => 5000,
        }),
        config::fresh_seconds(n) == (match n {
            Some(s) => if s < 0 {
                0
            } else {
                s as int
            },
            None => 86400,
        }),
        config::cleared_levels(levels) == entitlement::claim_set(
            match levels {
                Some(list) => Seq::new(list@.len(), |i: int| list@[i]@),
                None => seq!["restricted"@],
            },
        ),
        config::allowed_purposes(v) == entitlement::claim_set(
            text::pieces(
                match v {
                    Some(s) => s@,
                    None => Seq::empty(),
                },
                ',',
            ),
        ),
{
    if let Some(list) = levels {
        assert(text::texts(list@) =~= Seq::new(list@.len(), |i: int| list@[i]@));
    }
}

/// How long a store keeps a field map: for two refresh intervals, but for no less than thirty
/// days, and for no longer than it can count.
pub proof fn law_how_long_maps_are_kept(interval: Option<i64>)
    ensures
        ({
            let twice = 2000 * config::fresh_seconds(interval);
            &&& twice <= 2592000000 ==> config::store_ttl(interval) == 2592000000
            &&& 2592000000 <= twice <= 4294967295 ==> config::store_ttl(interval) == twice
            &&& twice > 4294967295 ==> config::store_ttl(interval) == 4294967295
        }),
{
    let s = config::fresh_seconds(interval);
    assert(s * 2 * 1000 == 2000 * s);
}

/// Who is entitled under a configuration.
pub proof fn law_who_is_entitled_under(ctx: Ctx, cfg: Config)
    ensures
        response::ctx_entitled(ctx, cfg) <==> {
            let clearance = entitlement::claim(text::opt_text(ctx.clearance));
            let purpose = entitlement::claim(text::opt_text(ctx.purpose));
            let allowed = config::allowed_purposes(cfg.allowed_purposes);
            &&& clearance is Some
            &&& config::cleared_levels(cfg.cleared_levels).contains(clearance->0)
            &&& (forall|t: Seq<char>| !(#[trigger] allowed.contains(t))) || (purpose is Some
                && allowed.contains(purpose->0))
        },
{
    let allowed = config::allowed_purposes(cfg.allowed_purposes);
    if forall|t: Seq<char>| !(#[trigger] allowed.contains(t)) {
        assert(allowed =~= Set::<Seq<char>>::empty());
    }
}

// ---------------------------------------------------------------------------------------------
// Time
// ---------------------------------------------------------------------------------------------
/// The nonce is the number of nanoseconds in decimal, and zero before the epoch.
pub proof fn law_nonces(n: u128)
    ensures
        cdgc::nonce(Some(n)) == text::decimal(n as nat),
        cdgc::nonce(None) == "0"@,
{
    reveal_strlit("0");
    assert(text::decimal(0) =~= "0"@);
}

/// Whole units of time: as many as there is time for, and none where there is no time.
pub proof fn law_whole_units(n: u128, unit: u128, start: u128)
    requires
        unit > 0,
    ensures
        cdgc::whole_units(None, unit) == 0,
        n / unit <= i64::MAX ==> {
            let units = cdgc::whole_units(Some(n), unit);
            &&& 0 <= units
            &&& units * unit <= n
            &&& n - units * unit < unit
        },
        start <= n ==> cdgc::nanos_from(start, n) == Some((n - start) as u128),
        start > n ==> cdgc::nanos_from(start, n) is None,
{
    if n / unit <= i64::MAX {
        vstd::arithmetic::div_mod::lemma_fundamental_div_mod(n as int, unit as int);
        vstd::arithmetic::div_mod::lemma_mod_bound(n as int, unit as int);
        let q = n as int / unit as int;
        let units = cdgc::whole_units(Some(n), unit);
        assert(units == q);
        assert(unit * q == q * unit) by (nonlinear_arith);
    }
}

/// How long a call may take: the time per call, cut to what is left of the budget, and at least a
/// millisecond; no call is made when nothing is left.
pub proof fn law_how_long_calls_may_take(per_call_ms: int, elapsed: int)
    ensures
        elapsed >= 15000 ==> cdgc::call_timeout(per_call_ms, elapsed) is None,
        elapsed < 15000 && 1 <= per_call_ms <= 15000 - elapsed ==> cdgc::call_timeout(
            per_call_ms,
            elapsed,
        ) == Some(per_call_ms),
        elapsed < 15000 && per_call_ms >= 15000 - elapsed ==> cdgc::call_timeout(
            per_call_ms,
            elapsed,
        ) == Some(15000 - elapsed),
        elapsed < 15000 && per_call_ms < 1 ==> cdgc::call_timeout(per_call_ms, elapsed) == Some(
            1int,
        ),
{
}

// ---------------------------------------------------------------------------------------------
// A refresh
// ---------------------------------------------------------------------------------------------
/// A call that is made while there is time for it.
pub open spec fn makes(
    step: refresh::StepView,
    stage: refresh::StageView,
    call: refresh::CallView,
    kind: refresh::CallKind,
    per_call_ms: int,
    elapsed: int,
) -> bool {
    if elapsed < 15000 {
        &&& step matches refresh::StepView::Send { stage: s, call: c, timeout_ms: t }
        &&& s == stage
        &&& c == call
        &&& Some(t) == cdgc::call_timeout(per_call_ms, elapsed)
    } else {
        step == refresh::StepView::Failed(refresh::FetchError::Budget(kind))
    }
}

/// What a refresh rests on.
pub proof fn law_what_a_refresh_rests_on(cfg: Config, schema_id: Seq<char>)
    ensures
        refresh::basis_of(cfg, schema_id).schema_id == schema_id,
        refresh::basis_of(cfg, schema_id).marker == laws_text::in_lower_case(
            match cfg.sensitive_marker {
                Some(s) => s@,
                None => "confidential"@,
            },
        ),
        refresh::basis_of(cfg, schema_id).per_call_ms == (match cfg.timeout {
            Some(t) => t as int,
            None => 5000,
        }),
{
    laws_text::law_lower_case(
        match cfg.sensitive_marker {
            Some(s) => s@,
            None => "confidential"@,
        },
    );
}

/// A refresh begins with a login under the configured credentials.
pub proof fn law_refreshes_begin_with_a_login(cfg: Config, elapsed: int)
    ensures
        makes(
            refresh::begun(cfg, elapsed),
            refresh::StageView::Login,
            (refresh::CallView::Login {
                body: wire::text_of_json(
                    Tree::Object(
                        Map::<Seq<char>, Tree>::empty().insert(
                            "username"@,
                            Tree::String(cfg.cdgc_org_username@),
                        ).insert("password"@, Tree::String(cfg.cdgc_org_password@)),
                    ),
                ),
            }),
            refresh::CallKind::Login,
            match cfg.timeout {
                Some(t) => t as int,
                None => 5000,
            },
            elapsed,
        ),
{
}

/// What follows the login and the token: the session is traded for a token, and the token for the
/// asset.
pub proof fn law_sessions_and_tokens(
    status: u32,
    id: Seq<char>,
    org: Seq<char>,
    jwt: Seq<char>,
    t: refresh::Basis,
    nonce: Seq<char>,
    elapsed: int,
)
    requires
        status < 300,
    ensures
        makes(
            refresh::after_reply(
                refresh::StageView::Login,
                refresh::ReplyView::Login { status, session: Some((id, org)) },
                t,
                nonce,
                elapsed,
            ),
            refresh::StageView::Token { org },
            (refresh::CallView::Token {
                path: "/identity-service/api/v1/jwt/Token?client_id=idmc_api&nonce="@ + nonce,
                cookie: "USER_SESSION="@ + id,
                session_id: id,
            }),
            refresh::CallKind::Token,
            t.per_call_ms,
            elapsed,
        ),
        makes(
            refresh::after_reply(
                refresh::StageView::Token { org },
                refresh::ReplyView::Token { status, jwt: Some(jwt) },
                t,
                nonce,
                elapsed,
            ),
            (refresh::StageView::Schema { session: refresh::SessionView { jwt, org } }),
            searches(jwt, org, catalog::schema_query(t.schema_id)),
            refresh::CallKind::Search,
            t.per_call_ms,
            elapsed,
        ),
        refresh::after_reply(
            refresh::StageView::Login,
            refresh::ReplyView::Login { status, session: None },
            t,
            nonce,
            elapsed,
        ) == refresh::StepView::Failed(refresh::FetchError::Malformed(refresh::CallKind::Login)),
        refresh::after_reply(
            refresh::StageView::Token { org },
            refresh::ReplyView::Token { status, jwt: None },
            t,
            nonce,
            elapsed,
        ) == refresh::StepView::Failed(refresh::FetchError::Malformed(refresh::CallKind::Token)),
{
}

/// A search under a token and an organisation.
pub open spec fn searches(jwt: Seq<char>, org: Seq<char>, query: Tree) -> refresh::CallView {
    refresh::CallView::Search {
        authorization: "Bearer "@ + jwt,
        org,
        body: wire::text_of_json(query),
    }
}

/// Which kind of reply a stage waits for.
pub open spec fn waits_for(stage: refresh::StageView) -> refresh::CallKind {
    match stage {
        refresh::StageView::Login => refresh::CallKind::Login,
        refresh::StageView::Token { .. } => refresh::CallKind::Token,
        _ => refresh::CallKind::Search,
    }
}

/// A refresh fails where a call brings no reply, and where a reply has a status that is no
/// success, whatever else it says.
pub proof fn law_failures_of_calls(
    stage: refresh::StageView,
    status: u32,
    session: Option<(Seq<char>, Seq<char>)>,
    jwt: Option<Seq<char>>,
    body: Seq<u8>,
    t: refresh::Basis,
    nonce: Seq<char>,
    elapsed: int,
)
    requires
        status >= 300,
    ensures
        refresh::after_reply(stage, refresh::ReplyView::Unreachable, t, nonce, elapsed)
            == refresh::StepView::Failed(refresh::FetchError::Unreachable(waits_for(stage))),
        ({
            let reply = match waits_for(stage) {
                refresh::CallKind::Login => refresh::ReplyView::Login { status, session },
                refresh::CallKind::Token => refresh::ReplyView::Token { status, jwt },
                refresh::CallKind::Search => refresh::ReplyView::Search { status, body },
            };
            refresh::after_reply(stage, reply, t, nonce, elapsed) == refresh::StepView::Failed(
                refresh::FetchError::Status(waits_for(stage), status),
            )
        }),
{
}

/// A reply of another kind than the one awaited cannot be read.
pub proof fn law_replies_of_another_kind(
    stage: refresh::StageView,
    status: u32,
    session: Option<(Seq<char>, Seq<char>)>,
    jwt: Option<Seq<char>>,
    body: Seq<u8>,
    t: refresh::Basis,
    nonce: Seq<char>,
    elapsed: int,
)
    ensures
        ({
            let unread = refresh::StepView::Failed(
                refresh::FetchError::Malformed(waits_for(stage)),
            );
            let kind = waits_for(stage);
            &&& kind != refresh::CallKind::Login ==> refresh::after_reply(
                stage,
                refresh::ReplyView::Login { status, session },
                t,
                nonce,
                elapsed,
            ) == unread
            &&& kind != refresh::CallKind::Token ==> refresh::after_reply(
                stage,
                refresh::ReplyView::Token { status, jwt },
                t,
                nonce,
                elapsed,
            ) == unread
            &&& kind != refresh::CallKind::Search ==> refresh::after_reply(
                stage,
                refresh::ReplyView::Search { status, body },
                t,
                nonce,
                elapsed,
            ) == unread
        }),
{
}

/// What stands for a call, a reply and a step: every text that they hold, under its own name.
pub proof fn law_what_steps_stand_for(call: refresh::Call, reply: refresh::Reply, step: refresh::Step)
    ensures
        match call {
            refresh::Call::Login { body } => call@ == (refresh::CallView::Login { body: body@ }),
            refresh::Call::Token { path, cookie, session_id } => call@ == (
            refresh::CallView::Token {
                path: path@,
                cookie: cookie@,
                session_id: session_id@,
            }),
            refresh::Call::Search { authorization, org, body } => call@ == (
            refresh::CallView::Search {
                authorization: authorization@,
                org: org@,
                body: body@,
            }),
        },
        match reply {
            refresh::Reply::Unreachable => reply@ == refresh::ReplyView::Unreachable,
            refresh::Reply::Login { status, session: Some(s) } => reply@ == (
            refresh::ReplyView::Login { status, session: Some((s.session_id@, s.org_id@)) }),
            refresh::Reply::Login { status, session: None } => reply@ == (
            refresh::ReplyView::Login { status, session: None }),
            refresh::Reply::Token { status, jwt: Some(t) } => reply@ == (refresh::ReplyView::Token {
                status,
                jwt: Some(t@),
            }),
            refresh::Reply::Token { status, jwt: None } => reply@ == (refresh::ReplyView::Token {
                status,
                jwt: None,
            }),
            refresh::Reply::Search { status, body } => reply@ == (refresh::ReplyView::Search {
                status,
                body: body@,
            }),
        },
        match step {
            refresh::Step::Send { stage, call, timeout_ms } => step@ == (refresh::StepView::Send {
                stage: stage@,
                call: call@,
                timeout_ms: timeout_ms as int,
            }),
            refresh::Step::Failed(e) => step@ == refresh::StepView::Failed(e),
            refresh::Step::Done { fields, asset } => step@ == (refresh::StepView::Done {
                fields: entitlement::field_views(fields@),
                asset: asset@,
            }),
        },
{
}

/// What stands for a stage, a session and an asset.
pub proof fn law_what_stages_stand_for(
    stage: refresh::Stage,
    session: refresh::Session,
    asset: refresh::Asset,
)
    ensures
        session@.jwt == session.jwt@,
        session@.org == session.org@,
        asset@.name == (match asset.name {
            Some(s) => Some(s@),
            None => None,
        }),
        asset@.external_id == (match asset.external_id {
            Some(s) => Some(s@),
            None => None,
        }),
        match stage {
            refresh::Stage::Login => stage@ == refresh::StageView::Login,
            refresh::Stage::Token { org } => stage@ == (refresh::StageView::Token { org: org@ }),
            refresh::Stage::Schema { session } => stage@ == (refresh::StageView::Schema {
                session: session@,
            }),
            refresh::Stage::Columns { session, asset } => stage@ == (refresh::StageView::Columns {
                session: session@,
                asset: asset@,
            }),
            refresh::Stage::Links { session, asset, columns } => stage@ == (
            refresh::StageView::Links {
                session: session@,
                asset: asset@,
                columns: json::trees(columns@),
            }),
            refresh::Stage::Terms { session, asset, columns, links } => stage@ == (
            refresh::StageView::Terms {
                session: session@,
                asset: asset@,
                columns: json::trees(columns@),
                links: json::trees(links@),
            }),
        },
{
}

/// What follows a search that succeeds: what its documents lead to, and a failure where its body
/// is no JSON.
pub proof fn law_answers_of_searches(
    stage: refresh::StageView,
    status: u32,
    body: Seq<u8>,
    t: refresh::Basis,
    nonce: Seq<char>,
    elapsed: int,
)
    requires
        waits_for(stage) == refresh::CallKind::Search,
        status < 300,
    ensures
        ({
            let reply = refresh::ReplyView::Search { status, body };
            let step = refresh::after_reply(stage, reply, t, nonce, elapsed);
            match wire::json_of_bytes(body) {
                Some(answer) => step == refresh::after_documents(
                    stage,
                    catalog::documents(answer),
                    t,
                    elapsed,
                ),
                None => step == refresh::StepView::Failed(
                    refresh::FetchError::Malformed(refresh::CallKind::Search),
                ),
            }
        }),
{
}

/// What the documents of each search lead to: the location of the first asset to its columns, all
/// columns to their links, the links to the terms if there are any, and the terms to the field
/// map.
pub proof fn law_documents_of_searches(
    session: refresh::SessionView,
    asset: refresh::AssetView,
    columns: Seq<Tree>,
    links: Seq<Tree>,
    docs: Seq<Tree>,
    location: Seq<char>,
    t: refresh::Basis,
    elapsed: int,
)
    ensures
        docs.len() == 0 ==> refresh::after_documents(
            refresh::StageView::Schema { session },
            docs,
            t,
            elapsed,
        ) == refresh::StepView::Failed(refresh::FetchError::SchemaNotFound),
        docs.len() > 0 && !(laws_payload::owns(docs[0], "core.location"@)
            && docs[0]->Object_0["core.location"@] is String) ==> refresh::after_documents(
            refresh::StageView::Schema { session },
            docs,
            t,
            elapsed,
        ) == refresh::StepView::Failed(refresh::FetchError::NoLocation),
        docs.len() > 0 && laws_payload::holds(docs[0], "core.location"@, Tree::String(location))
            ==> makes(
            refresh::after_documents(refresh::StageView::Schema { session }, docs, t, elapsed),
            refresh::StageView::Columns {
                session,
                asset: refresh::AssetView {
                    name: string_under(docs[0], "core.name"@),
                    external_id: string_under(docs[0], "core.externalId"@),
                },
            },
            searches(session.jwt, session.org, catalog::columns_query(location)),
            refresh::CallKind::Search,
            t.per_call_ms,
            elapsed,
        ),
        docs.len() == 0 ==> refresh::after_documents(
            refresh::StageView::Columns { session, asset },
            docs,
            t,
            elapsed,
        ) == refresh::StepView::Failed(refresh::FetchError::NoColumns),
        docs.len() > 0 ==> makes(
            refresh::after_documents(
                refresh::StageView::Columns { session, asset },
                docs,
                t,
                elapsed,
            ),
            refresh::StageView::Links { session, asset, columns: docs },
            searches(
                session.jwt,
                session.org,
                catalog::links_query(catalog::strings_under(docs, "core.identity"@)),
            ),
            refresh::CallKind::Search,
            t.per_call_ms,
            elapsed,
        ),
        catalog::linked_terms(docs).len() == 0 ==> refresh::after_documents(
            refresh::StageView::Links { session, asset, columns },
            docs,
            t,
            elapsed,
        ) == (refresh::StepView::Done {
            fields: catalog::field_map(columns, docs, Seq::empty(), t.marker),
            asset,
        }),
        catalog::linked_terms(docs).len() > 0 ==> makes(
            refresh::after_documents(
                refresh::StageView::Links { session, asset, columns },
                docs,
                t,
                elapsed,
            ),
            refresh::StageView::Terms { session, asset, columns, links: docs },
            searches(
                session.jwt,
                session.org,
                catalog::terms_query(catalog::linked_terms(docs)),
            ),
            refresh::CallKind::Search,
            t.per_call_ms,
            elapsed,
        ),
        refresh::after_documents(
            refresh::StageView::Terms { session, asset, columns, links },
            docs,
            t,
            elapsed,
        ) == (refresh::StepView::Done {
            fields: catalog::field_map(columns, links, docs, t.marker),
            asset,
        }),
{
}

/// The string that a document has under a name.
pub open spec fn string_under(doc: Tree, key: Seq<char>) -> Option<Seq<char>> {
    if laws_payload::owns(doc, key) && doc->Object_0[key] is String {
        Some(doc->Object_0[key]->String_0)
    } else {
        None
    }
}

// ---------------------------------------------------------------------------------------------
// The cache
// ---------------------------------------------------------------------------------------------
/// Two times can be compared where their difference fits in 64 bits with a sign.
pub proof fn law_comparable_times(now: i64, then: i64)
    ensures
        cache::comparable(now, then) <==> -0x8000_0000_0000_0000 <= now - then
            <= 0x7fff_ffff_ffff_ffff,
{
}

/// What reading the cache brings, and how long it is fresh.
pub proof fn law_what_is_read(map: CachedFieldMap, now: i64, ttl: i64)
    ensures
        cache::read_map(cache::ReadOutcome::Found(map)) == Some(map),
        cache::read_map(cache::ReadOutcome::Missing) is None,
        cache::read_map(cache::ReadOutcome::Failed) is None,
        cache::is_fresh(map, now, ttl) == (now - map.timestamp < ttl),
        cache::after_read(cache::ReadOutcome::Missing, now, ttl) == (cache::LookupStep::TakeLock {
            cached: None,
        }),
        cache::after_read(cache::ReadOutcome::Failed, now, ttl) == (cache::LookupStep::TakeLock {
            cached: None,
        }),
{
}

/// What each step of an attempt at the lock leads to.
pub proof fn law_steps_to_the_lock(now: i64, at: i64)
    ensures
        cache::after_lock_step(cache::LockStep::Claim, cache::LockEvent::Stored, now)
            == cache::LockStep::Ended(true),
        cache::after_lock_step(cache::LockStep::Claim, cache::LockEvent::Conflict, now)
            == cache::LockStep::Read,
        cache::after_lock_step(cache::LockStep::Read, cache::LockEvent::Held(at), now) == (if now
            - at < 30 {
            cache::LockStep::Ended(false)
        } else {
            cache::LockStep::TakeOver
        }),
        cache::after_lock_step(cache::LockStep::Read, cache::LockEvent::Free, now)
            == cache::LockStep::Reclaim,
        cache::after_lock_step(cache::LockStep::TakeOver, cache::LockEvent::Stored, now)
            == cache::LockStep::Ended(true),
        cache::after_lock_step(cache::LockStep::TakeOver, cache::LockEvent::Conflict, now)
            == cache::LockStep::Ended(false),
        cache::after_lock_step(cache::LockStep::Reclaim, cache::LockEvent::Stored, now)
            == cache::LockStep::Ended(true),
        cache::after_lock_step(cache::LockStep::Reclaim, cache::LockEvent::Conflict, now)
            == cache::LockStep::Ended(false),
        forall|step: cache::LockStep|
            !(step is Ended) ==> #[trigger] cache::after_lock_step(
                step,
                cache::LockEvent::Failed,
                now,
            ) == cache::LockStep::Failed,
        forall|acquired: bool, event: cache::LockEvent| #[trigger]
            cache::after_lock_step(cache::LockStep::Ended(acquired), event, now)
                == cache::LockStep::Ended(acquired),
{
}

/// What each step of storing a map leads to.
pub proof fn law_steps_to_the_store(left: u32)
    ensures
        cache::after_write_step(cache::WriteStep::Read(left), cache::WriteEvent::Found)
            == cache::WriteStep::Replace(left),
        cache::after_write_step(cache::WriteStep::Read(left), cache::WriteEvent::Missing)
            == cache::WriteStep::Create(left),
        left > 1 ==> cache::after_write_step(
            cache::WriteStep::Replace(left),
            cache::WriteEvent::Conflict,
        ) == cache::WriteStep::Read((left - 1) as u32),
        left > 1 ==> cache::after_write_step(
            cache::WriteStep::Create(left),
            cache::WriteEvent::Conflict,
        ) == cache::WriteStep::Read((left - 1) as u32),
        left <= 1 ==> cache::after_write_step(
            cache::WriteStep::Replace(left),
            cache::WriteEvent::Conflict,
        ) == cache::WriteStep::Ended,
        left <= 1 ==> cache::after_write_step(
            cache::WriteStep::Create(left),
            cache::WriteEvent::Conflict,
        ) == cache::WriteStep::Ended,
        forall|step: cache::WriteStep| #[trigger]
            cache::after_write_step(step, cache::WriteEvent::Stored) == cache::WriteStep::Ended,
        forall|step: cache::WriteStep| #[trigger]
            cache::after_write_step(step, cache::WriteEvent::Failed) == cache::WriteStep::Ended,
{
}

} // verus!
