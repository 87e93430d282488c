//! One refresh of a field map: the calls that it makes to the catalog, one after another, and
//! what it does with each reply.

use vstd::prelude::*;
use vstd::string::*;

use crate::catalog;
use crate::catalog::{
    build_field_map, column_ids, found_documents, query_columns, query_links, query_schema,
    query_terms, term_ids,
};
use crate::cdgc;
use crate::cdgc::next_call_timeout;
use crate::config;
use crate::config::Config;
use crate::entitlement;
use crate::entitlement::{FieldView, GovernedField};
use crate::json;
use crate::json::{Json, Object, Tree};
use crate::text;
use crate::text::{join, to_lowercase};
use crate::wire;
use crate::wire::{parse_bytes, to_text};

verus! {

/// Where a session is opened.
pub const LOGIN_PATH: &'static str = "/identity-service/api/v1/Login";

/// Where a session is traded for a token, up to the nonce.
pub const TOKEN_PATH: &'static str =
    "/identity-service/api/v1/jwt/Token?client_id=idmc_api&nonce=";

/// Where the catalog is searched.
pub const SEARCH_PATH: &'static str = "/ccgf-searchv2/api/v1/search";

// ---------------------------------------------------------------------------------------------
// Calls, replies and stages
// ---------------------------------------------------------------------------------------------
/// The kinds of call.
#[derive(Debug, Clone, Copy, PartialEq, Eq, Structural)]
pub enum CallKind {
    Login,
    Token,
    Search,
}

/// A call to the catalog.
#[derive(Debug)]
pub enum Call {
    Login { body: String },
    Token { path: String, cookie: String, session_id: String },
    Search { authorization: String, org: String, body: String },
}

/// A call as a mathematical value.
pub enum CallView {
    Login { body: Seq<char> },
    Token { path: Seq<char>, cookie: Seq<char>, session_id: Seq<char> },
    Search { authorization: Seq<char>, org: Seq<char>, body: Seq<char> },
}

impl View for Call {
    type V = CallView;

    open spec fn view(&self) -> CallView {
        match *self {
            Call::Login { body } => CallView::Login { body: body@ },
            Call::Token { path, cookie, session_id } => CallView::Token {
                path: path@,
                cookie: cookie@,
                session_id: session_id@,
            },
            Call::Search { authorization, org, body } => CallView::Search {
                authorization: authorization@,
                org: org@,
                body: body@,
            },
        }
    }
}

/// What came of a call. A body that is read into a type of its own is there only if it could be.
#[derive(Debug)]
pub enum Reply {
    Unreachable,
    Login { status: u32, session: Option<LoginReply> },
    Token { status: u32, jwt: Option<String> },
    Search { status: u32, body: Vec<u8> },
}

/// The session that a login opens.
#[derive(Debug)]
pub struct LoginReply {
    pub session_id: String,
    pub org_id: String,
}

/// A reply as a mathematical value.
pub enum ReplyView {
    Unreachable,
    Login { status: u32, session: Option<(Seq<char>, Seq<char>)> },
    Token { status: u32, jwt: Option<Seq<char>> },
    Search { status: u32, body: Seq<u8> },
}

impl View for Reply {
    type V = ReplyView;

    open spec fn view(&self) -> ReplyView {
        match *self {
            Reply::Unreachable => ReplyView::Unreachable,
            Reply::Login { status, session } => ReplyView::Login {
                status,
                session: match session {
                    Some(s) => Some((s.session_id@, s.org_id@)),
                    None => None,
                },
            },
            Reply::Token { status, jwt } => ReplyView::Token { status, jwt: text::opt_text(jwt) },
            Reply::Search { status, body } => ReplyView::Search { status, body: body@ },
        }
    }
}

/// What authorizes a search.
#[derive(Debug)]
pub struct Session {
    pub jwt: String,
    pub org: String,
}

/// The governed identity of the schema asset.
#[derive(Debug)]
pub struct Asset {
    pub name: Option<String>,
    pub external_id: Option<String>,
}

/// Which reply a refresh waits for, and what it has gathered.
#[derive(Debug)]
pub enum Stage {
    Login,
    Token { org: String },
    Schema { session: Session },
    Columns { session: Session, asset: Asset },
    Links { session: Session, asset: Asset, columns: Vec<Json> },
    Terms { session: Session, asset: Asset, columns: Vec<Json>, links: Vec<Json> },
}

/// A session as a mathematical value.
pub struct SessionView {
    pub jwt: Seq<char>,
    pub org: Seq<char>,
}

impl View for Session {
    type V = SessionView;

    open spec fn view(&self) -> SessionView {
        SessionView { jwt: self.jwt@, org: self.org@ }
    }
}

/// An asset as a mathematical value.
pub struct AssetView {
    pub name: Option<Seq<char>>,
    pub external_id: Option<Seq<char>>,
}

impl View for Asset {
    type V = AssetView;

    open spec fn view(&self) -> AssetView {
        AssetView { name: text::opt_text(self.name), external_id: text::opt_text(self.external_id) }
    }
}

/// A stage as a mathematical value.
pub enum StageView {
    Login,
    Token { org: Seq<char> },
    Schema { session: SessionView },
    Columns { session: SessionView, asset: AssetView },
    Links { session: SessionView, asset: AssetView, columns: Seq<Tree> },
    Terms { session: SessionView, asset: AssetView, columns: Seq<Tree>, links: Seq<Tree> },
}

impl View for Stage {
    type V = StageView;

    open spec fn view(&self) -> StageView {
        match *self {
            Stage::Login => StageView::Login,
            Stage::Token { org } => StageView::Token { org: org@ },
            Stage::Schema { session } => StageView::Schema { session: session@ },
            Stage::Columns { session, asset } => StageView::Columns {
                session: session@,
                asset: asset@,
            },
            Stage::Links { session, asset, columns } => StageView::Links {
                session: session@,
                asset: asset@,
                columns: json::trees(columns@),
            },
            Stage::Terms { session, asset, columns, links } => StageView::Terms {
                session: session@,
                asset: asset@,
                columns: json::trees(columns@),
                links: json::trees(links@),
            },
        }
    }
}

/// Why a refresh fails.
#[derive(Debug, Clone, Copy, PartialEq, Eq, Structural)]
pub enum FetchError {
    /// Nothing was left of the budget before a call.
    Budget(CallKind),
    /// A call brought no reply.
    Unreachable(CallKind),
    /// A reply had a status that is no success.
    Status(CallKind, u32),
    /// A reply could not be read.
    Malformed(CallKind),
    /// The schema asset was not found.
    SchemaNotFound,
    /// The schema asset has no location.
    NoLocation,
    /// The schema asset has no columns.
    NoColumns,
}

/// What a refresh does next.
#[derive(Debug)]
pub enum Step {
    /// Make a call that may take so many milliseconds, and wait for its reply.
    Send { stage: Stage, call: Call, timeout_ms: u64 },
    Failed(FetchError),
    Done { fields: Vec<GovernedField>, asset: Asset },
}

/// A step as a mathematical value.
pub enum StepView {
    Send { stage: StageView, call: CallView, timeout_ms: int },
    Failed(FetchError),
    Done { fields: Seq<FieldView>, asset: AssetView },
}

impl View for Step {
    type V = StepView;

    open spec fn view(&self) -> StepView {
        match *self {
            Step::Send { stage, call, timeout_ms } => StepView::Send {
                stage: stage@,
                call: call@,
                timeout_ms: timeout_ms as int,
            },
            Step::Failed(e) => StepView::Failed(e),
            Step::Done { fields, asset } => StepView::Done {
                fields: entitlement::field_views(fields@),
                asset: asset@,
            },
        }
    }
}

// ---------------------------------------------------------------------------------------------
// What follows a reply
// ---------------------------------------------------------------------------------------------
/// What a refresh rests on: the asset, the marker in lower case, and the time per call.
pub struct Basis {
    pub schema_id: Seq<char>,
    pub marker: Seq<char>,
    pub per_call_ms: int,
}

/// What a refresh of an asset under a configuration rests on.
pub open spec fn basis_of(cfg: Config, schema_id: Seq<char>) -> Basis {
    Basis {
        schema_id,
        marker: text::lowercase(
            config::text_or(cfg.sensitive_marker, config::DEFAULT_SENSITIVE_MARKER@),
        ),
        per_call_ms: config::per_call(cfg.timeout) as int,
    }
}

/// The kind of a call.
pub open spec fn kind_of(call: CallView) -> CallKind {
    match call {
        CallView::Login { .. } => CallKind::Login,
        CallView::Token { .. } => CallKind::Token,
        CallView::Search { .. } => CallKind::Search,
    }
}

/// A call, if anything is left of the budget.
pub open spec fn sent(stage: StageView, call: CallView, per_call_ms: int, elapsed: int) -> StepView {
    match cdgc::call_timeout(per_call_ms, elapsed) {
        Some(t) => StepView::Send { stage, call, timeout_ms: t },
        None => StepView::Failed(FetchError::Budget(kind_of(call))),
    }
}

/// The credentials as the login takes them.
pub open spec fn login_body(username: Seq<char>, password: Seq<char>) -> Tree {
    Tree::Object(
        Map::<Seq<char>, Tree>::empty().insert("username"@, Tree::String(username)).insert(
            "password"@,
            Tree::String(password),
        ),
    )
}

/// The login call.
pub open spec fn login_call(username: Seq<char>, password: Seq<char>) -> CallView {
    CallView::Login { body: wire::text_of_json(login_body(username, password)) }
}

/// The call that trades a session for a token.
pub open spec fn token_call(session_id: Seq<char>, nonce: Seq<char>) -> CallView {
    CallView::Token {
        path: TOKEN_PATH@ + nonce,
        cookie: "USER_SESSION="@ + session_id,
        session_id,
    }
}

/// A search call.
pub open spec fn search_call(session: SessionView, query: Tree) -> CallView {
    CallView::Search {
        authorization: "Bearer "@ + session.jwt,
        org: session.org,
        body: wire::text_of_json(query),
    }
}

/// How a refresh begins.
pub open spec fn begun(cfg: Config, elapsed: int) -> StepView {
    sent(
        StageView::Login,
        login_call(cfg.cdgc_org_username@, cfg.cdgc_org_password@),
        config::per_call(cfg.timeout) as int,
        elapsed,
    )
}

/// What follows the documents of a search.
pub open spec fn after_documents(
    stage: StageView,
    docs: Seq<Tree>,
    t: Basis,
    elapsed: int,
) -> StepView {
    match stage {
        StageView::Schema { session } => if docs.len() == 0 {
            StepView::Failed(FetchError::SchemaNotFound)
        } else {
            match json::string_of(docs[0], "core.location"@) {
                Some(location) => sent(
                    StageView::Columns {
                        session,
                        asset: AssetView {
                            name: json::string_of(docs[0], "core.name"@),
                            external_id: json::string_of(docs[0], "core.externalId"@),
                        },
                    },
                    search_call(session, catalog::columns_query(location)),
                    t.per_call_ms,
                    elapsed,
                ),
                None => StepView::Failed(FetchError::NoLocation),
            }
        },
        StageView::Columns { session, asset } => if docs.len() == 0 {
            StepView::Failed(FetchError::NoColumns)
        } else {
            sent(
                StageView::Links { session, asset, columns: docs },
                search_call(
                    session,
                    catalog::links_query(catalog::strings_under(docs, "core.identity"@)),
                ),
                t.per_call_ms,
                elapsed,
            )
        },
        StageView::Links { session, asset, columns } => if catalog::linked_terms(docs).len() == 0 {
            StepView::Done {
                fields: catalog::field_map(columns, docs, Seq::empty(), t.marker),
                asset,
            }
        } else {
            sent(
                StageView::Terms { session, asset, columns, links: docs },
                search_call(session, catalog::terms_query(catalog::linked_terms(docs))),
                t.per_call_ms,
                elapsed,
            )
        },
        StageView::Terms { session, asset, columns, links } => StepView::Done {
            fields: catalog::field_map(columns, links, docs, t.marker),
            asset,
        },
        StageView::Login => StepView::Failed(FetchError::Malformed(CallKind::Login)),
        StageView::Token { .. } => StepView::Failed(FetchError::Malformed(CallKind::Token)),
    }
}

/// The call whose reply a stage waits for.
pub open spec fn awaited(stage: StageView) -> CallKind {
    match stage {
        StageView::Login => CallKind::Login,
        StageView::Token { .. } => CallKind::Token,
        _ => CallKind::Search,
    }
}

/// The status of a reply.
pub open spec fn status_of(reply: ReplyView) -> u32 {
    match reply {
        ReplyView::Unreachable => 0,
        ReplyView::Login { status, .. } => status,
        ReplyView::Token { status, .. } => status,
        ReplyView::Search { status, .. } => status,
    }
}

/// Whether a reply is one to the call that a stage waits for.
pub open spec fn answers(reply: ReplyView, stage: StageView) -> bool {
    match reply {
        ReplyView::Unreachable => false,
        ReplyView::Login { .. } => awaited(stage) == CallKind::Login,
        ReplyView::Token { .. } => awaited(stage) == CallKind::Token,
        ReplyView::Search { .. } => awaited(stage) == CallKind::Search,
    }
}

/// What follows a reply.
pub open spec fn after_reply(
    stage: StageView,
    reply: ReplyView,
    t: Basis,
    nonce: Seq<char>,
    elapsed: int,
) -> StepView {
    if reply is Unreachable {
        StepView::Failed(FetchError::Unreachable(awaited(stage)))
    } else if !answers(reply, stage) {
        StepView::Failed(FetchError::Malformed(awaited(stage)))
    } else if status_of(reply) >= 300 {
        StepView::Failed(FetchError::Status(awaited(stage), status_of(reply)))
    } else {
        match (stage, reply) {
            (StageView::Login, ReplyView::Login { session: Some((id, org)), .. }) => sent(
                StageView::Token { org },
                token_call(id, nonce),
                t.per_call_ms,
                elapsed,
            ),
            (StageView::Token { org }, ReplyView::Token { jwt: Some(jwt), .. }) => sent(
                StageView::Schema { session: SessionView { jwt, org } },
                search_call(SessionView { jwt, org }, catalog::schema_query(t.schema_id)),
                t.per_call_ms,
                elapsed,
            ),
            (_, ReplyView::Search { body, .. }) => match wire::json_of_bytes(body) {
                Some(answer) => after_documents(stage, catalog::documents(answer), t, elapsed),
                None => StepView::Failed(FetchError::Malformed(CallKind::Search)),
            },
            _ => StepView::Failed(FetchError::Malformed(awaited(stage))),
        }
    }
}

fn send(stage: Stage, call: Call, per_call_ms: i64, elapsed: i64) -> (r: Step)
    requires
        cdgc::REFRESH_BUDGET_MS - elapsed <= i64::MAX,
    ensures
        r@ == sent(stage@, call@, per_call_ms as int, elapsed as int),
{
    match next_call_timeout(per_call_ms, elapsed) {
        Some(timeout_ms) => Step::Send { stage, call, timeout_ms },
        None => Step::Failed(
            FetchError::Budget(
                match call {
                    Call::Login { .. } => CallKind::Login,
                    Call::Token { .. } => CallKind::Token,
                    Call::Search { .. } => CallKind::Search,
                },
            ),
        ),
    }
}

fn searching(session: &Session, query: &Json) -> (r: Call)
    ensures
        r@ == search_call(session@, query@),
{
    Call::Search {
        authorization: join("Bearer ", session.jwt.as_str()),
        org: session.org.clone(),
        body: to_text(query),
    }
}

/// How a refresh begins: with the login call, unless the budget is spent.
pub fn begin(cfg: &Config, elapsed: i64) -> (r: Step)
    requires
        cdgc::REFRESH_BUDGET_MS - elapsed <= i64::MAX,
    ensures
        r@ == begun(*cfg, elapsed as int),
{
    let mut o = Object::new();
    o.insert("username".to_owned(), Json::String(cfg.cdgc_org_username.clone()));
    o.insert("password".to_owned(), Json::String(cfg.cdgc_org_password.clone()));
    let call = Call::Login { body: to_text(&Json::Object(o)) };
    send(Stage::Login, call, cfg.per_call_ms(), elapsed)
}

fn opt_copy(s: Option<&String>) -> (r: Option<String>)
    ensures
        text::opt_text(r) == (match s {
            Some(s) => Some(s@),
            None => None,
        }),
{
    match s {
        Some(s) => Some(s.clone()),
        None => None,
    }
}

/// What follows the documents of a search.
pub fn on_documents(
    stage: Stage,
    docs: Vec<Json>,
    cfg: &Config,
    schema_id: &str,
    elapsed: i64,
) -> (r: Step)
    requires
        cdgc::REFRESH_BUDGET_MS - elapsed <= i64::MAX,
    ensures
        r@ == after_documents(
            stage@,
            json::trees(docs@),
            basis_of(*cfg, schema_id@),
            elapsed as int,
        ),
{
    proof {
        json::lemma_trees(docs@);
    }
    match stage {
        Stage::Schema { session } => {
            if docs.len() == 0 {
                return Step::Failed(FetchError::SchemaNotFound);
            }
            assert(json::trees(docs@)[0] == json::tree(docs@[0]));
            match docs[0].string("core.location") {
                Some(location) => {
                    let asset = Asset {
                        name: opt_copy(docs[0].string("core.name")),
                        external_id: opt_copy(docs[0].string("core.externalId")),
                    };
                    let call = searching(&session, &query_columns(location.as_str()));
                    send(Stage::Columns { session, asset }, call, cfg.per_call_ms(), elapsed)
                },
                None => Step::Failed(FetchError::NoLocation),
            }
        },
        Stage::Columns { session, asset } => {
            if docs.len() == 0 {
                return Step::Failed(FetchError::NoColumns);
            }
            let call = searching(&session, &query_links(column_ids(&docs)));
            send(
                Stage::Links { session, asset, columns: docs },
                call,
                cfg.per_call_ms(),
                elapsed,
            )
        },
        Stage::Links { session, asset, columns } => {
            let ids = term_ids(&docs);
            assert(text::texts(ids@).len() == ids@.len());
            if ids.len() == 0 {
                let marker = to_lowercase(cfg.marker());
                let terms: Vec<Json> = Vec::new();
                let fields = build_field_map(&columns, &docs, &terms, marker.as_str());
                return Step::Done { fields, asset };
            }
            let call = searching(&session, &query_terms(ids));
            send(
                Stage::Terms { session, asset, columns, links: docs },
                call,
                cfg.per_call_ms(),
                elapsed,
            )
        },
        Stage::Terms { session, asset, columns, links } => {
            let marker = to_lowercase(cfg.marker());
            let fields = build_field_map(&columns, &links, &docs, marker.as_str());
            Step::Done { fields, asset }
        },
        Stage::Login => Step::Failed(FetchError::Malformed(CallKind::Login)),
        Stage::Token { .. } => Step::Failed(FetchError::Malformed(CallKind::Token)),
    }
}

/// What follows a reply. The nonce is for the token call, if that is what follows.
pub fn on_reply(
    stage: Stage,
    reply: Reply,
    cfg: &Config,
    schema_id: &str,
    nonce: &str,
    elapsed: i64,
) -> (r: Step)
    requires
        cdgc::REFRESH_BUDGET_MS - elapsed <= i64::MAX,
    ensures
        r@ == after_reply(stage@, reply@, basis_of(*cfg, schema_id@), nonce@, elapsed as int),
{
    match (stage, reply) {
        (Stage::Login, Reply::Login { status, session }) => {
            if status >= 300 {
                return Step::Failed(FetchError::Status(CallKind::Login, status));
            }
            match session {
                Some(login) => {
                    let call = Call::Token {
                        path: join(TOKEN_PATH, nonce),
                        cookie: join("USER_SESSION=", login.session_id.as_str()),
                        session_id: login.session_id,
                    };
                    send(Stage::Token { org: login.org_id }, call, cfg.per_call_ms(), elapsed)
                },
                None => Step::Failed(FetchError::Malformed(CallKind::Login)),
            }
        },
        (Stage::Token { org }, Reply::Token { status, jwt }) => {
            if status >= 300 {
                return Step::Failed(FetchError::Status(CallKind::Token, status));
            }
            match jwt {
                Some(jwt) => {
                    let session = Session { jwt, org };
                    let call = searching(&session, &query_schema(schema_id));
                    send(Stage::Schema { session }, call, cfg.per_call_ms(), elapsed)
                },
                None => Step::Failed(FetchError::Malformed(CallKind::Token)),
            }
        },
        (Stage::Login, reply) => Step::Failed(
            match reply {
                Reply::Unreachable => FetchError::Unreachable(CallKind::Login),
                _ => FetchError::Malformed(CallKind::Login),
            },
        ),
        (Stage::Token { .. }, reply) => Step::Failed(
            match reply {
                Reply::Unreachable => FetchError::Unreachable(CallKind::Token),
                _ => FetchError::Malformed(CallKind::Token),
            },
        ),
        (stage, Reply::Search { status, body }) => {
            if status >= 300 {
                return Step::Failed(FetchError::Status(CallKind::Search, status));
            }
            match parse_bytes(&body) {
                Some(answer) => on_documents(
                    stage,
                    found_documents(answer),
                    cfg,
                    schema_id,
                    elapsed,
                ),
                None => Step::Failed(FetchError::Malformed(CallKind::Search)),
            }
        },
        (_, Reply::Unreachable) => Step::Failed(FetchError::Unreachable(CallKind::Search)),
        (_, _) => Step::Failed(FetchError::Malformed(CallKind::Search)),
    }
}

} // verus!
