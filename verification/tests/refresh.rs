use field_level_entitlement_filter::catalog::{
    build_field_map, column_ids, found_documents, query_columns, query_links, query_schema,
    query_terms, term_ids,
};
use field_level_entitlement_filter::config::Config;
use field_level_entitlement_filter::entitlement::GovernedField;
use field_level_entitlement_filter::json::Json;
use field_level_entitlement_filter::refresh::{
    begin, on_documents, on_reply, Asset, Call, CallKind, FetchError, LoginReply, Reply, Session,
    Stage, Step, LOGIN_PATH, SEARCH_PATH, TOKEN_PATH,
};
use field_level_entitlement_filter::wire::{parse, parse_bytes, to_text};

fn config() -> Config {
    Config {
        allowed_purposes: None,
        cdgc_org_password: "p\"w".into(),
        cdgc_org_username: "user".into(),
        clearance_claim: None,
        clearance_header: None,
        cleared_levels: None,
        distributed: None,
        fail_open_on_cdgc_error: None,
        mask_mode: None,
        mask_token: None,
        purpose_claim: None,
        purpose_header: None,
        records_path: None,
        refresh_interval_seconds: None,
        schema_id: "asset".into(),
        schema_id_claim: None,
        schema_id_header: None,
        sensitive_levels: None,
        sensitive_marker: Some("CONFIDENTIAL".into()),
        timeout: Some(4_000),
    }
}

fn docs(text: &str) -> Vec<Json> {
    match parse(text) {
        Some(Json::Array(items)) => items,
        _ => panic!("not an array: {text}"),
    }
}

fn hits(sources: &str) -> Vec<u8> {
    let listed: Vec<String> = docs(sources).iter().map(|d| format!("{{\"sourceAsMap\":{}}}", to_text(d))).collect();
    format!("{{\"hits\":{{\"hits\":[{}]}}}}", listed.join(",")).into_bytes()
}

const SCHEMA: &str = r#"[{"core.identity":"asset","core.location":"loc/f","core.name":"dim_product.csv","core.externalId":"ext"}]"#;
const COLUMNS: &str = r#"[{"core.identity":"c1","core.name":"sku"},{"core.identity":"c2","core.name":"unit_cost"},{"core.identity":"c3","core.name":"brand"}]"#;
const LINKS: &str = r#"[{"core.sourceIdentity":"c2","core.targetIdentity":"t2"},{"core.sourceIdentity":"c1","core.targetIdentity":"t1"},{"core.sourceIdentity":"c2","core.targetIdentity":"t1"}]"#;
const TERMS: &str = r#"[{"core.identity":"t1","core.name":"SKU","core.description":"public"},{"core.identity":"t2","core.name":"Unit Cost","core.description":"Strictly Confidential."}]"#;

fn field(name: &str, sensitive: bool, term: Option<&str>) -> GovernedField {
    GovernedField { name: name.into(), sensitive, term: term.map(str::to_string) }
}

/// The search body of a step, with its stage.
fn searched(step: Step) -> (Stage, String) {
    match step {
        Step::Send { stage, call: Call::Search { authorization, org, body }, timeout_ms } => {
            assert_eq!(authorization, "Bearer jwt");
            assert_eq!(org, "org");
            assert_eq!(timeout_ms, 4_000);
            (stage, body)
        }
        other => panic!("{other:?}"),
    }
}

fn reply_to(stage: Stage, body: Vec<u8>) -> Step {
    on_reply(stage, Reply::Search { status: 200, body }, &config(), "asset", "9", 0)
}

#[test]
fn a_refresh_makes_its_calls_and_yields_the_field_map() {
    let stage = match begin(&config(), 0) {
        Step::Send { stage, call: Call::Login { body }, timeout_ms } => {
            assert_eq!(body, r#"{"password":"p\"w","username":"user"}"#);
            assert_eq!(timeout_ms, 4_000);
            stage
        }
        other => panic!("{other:?}"),
    };
    let login = LoginReply { session_id: "sid".into(), org_id: "org".into() };
    let step = on_reply(stage, Reply::Login { status: 200, session: Some(login) }, &config(), "asset", "77", 10);
    let stage = match step {
        Step::Send { stage, call: Call::Token { path, cookie, session_id }, .. } => {
            assert_eq!(path, "/identity-service/api/v1/jwt/Token?client_id=idmc_api&nonce=77");
            assert_eq!(cookie, "USER_SESSION=sid");
            assert_eq!(session_id, "sid");
            stage
        }
        other => panic!("{other:?}"),
    };
    let step = on_reply(stage, Reply::Token { status: 299, jwt: Some("jwt".into()) }, &config(), "asset", "78", 20);
    let (stage, body) = searched(step);
    assert_eq!(body, to_text(&query_schema("asset")));
    let (stage, body) = searched(reply_to(stage, hits(SCHEMA)));
    assert_eq!(body, to_text(&query_columns("loc/f")));
    let (stage, body) = searched(reply_to(stage, hits(COLUMNS)));
    assert_eq!(body, to_text(&query_links(vec!["c1".into(), "c2".into(), "c3".into()])));
    let (stage, body) = searched(reply_to(stage, hits(LINKS)));
    assert_eq!(body, to_text(&query_terms(vec!["t2".into(), "t1".into()])));
    match reply_to(stage, hits(TERMS)) {
        Step::Done { fields, asset } => {
            assert_eq!(
                fields,
                vec![field("sku", false, Some("SKU")), field("unit_cost", true, Some("Unit Cost")), field("brand", false, None)],
            );
            assert_eq!(asset.name.as_deref(), Some("dim_product.csv"));
            assert_eq!(asset.external_id.as_deref(), Some("ext"));
        }
        other => panic!("{other:?}"),
    }
}

#[test]
fn paths_of_the_calls() {
    assert_eq!(LOGIN_PATH, "/identity-service/api/v1/Login");
    assert_eq!(SEARCH_PATH, "/ccgf-searchv2/api/v1/search");
    assert!(TOKEN_PATH.ends_with("nonce="));
}

#[test]
fn queries_are_those_of_the_search_api() {
    assert_eq!(
        to_text(&query_schema("id")),
        r#"{"from":0,"query":{"bool":{"must":[{"terms":{"elementType":["OBJECT"]}},{"terms":{"core.identity":["id"]}}]}},"size":1}"#,
    );
    assert_eq!(
        to_text(&query_columns("loc")),
        r#"{"from":0,"query":{"bool":{"filter":[{"terms":{"core.location::path_hierarchy.parent":["loc"]}}],"must":[{"terms":{"core.classType":["com.infa.odin.models.file.flat.FlatField"]}}]}},"size":1000}"#,
    );
    assert_eq!(
        to_text(&query_links(vec!["a".into(), "b".into()])),
        r#"{"from":0,"query":{"bool":{"must":[{"terms":{"elementType":["RELATIONSHIP"]}},{"terms":{"type":["com.infa.ccgf.models.governance.IClassTechnicalGlossaryBase"]}},{"terms":{"core.sourceIdentity":["a","b"]}}]}},"size":5000}"#,
    );
    assert_eq!(
        to_text(&query_terms(vec!["t".into()])),
        r#"{"from":0,"query":{"bool":{"must":[{"terms":{"elementType":["OBJECT"]}},{"terms":{"core.identity":["t"]}}]}},"size":5000}"#,
    );
}

#[test]
fn documents_are_the_sources_of_the_hits() {
    let answer = parse_bytes(&br#"{"hits":{"hits":[{"sourceAsMap":{"a":1}},{"x":2},{"sourceAsMap":null}]}}"#.to_vec());
    let found: Vec<String> = found_documents(answer.unwrap()).iter().map(to_text).collect();
    assert_eq!(found, vec![r#"{"a":1}"#, "null"]);
    for text in ["{}", r#"{"hits":[]}"#, r#"{"hits":{"hits":{}}}"#, "[]"] {
        assert!(found_documents(parse(text).unwrap()).is_empty());
    }
}

#[test]
fn links_name_both_ends_and_the_first_one_counts() {
    let links = docs(r#"[{"core.sourceIdentity":"c"},{"core.sourceIdentity":"c","core.targetIdentity":"t2"},{"core.sourceIdentity":"c","core.targetIdentity":"t1"},{"core.sourceIdentity":"d","core.targetIdentity":"t2"}]"#);
    assert_eq!(term_ids(&links), vec!["t2", "t1"]);
    let columns = docs(r#"[{"core.identity":"c","core.name":"x"}]"#);
    let fields = build_field_map(&columns, &links, &docs(TERMS), "confidential");
    assert_eq!(fields, vec![field("x", true, Some("Unit Cost"))]);
}

#[test]
fn columns_without_identity_or_name_make_no_field() {
    let columns = docs(r#"[{"core.identity":"c"},{"core.name":"n"},{"core.identity":"d","core.name":"ok"},7]"#);
    assert_eq!(column_ids(&columns), vec!["c", "d"]);
    let fields = build_field_map(&columns, &docs("[]"), &docs("[]"), "m");
    assert_eq!(fields, vec![field("ok", false, None)]);
}

#[test]
fn the_last_document_of_a_term_counts_and_the_marker_ignores_case() {
    let columns = docs(r#"[{"core.identity":"c","core.name":"x"}]"#);
    let links = docs(r#"[{"core.sourceIdentity":"c","core.targetIdentity":"t"}]"#);
    let terms = docs(r#"[{"core.identity":"t","core.description":"secret"},{"core.identity":"t","core.name":"N","core.description":"Top SECRET"}]"#);
    assert_eq!(build_field_map(&columns, &links, &terms, "secret"), vec![field("x", true, Some("N"))]);
    assert_eq!(build_field_map(&columns, &links, &terms, "other"), vec![field("x", false, Some("N"))]);
    let bare = docs(r#"[{"core.identity":"t"}]"#);
    assert_eq!(build_field_map(&columns, &links, &bare, "secret"), vec![field("x", false, None)]);
    assert_eq!(build_field_map(&columns, &links, &bare, ""), vec![field("x", true, None)]);
}

fn session() -> Session {
    Session { jwt: "jwt".into(), org: "org".into() }
}

fn asset() -> Asset {
    Asset { name: None, external_id: None }
}

#[test]
fn without_linked_terms_a_refresh_is_done_after_the_links() {
    let stage = Stage::Links { session: session(), asset: asset(), columns: docs(COLUMNS) };
    match on_documents(stage, docs(r#"[{"core.sourceIdentity":"c1"}]"#), &config(), "asset", 0) {
        Step::Done { fields, .. } => assert!(fields.len() == 3 && fields.iter().all(|f| !f.sensitive)),
        other => panic!("{other:?}"),
    }
}

fn failure(step: Step) -> FetchError {
    match step {
        Step::Failed(e) => e,
        other => panic!("{other:?}"),
    }
}

#[test]
fn a_refresh_fails_on_what_it_does_not_find() {
    let empty = || Reply::Search { status: 200, body: hits("[]") };
    let schema = || Stage::Schema { session: session() };
    assert_eq!(failure(on_reply(schema(), empty(), &config(), "asset", "1", 0)), FetchError::SchemaNotFound);
    assert_eq!(failure(reply_to(schema(), hits(r#"[{"core.name":"n"}]"#))), FetchError::NoLocation);
    let columns = Stage::Columns { session: session(), asset: asset() };
    assert_eq!(failure(on_reply(columns, empty(), &config(), "asset", "1", 0)), FetchError::NoColumns);
}

#[test]
fn a_refresh_fails_when_the_budget_is_spent() {
    assert_eq!(failure(begin(&config(), 15_000)), FetchError::Budget(CallKind::Login));
    let login = LoginReply { session_id: "s".into(), org_id: "o".into() };
    let reply = Reply::Login { status: 200, session: Some(login) };
    assert_eq!(failure(on_reply(Stage::Login, reply, &config(), "a", "1", 15_001)), FetchError::Budget(CallKind::Token));
    let reply = Reply::Token { status: 200, jwt: Some("j".into()) };
    assert_eq!(failure(on_reply(Stage::Token { org: "o".into() }, reply, &config(), "a", "1", 20_000)), FetchError::Budget(CallKind::Search));
    match begin(&config(), 14_000) {
        Step::Send { timeout_ms, .. } => assert_eq!(timeout_ms, 1_000),
        other => panic!("{other:?}"),
    }
}

#[test]
fn a_refresh_fails_on_a_status_that_is_no_success() {
    let reply = Reply::Login { status: 401, session: None };
    assert_eq!(failure(on_reply(Stage::Login, reply, &config(), "a", "1", 0)), FetchError::Status(CallKind::Login, 401));
    let reply = Reply::Token { status: 300, jwt: Some("j".into()) };
    assert_eq!(failure(on_reply(Stage::Token { org: "o".into() }, reply, &config(), "a", "1", 0)), FetchError::Status(CallKind::Token, 300));
    let reply = Reply::Search { status: 503, body: hits(SCHEMA) };
    assert_eq!(failure(on_reply(Stage::Schema { session: session() }, reply, &config(), "a", "1", 0)), FetchError::Status(CallKind::Search, 503));
}

#[test]
fn a_refresh_fails_on_replies_that_cannot_be_read() {
    let reply = Reply::Login { status: 200, session: None };
    assert_eq!(failure(on_reply(Stage::Login, reply, &config(), "a", "1", 0)), FetchError::Malformed(CallKind::Login));
    let reply = Reply::Token { status: 200, jwt: None };
    assert_eq!(failure(on_reply(Stage::Token { org: "o".into() }, reply, &config(), "a", "1", 0)), FetchError::Malformed(CallKind::Token));
    assert_eq!(failure(reply_to(Stage::Schema { session: session() }, b"oops".to_vec())), FetchError::Malformed(CallKind::Search));
    assert_eq!(failure(reply_to(Stage::Login, hits(SCHEMA))), FetchError::Malformed(CallKind::Login));
}

#[test]
fn a_refresh_fails_when_a_call_brings_no_reply() {
    assert_eq!(failure(on_reply(Stage::Login, Reply::Unreachable, &config(), "a", "1", 0)), FetchError::Unreachable(CallKind::Login));
    assert_eq!(failure(on_reply(Stage::Token { org: "o".into() }, Reply::Unreachable, &config(), "a", "1", 0)), FetchError::Unreachable(CallKind::Token));
    assert_eq!(failure(on_reply(Stage::Schema { session: session() }, Reply::Unreachable, &config(), "a", "1", 0)), FetchError::Unreachable(CallKind::Search));
}
