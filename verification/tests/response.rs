use field_level_entitlement_filter::cdgc::CachedFieldMap;
use field_level_entitlement_filter::config::Config;
use field_level_entitlement_filter::entitlement::{GovernedField, MaskMode, Projection};
use field_level_entitlement_filter::json::Json;
use field_level_entitlement_filter::names::NameSet;
use field_level_entitlement_filter::records::{
    has_records, nav, nav_mut, path_segments, project_records,
};
use field_level_entitlement_filter::request::Ctx;
use field_level_entitlement_filter::response::{
    frame, govern, parse_rpc, response_governance, rewrite, rewrite_body, rewrite_text,
};
use field_level_entitlement_filter::wire::{integer, parse, to_text};

const ANALYST: &str = r#"{"assetId":"cb2345f7","clearance":"internal","entitled":false,"externalId":"b423cc70","mode":"mask","name":"dim_product.csv","purpose":"analytics","source":"cdgc","withheld":["unit_cost"]}"#;
const INVESTIGATOR: &str = r#"{"assetId":"cb2345f7","clearance":"restricted","entitled":true,"externalId":"b423cc70","mode":"mask","name":"dim_product.csv","purpose":"fraud-detection","source":"cdgc","withheld":[]}"#;
const PAYLOAD: &str = r#"{"products":[{"sku":"SKU-1001","product_name":"Blender X","list_price":"99.99","unit_cost":"42.50"}],"count":1}"#;
const OPEN: &str = r#""count":1,"products":[{"list_price":"99.99","product_name":"Blender X","sku":"SKU-1001","unit_cost":"42.50"}]}"#;
const MASKED: &str = r#""count":1,"products":[{"list_price":"99.99","product_name":"Blender X","sku":"SKU-1001","unit_cost":"***"}]}"#;

fn some(s: &str) -> Option<String> {
    Some(s.to_string())
}

fn demo_config() -> Config {
    Config {
        allowed_purposes: some("fraud-detection"),
        cdgc_org_password: "password".into(),
        cdgc_org_username: "user".into(),
        clearance_claim: None,
        clearance_header: None,
        cleared_levels: Some(vec!["restricted".into()]),
        distributed: None,
        fail_open_on_cdgc_error: None,
        mask_mode: None,
        mask_token: None,
        purpose_claim: None,
        purpose_header: None,
        records_path: some("products"),
        refresh_interval_seconds: None,
        schema_id: "cb2345f7".into(),
        schema_id_claim: None,
        schema_id_header: None,
        sensitive_levels: None,
        sensitive_marker: None,
        timeout: None,
    }
}

fn demo_map() -> CachedFieldMap {
    let names = [
        "brand", "category", "department", "is_sellable", "launch_date", "lifecycle_state",
        "list_price", "product_name", "sku", "subcategory", "unit_cost",
    ];
    CachedFieldMap {
        fields: names
            .iter()
            .map(|n| GovernedField { name: n.to_string(), sensitive: *n == "unit_cost", term: None })
            .collect(),
        name: some("dim_product.csv"),
        external_id: some("b423cc70"),
        timestamp: 0,
    }
}

fn analyst() -> Ctx {
    Ctx { asset_id: "cb2345f7".into(), clearance: some("internal"), purpose: some("analytics") }
}

fn investigator() -> Ctx {
    Ctx { asset_id: "cb2345f7".into(), clearance: some("restricted"), purpose: some("fraud-detection") }
}

/// The reported count and the body as it goes out.
fn respond(ctx: &Ctx, cfg: &Config, content_type: &str, body: &str) -> (String, Option<String>) {
    let map = Some(demo_map());
    let g = response_governance(ctx, &map, cfg, content_type).unwrap();
    let out = rewrite_body(body.as_bytes().to_vec(), &g, ctx, map.as_ref().unwrap(), cfg);
    (g.filtered, out.map(|r| r.value))
}

fn with_account(account: &str, rest: &str) -> String {
    format!("{{\"_entitlement\":{account},{rest}")
}

fn quoted(s: &str) -> String {
    to_text(&Json::String(s.to_string()))
}

#[test]
fn analyst_gets_the_cost_masked_and_investigator_sees_it() {
    let body = format!(r#"{{"jsonrpc":"2.0","id":1,"result":{{"structuredContent":{PAYLOAD}}}}}"#);
    let (count, out) = respond(&analyst(), &demo_config(), "application/json", &body);
    assert_eq!(count, "1");
    assert_eq!(
        out.unwrap(),
        format!(r#"{{"id":1,"jsonrpc":"2.0","result":{{"structuredContent":{}}}}}"#, with_account(ANALYST, MASKED)),
    );
    let (count, out) = respond(&investigator(), &demo_config(), "application/json", &body);
    assert_eq!(count, "0");
    assert_eq!(
        out.unwrap(),
        format!(r#"{{"id":1,"jsonrpc":"2.0","result":{{"structuredContent":{}}}}}"#, with_account(INVESTIGATOR, OPEN)),
    );
}

#[test]
fn the_other_modes_nullify_and_drop() {
    let mut cfg = demo_config();
    cfg.mask_mode = some("nullify");
    let (_, out) = respond(&analyst(), &cfg, "application/json", PAYLOAD);
    assert!(out.unwrap().ends_with(r#""sku":"SKU-1001","unit_cost":null}]}"#));
    cfg.mask_mode = some("drop");
    let (_, out) = respond(&analyst(), &cfg, "application/json", PAYLOAD);
    assert!(out.unwrap().ends_with(r#""sku":"SKU-1001"}]}"#));
}

#[test]
fn rest_bodies_are_the_payload() {
    let (_, out) = respond(&analyst(), &demo_config(), "application/json", PAYLOAD);
    assert_eq!(out.unwrap(), with_account(ANALYST, MASKED));
}

#[test]
fn a_result_without_a_payload_makes_no_envelope() {
    let body = r#"{"result":"ok","products":[{"unit_cost":"42.50"}]}"#;
    let (_, out) = respond(&analyst(), &demo_config(), "application/json", body);
    assert_eq!(
        out.unwrap(),
        with_account(ANALYST, r#""products":[{"unit_cost":"***"}],"result":"ok"}"#),
    );
    let mut cfg = demo_config();
    cfg.records_path = some("result");
    let body = r#"{"result":[{"unit_cost":"42.50"}]}"#;
    let (_, out) = respond(&analyst(), &cfg, "application/json", body);
    assert_eq!(out.unwrap(), with_account(ANALYST, r#""result":[{"unit_cost":"***"}]}"#));
    let marked = r#"{"jsonrpc":"2.0","result":"ok","products":[{"unit_cost":"42.50"}]}"#;
    assert_eq!(respond(&analyst(), &demo_config(), "application/json", marked).1, None);
}

#[test]
fn bodies_that_differ_in_withheld_values_look_the_same() {
    let structured = |cost: &str| {
        format!(r#"{{"result":{{"content":[{{"type":"text","text":"cost {cost}"}}],"structuredContent":{{"products":[{{"unit_cost":"{cost}"}}]}}}}}}"#)
    };
    let in_text = |cost: &str| {
        let payload = quoted(&format!(r#"{{"products":[{{"unit_cost":"{cost}"}}]}}"#));
        format!(r#"{{"jsonrpc":"2.0","result":{{"content":[{{"type":"text","text":{payload}}}]}}}}"#)
    };
    let bare = |cost: &str| format!(r#"{{"products":[{{"unit_cost":"{cost}"}}]}}"#);
    let stream = |cost: &str| format!("data: {}\n\n", structured(cost));
    let cfg = demo_config();
    for body in [structured("1"), in_text("1"), bare("1")] {
        assert!(respond(&analyst(), &cfg, "application/json", &body).1.is_some());
    }
    assert_eq!(respond(&analyst(), &cfg, "application/json", &structured("1")), respond(&analyst(), &cfg, "application/json", &structured("2")));
    assert_eq!(respond(&analyst(), &cfg, "application/json", &in_text("1")), respond(&analyst(), &cfg, "application/json", &in_text("2")));
    assert_eq!(respond(&analyst(), &cfg, "application/json", &bare("1")), respond(&analyst(), &cfg, "application/json", &bare("2")));
    assert_eq!(respond(&analyst(), &cfg, "text/event-stream", &stream("1")), respond(&analyst(), &cfg, "text/event-stream", &stream("2")));
    assert_ne!(respond(&investigator(), &cfg, "application/json", &bare("1")), respond(&investigator(), &cfg, "application/json", &bare("2")));
}

#[test]
fn error_replies_are_left_alone() {
    let body = r#"{"jsonrpc":"2.0","id":1,"error":{"code":-1},"products":[{"unit_cost":1}]}"#;
    assert_eq!(respond(&analyst(), &demo_config(), "application/json", body).1, None);
}

#[test]
fn the_text_mirror_stays_consistent() {
    let body = format!(
        r#"{{"result":{{"content":[{{"type":"image","text":"i"}},{{"type":"text","text":"old"}},{{"type":"text","text":"kept"}}],"structuredContent":{PAYLOAD}}}}}"#
    );
    let governed = with_account(ANALYST, MASKED);
    let (_, out) = respond(&analyst(), &demo_config(), "application/json", &body);
    assert_eq!(
        out.unwrap(),
        format!(
            r#"{{"result":{{"content":[{{"text":"i","type":"image"}},{{"text":{},"type":"text"}},{{"text":"kept","type":"text"}}],"structuredContent":{governed}}}}}"#,
            quoted(&governed),
        ),
    );
}

#[test]
fn the_first_json_text_is_the_payload_without_structured_content() {
    let body = format!(
        r#"{{"result":{{"content":[{{"type":"text","text":"hello"}},{{"type":"blob","text":"{{}}"}},{{"type":"text","text":{}}}]}}}}"#,
        quoted(PAYLOAD),
    );
    let (_, out) = respond(&analyst(), &demo_config(), "application/json", &body);
    assert_eq!(
        out.unwrap(),
        format!(
            r#"{{"result":{{"content":[{{"text":"hello","type":"text"}},{{"text":"{{}}","type":"blob"}},{{"text":{},"type":"text"}}]}}}}"#,
            quoted(&with_account(ANALYST, MASKED)),
        ),
    );
}

#[test]
fn results_without_a_payload_are_left_alone() {
    for body in [
        r#"{"result":{"content":[{"type":"text","text":"hello"}]}}"#,
        r#"{"result":{"content":"x"}}"#,
        r#"{"jsonrpc":"2.0","result":{"content":[]}}"#,
        r#"{"result":7}"#,
        r#"{"result":{"structuredContent":{"other":1},"content":[{"type":"text","text":"{\"products\":{}}"}]}}"#,
        "not json",
        "7",
    ] {
        assert_eq!(respond(&analyst(), &demo_config(), "application/json", body).1, None, "{body}");
    }
}

#[test]
fn event_streams_of_one_message_are_rewritten() {
    let reply = |payload: &str| format!(r#"{{"id":1,"jsonrpc":"2.0","result":{{"structuredContent":{payload}}}}}"#);
    let body = format!(": hi\r\nevent: message\r\ndata: nope\r\n  data:{} \r\n\r\ndata: {{}}\n", reply(PAYLOAD));
    let (_, out) = respond(&analyst(), &demo_config(), "text/event-stream", &body);
    assert_eq!(out.unwrap(), format!("event: message\ndata: {}\n\n", reply(&with_account(ANALYST, MASKED))));
}

#[test]
fn event_streams_without_an_envelope_are_left_alone() {
    let mut cfg = demo_config();
    for path in ["products", ""] {
        cfg.records_path = some(path);
        for message in [PAYLOAD, r#"{"result":"ok","products":[{"unit_cost":1}]}"#, r#"[{"unit_cost":1}]"#] {
            let body = format!("data: {message}\n\ndata: {{\"more\":1}}\n\n");
            assert_eq!(respond(&analyst(), &cfg, "text/event-stream", &body).1, None, "{body}");
        }
    }
}

#[test]
fn batches_of_replies_are_left_alone() {
    let mut cfg = demo_config();
    cfg.records_path = some("");
    let batch = r#"[{"unit_cost":1},{"jsonrpc":"2.0","id":1,"unit_cost":2,"result":{}}]"#;
    assert_eq!(respond(&analyst(), &cfg, "application/json", batch).1, None);
    let rows = r#"[{"unit_cost":1},{"id":1}]"#;
    assert_eq!(respond(&analyst(), &cfg, "application/json", rows).1, some(r#"[{"unit_cost":"***"},{"id":1}]"#));
}

#[test]
fn other_responses_pass_through() {
    let map = Some(demo_map());
    let cfg = demo_config();
    assert!(response_governance(&analyst(), &map, &cfg, "text/html").is_none());
    assert!(response_governance(&analyst(), &map, &cfg, "").is_none());
    assert!(response_governance(&analyst(), &None, &cfg, "application/json").is_none());
    assert!(response_governance(&analyst(), &Some(CachedFieldMap::default()), &cfg, "application/json").is_none());
    assert!(response_governance(&analyst(), &map, &cfg, "application/problem+json").is_some_and(|g| !g.is_sse));
    assert!(response_governance(&analyst(), &map, &cfg, "text/event-stream").is_some_and(|g| g.is_sse));
}

#[test]
fn bodies_that_are_not_text_are_left_alone() {
    let map = Some(demo_map());
    let cfg = demo_config();
    let g = response_governance(&analyst(), &map, &cfg, "application/json").unwrap();
    assert!(rewrite_body(vec![0xff, b'{', b'}'], &g, &analyst(), map.as_ref().unwrap(), &cfg).is_none());
}

fn projection(names: &[&str], mode: MaskMode) -> Projection {
    let mut withhold = NameSet::new();
    for n in names {
        withhold.insert(n.to_string());
    }
    Projection { withhold, mode, token: "#".into(), entitled: false }
}

#[test]
fn every_record_is_projected_and_nothing_else() {
    let mut payload = parse(r#"{"a":{"b":[{"x":1,"y":2},7,{"y":3},{"x":null}]},"x":9}"#).unwrap();
    let withheld = project_records(&mut payload, "/a//b/", &projection(&["x", "z"], MaskMode::Mask));
    assert_eq!(withheld.to_vec(), vec!["x"]);
    assert_eq!(to_text(&payload), r##"{"a":{"b":[{"x":"#","y":2},7,{"y":3},{"x":"#"}]},"x":9}"##);
    let again = project_records(&mut payload, "a/b", &projection(&["x", "z"], MaskMode::Mask));
    assert_eq!(again.to_vec(), vec!["x"]);
    assert_eq!(to_text(&payload), r##"{"a":{"b":[{"x":"#","y":2},7,{"y":3},{"x":"#"}]},"x":9}"##);
}

#[test]
fn a_path_may_lead_to_one_record_or_nowhere() {
    let mut payload = parse(r#"{"rows":[{"x":1},{"x":2}]}"#).unwrap();
    project_records(&mut payload, "rows/1", &projection(&["x"], MaskMode::Drop));
    assert_eq!(to_text(&payload), r#"{"rows":[{"x":1},{}]}"#);
    let none = project_records(&mut payload, "rows/2", &projection(&["x"], MaskMode::Drop));
    assert!(none.is_empty());
    assert_eq!(to_text(&payload), r#"{"rows":[{"x":1},{}]}"#);
}

#[test]
fn paths_lead_through_objects_and_arrays() {
    let root = parse(r#"{"a":[10,{"b":"c"}],"1":true}"#).unwrap();
    assert_eq!(path_segments("/a//1/b/"), vec!["a", "1", "b"]);
    assert_eq!(nav(&root, "a/1/b").map(to_text), some("\"c\""));
    assert_eq!(nav(&root, "a/+1/b").map(to_text), some("\"c\""));
    assert_eq!(nav(&root, "1").map(to_text), some("true"));
    assert_eq!(nav(&root, "").map(to_text), some(r#"{"1":true,"a":[10,{"b":"c"}]}"#));
    for path in ["a/2", "a/b", "a/-1", "b", "1/0", "a/0/0", "a/99999999999999999999999"] {
        assert!(nav(&root, path).is_none(), "{path}");
    }
}

#[test]
fn what_is_put_at_a_path_is_found_there() {
    let mut root = parse(r#"{"a":[1,{"b":2}],"c":3}"#).unwrap();
    *nav_mut(&mut root, "a/1/b").unwrap() = Json::Null;
    assert_eq!(to_text(&root), r#"{"a":[1,{"b":null}],"c":3}"#);
    assert!(nav_mut(&mut root, "a/7").is_none());
    assert_eq!(to_text(&root), r#"{"a":[1,{"b":null}],"c":3}"#);
}

#[test]
fn records_are_objects_and_arrays_of_them() {
    for (text, expected) in [("{}", true), ("[1,{}]", true), ("[1]", false), ("[]", false), ("1", false)] {
        assert_eq!(has_records(&parse(text).unwrap(), ""), expected, "{text}");
    }
    assert!(!has_records(&parse("{}").unwrap(), "a"));
}

#[test]
fn arrays_are_governed_without_an_account() {
    let map = demo_map();
    let out = govern(parse(r#"[{"x":1}]"#).unwrap(), "", &projection(&["x"], MaskMode::Nullify), &analyst(), &map);
    let out = out.unwrap();
    assert_eq!(to_text(&out.value), r#"[{"x":null}]"#);
    assert_eq!(out.withheld, vec!["x"]);
    assert!(govern(parse("[1]").unwrap(), "", &projection(&["x"], MaskMode::Mask), &analyst(), &map).is_none());
}

#[test]
fn missing_claims_are_null_in_the_account() {
    let map = CachedFieldMap { fields: Vec::new(), name: None, external_id: None, timestamp: 0 };
    let ctx = Ctx { asset_id: "a".into(), clearance: None, purpose: None };
    let out = govern(parse(r#"{"x":1}"#).unwrap(), "", &projection(&["x"], MaskMode::Drop), &ctx, &map);
    assert_eq!(
        to_text(&out.unwrap().value),
        r#"{"_entitlement":{"assetId":"a","clearance":null,"entitled":false,"externalId":null,"mode":"drop","name":null,"purpose":null,"source":"cdgc","withheld":["x"]}}"#,
    );
}

#[test]
fn payloads_that_differ_in_withheld_values_look_the_same() {
    let map = demo_map();
    let p = projection(&["x"], MaskMode::Mask);
    let one = govern(parse(r#"{"r":[{"x":1,"y":2}]}"#).unwrap(), "r", &p, &analyst(), &map).unwrap();
    let other = govern(parse(r#"{"r":[{"x":[],"y":2}]}"#).unwrap(), "r", &p, &analyst(), &map).unwrap();
    assert_eq!(to_text(&one.value), to_text(&other.value));
}

#[test]
fn envelopes_are_kept() {
    let message = parse(r#"{"jsonrpc":"2.0","id":"q","extra":[1],"result":{"meta":2,"structuredContent":{"x":1}}}"#).unwrap();
    let out = rewrite(message, false, "", &projection(&["x"], MaskMode::Drop), &analyst(), &demo_map()).unwrap().value;
    assert_eq!(out.member("id").map(to_text), some("\"q\""));
    assert_eq!(out.member("extra").map(to_text), some("[1]"));
    assert_eq!(out.member("result").unwrap().member("meta").map(to_text), some("2"));
}

#[test]
fn framed_messages_read_back() {
    for text in [r#"{"a":["line\nbreak",null,true,12],"b":{"é":" "}}"#, "\"\"", "[]", "0", "[-1,-9223372036854775808,18446744073709551615]"] {
        let message = parse(text).unwrap();
        for is_sse in [true, false] {
            let body = frame(&message, is_sse);
            assert_eq!(to_text(&parse_rpc(&body, is_sse).unwrap()), to_text(&message));
        }
    }
    assert_eq!(frame(&parse(" { \"a\" : 1 } ").unwrap(), false), r#"{"a":1}"#);
}

#[test]
fn streams_without_json_data_carry_no_message() {
    for body in ["", "data:", "data: x\ndata: {", "event: 1\n1", "DATA: 1"] {
        assert!(parse_rpc(body, true).is_none(), "{body}");
    }
    assert!(parse_rpc("data: 1", false).is_none());
    assert_eq!(parse_rpc("\u{a0}data:1", true).map(|v| to_text(&v)), some("1"));
}

#[test]
fn rewritten_text_reads_back() {
    let p = projection(&["x"], MaskMode::Mask);
    let body = "data: {\"result\":{\"structuredContent\":{\"x\":1}}}\n";
    let out = rewrite_text(body, true, "", &p, &analyst(), &demo_map()).unwrap();
    assert_eq!(out.withheld, vec!["x"]);
    let message = parse_rpc(&out.value, true).unwrap();
    let payload = message.member("result").unwrap().member("structuredContent").unwrap();
    assert_eq!(payload.member("x").map(to_text), some("\"#\""));
    assert!(payload.member("_entitlement").is_some());
    let out = rewrite_text("{\"x\":1}", false, "", &p, &analyst(), &demo_map()).unwrap();
    assert_eq!(parse_rpc(&out.value, false).unwrap().member("x").map(to_text), some("\"#\""));
}

#[test]
fn json_text_is_read_and_written() {
    let text = r#"{"s":"\"\\\n\u0001é","n":[0,-1,1.5,18446744073709551615],"o":{},"a":[],"t":true,"z":null}"#;
    let value = parse(text).unwrap();
    assert_eq!(
        to_text(&value),
        r#"{"a":[],"n":[0,-1,1.5,18446744073709551615],"o":{},"s":"\"\\\n\u0001é","t":true,"z":null}"#,
    );
    assert_eq!(to_text(&parse(r#"{"k":1,"k":2}"#).unwrap()), r#"{"k":2}"#);
    for bad in ["", "{", "[1,]", "{} {}", "nul", "'a'"] {
        assert!(parse(bad).is_none(), "{bad}");
    }
}

#[test]
fn integers_make_numbers() {
    for n in [0u64, 1, 5000, u64::MAX] {
        assert_eq!(to_text(&integer(n)), n.to_string());
    }
}

#[test]
fn nesting_is_read_to_its_limit() {
    let nested = |n: usize| format!("{}{}", "[".repeat(n), "]".repeat(n));
    assert_eq!(parse(&nested(127)).map(|v| to_text(&v)), Some(nested(127)));
    assert!(parse(&nested(128)).is_none());
}
