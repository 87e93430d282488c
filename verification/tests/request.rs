use field_level_entitlement_filter::claims::{
    bearer, claim, decode_base64, decode_claims, decode_payload, if_present,
};
use field_level_entitlement_filter::config::{entitlement_policy, field_map_store_ttl_ms, Config};
use field_level_entitlement_filter::entitlement::MaskMode;
use field_level_entitlement_filter::request::{
    context_from, filters_body, filters_response, is_content_method, reads_body, request_context,
    request_outcome, CallerHeaders, Ctx,
};
use field_level_entitlement_filter::wire::parse;

fn config() -> Config {
    Config {
        allowed_purposes: None,
        cdgc_org_password: "password".into(),
        cdgc_org_username: "user".into(),
        clearance_claim: None,
        clearance_header: None,
        cleared_levels: None,
        distributed: None,
        fail_open_on_cdgc_error: None,
        mask_mode: None,
        mask_token: None,
        purpose_claim: None,
        purpose_header: None,
        records_path: None,
        refresh_interval_seconds: None,
        schema_id: "asset-0".into(),
        schema_id_claim: None,
        schema_id_header: None,
        sensitive_levels: None,
        sensitive_marker: None,
        timeout: None,
    }
}

fn some(s: &str) -> Option<String> {
    Some(s.to_string())
}

fn headers() -> CallerHeaders {
    CallerHeaders {
        schema: some("asset-h"),
        clearance: some("internal"),
        purpose: some("analytics"),
        // {"clr":"restricted","use":"fraud-detection","sid":"asset-t","n":7,"blank":" "}
        authorization: some("Bearer e30.eyJjbHIiOiJyZXN0cmljdGVkIiwidXNlIjoiZnJhdWQtZGV0ZWN0aW9uIiwic2lkIjoiYXNzZXQtdCIsIm4iOjcsImJsYW5rIjoiICJ9.sig"),
    }
}

#[test]
fn headers_count_where_no_claim_is_configured() {
    let ctx = request_context(headers(), &config());
    assert_eq!(ctx.asset_id, "asset-h");
    assert_eq!(ctx.clearance.as_deref(), Some("internal"));
    assert_eq!(ctx.purpose.as_deref(), Some("analytics"));
}

#[test]
fn configured_claims_win_over_headers() {
    let mut c = config();
    c.clearance_claim = some("clr");
    c.purpose_claim = some("use");
    c.schema_id_claim = some("sid");
    let ctx = request_context(headers(), &c);
    assert_eq!(ctx.asset_id, "asset-t");
    assert_eq!(ctx.clearance.as_deref(), Some("restricted"));
    assert_eq!(ctx.purpose.as_deref(), Some("fraud-detection"));
}

#[test]
fn absent_blank_and_other_claims_fall_back_to_headers() {
    let mut c = config();
    c.clearance_claim = some("nothing");
    c.purpose_claim = some("blank");
    c.schema_id_claim = some("n");
    let ctx = request_context(headers(), &c);
    assert_eq!(ctx.asset_id, "asset-h");
    assert_eq!(ctx.clearance.as_deref(), Some("internal"));
    assert_eq!(ctx.purpose.as_deref(), Some("analytics"));
    c.clearance_claim = some("clr");
    let mut h = headers();
    h.authorization = some("Basic abc");
    assert_eq!(request_context(h, &c).clearance.as_deref(), Some("internal"));
}

#[test]
fn blank_headers_are_absent() {
    let blank = CallerHeaders { schema: some(" "), clearance: some(""), purpose: None, authorization: None };
    let ctx = request_context(blank, &config());
    assert_eq!(ctx.asset_id, "asset-0");
    assert_eq!(ctx.clearance, None);
    assert_eq!(ctx.purpose, None);
    assert_eq!(if_present(some(" x ")), some(" x "));
    assert_eq!(if_present(some("\t")), None);
}

#[test]
fn a_context_is_made_of_claims_and_headers() {
    let mut c = config();
    c.clearance_claim = some("clr");
    let token = parse(r#"{"clr":"restricted"}"#);
    let ctx = context_from(&token, headers(), &c);
    assert_eq!(ctx.clearance.as_deref(), Some("restricted"));
    assert_eq!(ctx.purpose.as_deref(), Some("analytics"));
    assert_eq!(claim(&token, &some("clr")), some("restricted"));
    assert_eq!(claim(&token, &None), None);
    assert_eq!(claim(&None, &some("clr")), None);
}

#[test]
fn base64_is_url_safe_and_unpadded() {
    assert_eq!(decode_base64(""), Some(vec![]));
    assert_eq!(decode_base64("TWFu"), Some(b"Man".to_vec()));
    assert_eq!(decode_base64("TWE"), Some(b"Ma".to_vec()));
    assert_eq!(decode_base64("TQ"), Some(b"M".to_vec()));
    assert_eq!(decode_base64("-_-_"), Some(vec![0xfb, 0xff, 0xbf]));
    assert_eq!(decode_base64("TQ=="), None);
    assert_eq!(decode_base64("T"), None);
    assert_eq!(decode_base64("TR"), None);
    assert_eq!(decode_base64("TWF"), None);
    assert_eq!(decode_base64("+/+/"), None);
}

#[test]
fn tokens_have_three_parts_under_the_bearer_scheme() {
    assert_eq!(bearer(" bEaReR  a.b.c "), some("a.b.c"));
    assert_eq!(bearer("Bearer"), None);
    assert_eq!(bearer("Token a.b.c"), None);
    assert_eq!(decode_payload("x.TQ.y"), Some(b"M".to_vec()));
    assert_eq!(decode_payload("x.TQ"), None);
    assert_eq!(decode_payload("x.TQ.y.z"), None);
    assert!(decode_claims(&None).is_none());
    assert!(decode_claims(&some("Bearer a.TQ.c")).is_none());
    assert!(decode_claims(&some("Bearer a.e30.c")).is_some());
}

#[test]
fn content_methods_are_filtered() {
    for m in ["tools/call", "resources/read", "prompts/get", "message/send", "message/stream", "SendMessage", "SendStreamingMessage"] {
        assert!(is_content_method(m));
        assert!(filters_body(&format!("{{\"method\":\"{m}\"}}").into_bytes()));
    }
    for m in ["tools/list", "initialize", "Tools/Call", ""] {
        assert!(!is_content_method(m));
        assert!(!filters_body(&format!("{{\"method\":\"{m}\"}}").into_bytes()));
    }
}

#[test]
fn what_is_no_call_is_filtered() {
    assert!(filters_response(&None));
    assert!(filters_response(&parse("{}")));
    assert!(filters_response(&parse(r#"{"method":1}"#)));
    assert!(filters_response(&parse("[]")));
    assert!(filters_body(&b"not json".to_vec()));
    assert!(filters_body(&vec![0xff]));
}

#[test]
fn only_posted_json_is_read() {
    assert!(reads_body("application/json; charset=utf-8", "POST"));
    assert!(!reads_body("application/json", "GET"));
    assert!(!reads_body("text/plain", "POST"));
    assert!(!reads_body(" application/json", "POST"));
    assert!(!reads_body("", "post"));
}

#[test]
fn calls_of_other_methods_hand_nothing_on() {
    let ctx = || Ctx { asset_id: "a".into(), clearance: None, purpose: None };
    assert!(request_outcome(ctx(), &None).is_some());
    assert!(request_outcome(ctx(), &Some(br#"{"method":"tools/call"}"#.to_vec())).is_some());
    assert!(request_outcome(ctx(), &Some(br#"{"method":"tools/list"}"#.to_vec())).is_none());
    assert_eq!(request_outcome(ctx(), &Some(b"{".to_vec())).unwrap().asset_id, "a");
}

#[test]
fn defaults_of_the_configuration() {
    let c = config();
    assert_eq!(c.refresh_ttl(), 86_400);
    assert_eq!(c.per_call_ms(), 5_000);
    assert!(c.fails_open());
    assert!(!c.is_distributed());
    assert_eq!(c.records_path_or_root(), "");
    assert_eq!(c.marker(), "confidential");
    assert_eq!(c.schema_header(), "x-dp-schema-id");
    assert_eq!(c.clearance_header_name(), "x-dp-clearance");
    assert_eq!(c.purpose_header_name(), "x-dp-purpose");
    let p = entitlement_policy(&c);
    assert_eq!(p.cleared_levels.to_vec(), vec!["restricted"]);
    assert!(p.allowed_purposes.is_empty());
    assert_eq!(p.mask_mode, MaskMode::Mask);
    assert_eq!(p.mask_token, "***");
}

#[test]
fn configured_values_replace_the_defaults() {
    let mut c = config();
    c.refresh_interval_seconds = Some(-5);
    c.timeout = Some(9);
    c.fail_open_on_cdgc_error = Some(false);
    c.distributed = Some(true);
    c.records_path = some("products");
    c.sensitive_marker = some("Secret");
    c.schema_id_header = some("X-Schema");
    c.clearance_header = some("X-Clearance");
    c.purpose_header = some("X-Purpose");
    c.cleared_levels = Some(vec![" Restricted".into(), "confidential".into(), "".into()]);
    c.allowed_purposes = some("Fraud-Detection, audit");
    c.mask_mode = some("Drop");
    c.mask_token = some("-");
    assert_eq!(c.refresh_ttl(), 0);
    assert_eq!(c.per_call_ms(), 9);
    assert!(!c.fails_open());
    assert!(c.is_distributed());
    assert_eq!(c.records_path_or_root(), "products");
    assert_eq!(c.marker(), "Secret");
    assert_eq!(c.schema_header(), "x-schema");
    assert_eq!(c.clearance_header_name(), "x-clearance");
    assert_eq!(c.purpose_header_name(), "x-purpose");
    let p = entitlement_policy(&c);
    assert_eq!(p.cleared_levels.to_vec(), vec!["confidential", "restricted"]);
    assert_eq!(p.allowed_purposes.to_vec(), vec!["audit", "fraud-detection"]);
    assert_eq!(p.mask_mode, MaskMode::Drop);
    assert_eq!(p.mask_token, "-");
}

#[test]
fn stored_maps_are_kept_for_twice_the_interval_within_bounds() {
    let mut c = config();
    assert_eq!(field_map_store_ttl_ms(&c), 2_592_000_000);
    c.refresh_interval_seconds = Some(1_500_000);
    assert_eq!(field_map_store_ttl_ms(&c), 3_000_000_000);
    c.refresh_interval_seconds = Some(i64::MAX);
    assert_eq!(field_map_store_ttl_ms(&c), u32::MAX);
    c.refresh_interval_seconds = Some(-1);
    assert_eq!(field_map_store_ttl_ms(&c), 2_592_000_000);
}
