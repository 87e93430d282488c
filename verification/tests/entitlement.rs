use field_level_entitlement_filter::entitlement::{
    apply, is_admitted, is_entitled, norm, normalize, parse_csv_set, plan, CallerContext,
    EntitlementPolicy, GovernedField, MaskMode, Projection,
};
use field_level_entitlement_filter::json::{Json, Object};
use field_level_entitlement_filter::names::{is_before, NameSet};
use field_level_entitlement_filter::response::mode_str;
use field_level_entitlement_filter::wire::{parse, to_text};

fn fields() -> Vec<GovernedField> {
    vec![
        GovernedField { name: "sku".into(), sensitive: false, term: None },
        GovernedField { name: "list_price".into(), sensitive: false, term: None },
        GovernedField { name: "unit_cost".into(), sensitive: true, term: Some("Unit Cost".into()) },
    ]
}

fn policy(mode: MaskMode) -> EntitlementPolicy {
    EntitlementPolicy {
        cleared_levels: parse_csv_set("restricted"),
        allowed_purposes: parse_csv_set("fraud-detection"),
        mask_mode: mode,
        mask_token: "***".into(),
    }
}

fn rec(text: &str) -> Object {
    match parse(text) {
        Some(Json::Object(o)) => o,
        _ => panic!("not an object: {text}"),
    }
}

fn written(record: Object) -> String {
    to_text(&Json::Object(record))
}

fn set_of(names: &[&str]) -> NameSet {
    let mut set = NameSet::new();
    for name in names {
        set.insert(name.to_string());
    }
    set
}

#[test]
fn entitled_caller_sees_everything() {
    let caller = CallerContext { clearance: Some("restricted".into()), purpose: Some("fraud-detection".into()) };
    assert!(is_entitled(&caller, &policy(MaskMode::Mask)));
    let proj = plan(&fields(), &caller, &policy(MaskMode::Mask));
    assert!(proj.entitled);
    assert!(proj.withhold.is_empty());
}

#[test]
fn uncleared_caller_withholds_sensitive() {
    let caller = CallerContext { clearance: Some("internal".into()), purpose: Some("fraud-detection".into()) };
    assert!(!is_entitled(&caller, &policy(MaskMode::Mask)));
    let proj = plan(&fields(), &caller, &policy(MaskMode::Mask));
    assert_eq!(proj.withhold, set_of(&["unit_cost"]));
}

#[test]
fn cleared_but_wrong_purpose_withholds() {
    let caller = CallerContext { clearance: Some("restricted".into()), purpose: Some("analytics".into()) };
    assert!(!is_entitled(&caller, &policy(MaskMode::Mask)));
}

#[test]
fn missing_claims_fail_closed() {
    let caller = CallerContext { clearance: None, purpose: None };
    assert!(!is_entitled(&caller, &policy(MaskMode::Mask)));
    let proj = plan(&fields(), &caller, &policy(MaskMode::Mask));
    assert_eq!(proj.withhold, set_of(&["unit_cost"]));
}

#[test]
fn purpose_not_enforced_when_empty() {
    let mut p = policy(MaskMode::Mask);
    p.allowed_purposes = parse_csv_set("");
    let caller = CallerContext { clearance: Some("restricted".into()), purpose: None };
    assert!(is_entitled(&caller, &p));
}

#[test]
fn apply_mask_replaces_value() {
    let proj = plan(&fields(), &CallerContext::default(), &policy(MaskMode::Mask));
    let mut r = rec(r#"{"sku":"SKU-1","list_price":"9.99","unit_cost":"4.20"}"#);
    let applied = apply(&mut r, &proj);
    assert_eq!(applied, vec!["unit_cost".to_string()]);
    assert!(matches!(r.get("unit_cost"), Some(Json::String(s)) if s == "***"));
    assert!(matches!(r.get("sku"), Some(Json::String(s)) if s == "SKU-1")); // non-sensitive untouched
}

#[test]
fn apply_nullify_sets_null() {
    let proj = plan(&fields(), &CallerContext::default(), &policy(MaskMode::Nullify));
    let mut r = rec(r#"{"unit_cost":"4.20"}"#);
    apply(&mut r, &proj);
    assert!(matches!(r.get("unit_cost"), Some(Json::Null)));
}

#[test]
fn apply_drop_removes_field() {
    let proj = plan(&fields(), &CallerContext::default(), &policy(MaskMode::Drop));
    let mut r = rec(r#"{"sku":"SKU-1","unit_cost":"4.20"}"#);
    apply(&mut r, &proj);
    assert!(!r.contains_key("unit_cost"));
    assert!(r.contains_key("sku"));
}

#[test]
fn apply_ignores_absent_sensitive_field() {
    let proj = plan(&fields(), &CallerContext::default(), &policy(MaskMode::Mask));
    let mut r = rec(r#"{"sku":"SKU-1"}"#); // unit_cost not present
    let applied = apply(&mut r, &proj);
    assert!(applied.is_empty());
}

#[test]
fn mask_mode_parse() {
    assert_eq!(MaskMode::parse("mask"), MaskMode::Mask);
    assert_eq!(MaskMode::parse("nullify"), MaskMode::Nullify);
    assert_eq!(MaskMode::parse("drop"), MaskMode::Drop);
    assert_eq!(MaskMode::parse("weird"), MaskMode::Mask);
}

#[test]
fn mask_mode_has_synonyms_and_ignores_case() {
    assert_eq!(MaskMode::parse(" NULL\n"), MaskMode::Nullify);
    assert_eq!(MaskMode::parse("Remove"), MaskMode::Drop);
    assert_eq!(MaskMode::parse(""), MaskMode::Mask);
    assert_eq!(MaskMode::named("NULL"), MaskMode::Mask);
    assert_eq!(MaskMode::named("remove"), MaskMode::Drop);
}

#[test]
fn mode_words_read_back() {
    for mode in [MaskMode::Mask, MaskMode::Nullify, MaskMode::Drop] {
        assert_eq!(MaskMode::parse(mode_str(mode)), mode);
    }
    assert_eq!(mode_str(MaskMode::Nullify), "nullify");
}

#[test]
fn claims_are_compared_without_case_and_surrounding_space() {
    assert_eq!(normalize("\t Restricted \u{a0}"), "restricted");
    assert_eq!(normalize("ÄÖ \u{130}"), "ÄÖ \u{130}".to_lowercase());
    let caller = CallerContext { clearance: Some(" RESTRICTED ".into()), purpose: Some("Fraud-Detection".into()) };
    assert!(is_entitled(&caller, &policy(MaskMode::Mask)));
}

#[test]
fn blank_claims_are_no_claims() {
    assert_eq!(norm(&None), None);
    assert_eq!(norm(&Some(" \t".into())), None);
    assert_eq!(norm(&Some(" A ".into())), Some("a".to_string()));
    let caller = CallerContext { clearance: Some("  ".into()), purpose: Some("fraud-detection".into()) };
    assert!(!is_entitled(&caller, &policy(MaskMode::Mask)));
    let mut p = policy(MaskMode::Mask);
    p.cleared_levels = parse_csv_set(" , ,");
    assert!(p.cleared_levels.is_empty());
    assert!(!is_entitled(&caller, &p));
}

#[test]
fn csv_sets_are_trimmed_lowercased_and_free_of_duplicates() {
    let set = parse_csv_set(" Beta,alpha ,,BETA, ");
    assert_eq!(set.to_vec(), vec!["alpha".to_string(), "beta".to_string()]);
    assert_eq!(set.len(), 2);
    assert!(set.contains("beta"));
    assert!(!set.contains("Beta"));
    assert!(parse_csv_set("").is_empty());
}

#[test]
fn joined_lists_are_united_and_read_back() {
    for (a, b) in [("", ""), ("x", ""), (" A,b", "B,,c "), ("é", "E\u{301},a")] {
        let joined = parse_csv_set(&format!("{a},{b}"));
        let mut united = parse_csv_set(a);
        for name in parse_csv_set(b).to_vec() {
            united.insert(name);
        }
        assert_eq!(joined, united);
        let mut names = joined.to_vec();
        names.reverse();
        assert_eq!(parse_csv_set(&names.join(",")), joined);
    }
}

#[test]
fn normalized_claims_decide() {
    let p = policy(MaskMode::Mask);
    let some = |s: &str| Some(s.to_string());
    assert!(is_admitted(&some("restricted"), &some("fraud-detection"), &p));
    assert!(!is_admitted(&some("Restricted"), &some("fraud-detection"), &p));
    assert!(!is_admitted(&None, &some("fraud-detection"), &p));
    assert!(!is_admitted(&some("restricted"), &None, &p));
}

fn projection(names: &[&str], mode: MaskMode) -> Projection {
    Projection { withhold: set_of(names), mode, token: "#".into(), entitled: false }
}

#[test]
fn applied_names_are_ascending_and_present() {
    let mut r = rec(r#"{"b":1,"a":2,"c":3}"#);
    let applied = apply(&mut r, &projection(&["c", "z", "a"], MaskMode::Mask));
    assert_eq!(applied, vec!["a".to_string(), "c".to_string()]);
    assert_eq!(written(r), r##"{"a":"#","b":1,"c":"#"}"##);
}

#[test]
fn projection_is_idempotent_in_every_mode() {
    for mode in [MaskMode::Mask, MaskMode::Nullify, MaskMode::Drop] {
        let p = projection(&["a"], mode);
        let mut once = rec(r#"{"a":{"x":[1]},"b":2}"#);
        apply(&mut once, &p);
        let mut twice = rec(r#"{"a":{"x":[1]},"b":2}"#);
        apply(&mut twice, &p);
        apply(&mut twice, &p);
        assert_eq!(written(once), written(twice));
    }
}

#[test]
fn withheld_values_do_not_show() {
    for mode in [MaskMode::Mask, MaskMode::Nullify, MaskMode::Drop] {
        let p = projection(&["a"], mode);
        let mut one = rec(r#"{"a":"secret","b":2}"#);
        let mut other = rec(r#"{"a":[null],"b":2}"#);
        apply(&mut one, &p);
        apply(&mut other, &p);
        assert_eq!(written(one), written(other));
    }
}

#[test]
fn an_empty_projection_changes_nothing() {
    let mut r = rec(r#"{"a":1}"#);
    assert!(apply(&mut r, &projection(&[], MaskMode::Drop)).is_empty());
    assert_eq!(written(r), r#"{"a":1}"#);
}

#[test]
fn names_are_ordered_by_their_bytes() {
    let words = ["", "A", "Z", "a", "ab", "b", "z", "é", "\u{ffff}", "\u{10000}"];
    for a in words {
        for b in words {
            assert_eq!(is_before(a, b), a < b, "{a:?} {b:?}");
        }
    }
    let set = set_of(&["b", "\u{10000}", "a", "b", "\u{ffff}"]);
    assert_eq!(set.to_vec(), vec!["a", "b", "\u{ffff}", "\u{10000}"]);
    assert_eq!(set.get(0), "a");
    assert_eq!(set.clone(), set);
}

#[test]
fn a_name_is_withheld_if_any_field_of_it_is_sensitive() {
    let listed = vec![
        GovernedField { name: "cost".into(), sensitive: false, term: None },
        GovernedField { name: "cost".into(), sensitive: true, term: None },
    ];
    let proj = plan(&listed, &CallerContext::default(), &policy(MaskMode::Drop));
    assert_eq!(proj.withhold, set_of(&["cost"]));
    assert_eq!(proj.mode, MaskMode::Drop);
    assert_eq!(proj.token, "***");
    assert!(!proj.entitled);
}
