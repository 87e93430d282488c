use field_level_entitlement_filter::text::{
    chars_of, contains, copy_of, copy_opt, decimal_of, is_blank, is_whitespace, join, parse_index,
    same, split, starts_with, string_of, strip_prefix, to_ascii_lowercase, trim, trim_start,
};

#[test]
fn white_space_is_that_of_unicode() {
    for n in 0..=0x10ffffu32 {
        if let Some(c) = char::from_u32(n) {
            assert_eq!(is_whitespace(c), c.is_whitespace(), "{n:x}");
        }
    }
}

#[test]
fn trimming_is_that_of_str() {
    for s in ["", " ", " a ", "\u{3000}a b\u{85}", "a", "\r\n\tx\u{2003}", "\u{200b}"] {
        assert_eq!(trim(s), s.trim());
        assert_eq!(trim_start(s), s.trim_start());
        assert_eq!(is_blank(s), s.trim().is_empty());
    }
}

#[test]
fn splitting_is_that_of_str() {
    for s in ["", ",", "a,b", "a,,b,", ",é", "abc"] {
        let expected: Vec<String> = s.split(',').map(str::to_string).collect();
        assert_eq!(split(s, ','), expected);
    }
}

#[test]
fn parts_are_found_as_in_str() {
    for s in ["", "a", "data: x", "json", "application/json", "ééa"] {
        for part in ["", "a", "json", "data:", "éa", "jsonx"] {
            assert_eq!(contains(s, part), s.contains(part), "{s} {part}");
            assert_eq!(starts_with(s, part), s.starts_with(part), "{s} {part}");
            assert_eq!(strip_prefix(s, part).as_deref(), s.strip_prefix(part), "{s} {part}");
            assert_eq!(same(s, part), s == part);
            assert_eq!(join(s, part), format!("{s}{part}"));
        }
    }
}

#[test]
fn characters_make_strings() {
    let chars = chars_of("aéz\u{10000}");
    assert_eq!(chars, vec!['a', 'é', 'z', '\u{10000}']);
    assert_eq!(string_of(&chars, 1, 3), "éz");
    assert_eq!(string_of(&chars, 2, 2), "");
}

#[test]
fn only_ascii_letters_are_lowered() {
    assert_eq!(to_ascii_lowercase("X-DP-Schema-Id[`É"), "x-dp-schema-id[`É");
}

#[test]
fn copies_are_equal() {
    let list = vec!["a".to_string(), "".to_string()];
    assert_eq!(copy_of(&list), list);
    assert_eq!(copy_opt(&Some("x".to_string())), Some("x".to_string()));
    assert_eq!(copy_opt(&None), None);
}

#[test]
fn decimals_are_those_of_the_standard_library() {
    for n in [0u128, 9, 10, 1_000_000_000, u64::MAX as u128, u128::MAX] {
        assert_eq!(decimal_of(n), n.to_string());
    }
}

#[test]
fn indices_are_read_as_by_the_standard_library() {
    let max = usize::MAX.to_string();
    let over = format!("{}0", usize::MAX);
    let next = format!("{}", usize::MAX as u128 + 1);
    for s in ["", "0", "7", "007", "+3", "+", "-1", "1a", " 1", "１", max.as_str(), over.as_str(), next.as_str()] {
        assert_eq!(parse_index(s), s.parse::<usize>().ok(), "{s}");
    }
}

#[test]
fn decimals_read_back() {
    for n in [0usize, 5, 10, 99, 12345] {
        assert_eq!(parse_index(&decimal_of(n as u128)), Some(n));
    }
}
