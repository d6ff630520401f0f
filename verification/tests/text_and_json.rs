use aqbot_core::json::{json_set_member, parse_json, to_json_text, to_json_text_pretty, to_string_array, JsonValue};
use aqbot_core::text::{blank, chars_of, decimal_string, join_strings, replace_chars, trim_str, CharSet};

fn text(v: Vec<char>) -> String {
    v.into_iter().collect()
}

#[test]
fn trimming_matches_std() {
    for s in ["", "  a b  ", "\t\nx\r\n", "///p//", "   "] {
        assert_eq!(text(trim_str(s, CharSet::Whitespace)), s.trim());
        assert_eq!(text(trim_str(s, CharSet::One('/'))), s.trim_matches('/'));
        assert_eq!(blank(s), s.trim().is_empty());
    }
    assert_eq!(text(trim_str("\u{3000}x\u{a0}", CharSet::Whitespace)), "x");
}

#[test]
fn small_string_helpers() {
    assert_eq!(decimal_string(0), "0");
    assert_eq!(decimal_string(1234567), "1234567");
    assert_eq!(join_strings(&vec!["a".to_string(), "b".to_string()], ", "), "a, b");
    assert_eq!(join_strings(&Vec::new(), ", "), "");
    assert_eq!(text(replace_chars(&chars_of("a/b/c"), '/', &chars_of("\\"))), "a\\b\\c");
}

#[test]
fn json_objects_read_back_what_was_set() {
    let mut v = parse_json(r#"{"b":1,"a":{"x":true}}"#).unwrap();
    json_set_member(&mut v, "c".to_string(), JsonValue::Str("new".to_string()));
    json_set_member(&mut v, "a".to_string(), JsonValue::Null);
    assert_eq!(v.get_str("c"), Some(&"new".to_string()));
    assert!(v.get("a").unwrap().is_null());
    assert_eq!(to_json_text(&v).unwrap(), r#"{"a":null,"b":1,"c":"new"}"#);
    let mut n = JsonValue::Null;
    json_set_member(&mut n, "k".to_string(), to_string_array(&vec!["p".to_string()]));
    assert_eq!(to_json_text_pretty(&n).unwrap(), "{\n  \"k\": [\n    \"p\"\n  ]\n}");
}

#[test]
fn json_equality_and_copies() {
    let a = parse_json(r#"{"n":1.5,"s":[1,2,{"z":null}]}"#).unwrap();
    let b = parse_json(r#"{ "s": [1, 2, {"z": null}], "n": 1.5 }"#).unwrap();
    let c = parse_json(r#"{"n":1.5,"s":[1,2]}"#).unwrap();
    assert!(a.equals(&b));
    assert!(!a.equals(&c));
    assert!(a.deep_clone().equals(&a));
    assert!(parse_json("{").is_err());
}
