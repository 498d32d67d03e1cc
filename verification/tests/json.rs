use codex_control::json::{JsonNumber, JsonValue};
use codex_control::text::{text_contains, text_ends_with, text_eq, text_starts_with};

fn s(t: &str) -> JsonValue {
    JsonValue::String(t.to_owned())
}

#[test]
fn get_returns_first_member_of_that_name() {
    let v = JsonValue::Object(vec![
        ("a".to_owned(), s("first")),
        ("b".to_owned(), JsonValue::Bool(false)),
        ("a".to_owned(), s("second")),
    ]);
    assert_eq!(v.get("a"), Some(&s("first")));
    assert_eq!(v.get("b").and_then(|b| b.as_bool()), Some(false));
    assert_eq!(v.get("c"), None);
    assert_eq!(s("x").get("a"), None);
}

#[test]
fn scalar_readers() {
    assert_eq!(JsonValue::Number(JsonNumber::PosInt(4)).as_u64(), Some(4));
    assert_eq!(JsonValue::Number(JsonNumber::NegInt(-4)).as_u64(), None);
    assert_eq!(JsonValue::Number(JsonNumber::Float("4.0".to_owned())).as_u64(), None);
    assert_eq!(s("t").as_str(), Some("t"));
    assert_eq!(JsonValue::Null.as_str(), None);
    assert_eq!(JsonValue::Array(vec![JsonValue::Null]).as_array().map(|a| a.len()), Some(1));
}

#[test]
fn copies_are_equal() {
    let v = JsonValue::Object(vec![(
        "k".to_owned(),
        JsonValue::Array(vec![s("x"), JsonValue::Number(JsonNumber::Float("1.5".to_owned()))]),
    )]);
    assert_eq!(v.clone(), v);
    assert_eq!(v.deep_copy(), v);
}

#[test]
fn text_predicates() {
    assert!(text_contains("item/output/delta", "output"));
    assert!(!text_contains("abc", "abcd"));
    assert!(text_contains("abc", ""));
    assert!(text_starts_with("item/started", "item/"));
    assert!(!text_starts_with("ite", "item/"));
    assert!(text_ends_with("turn/diff/updated", "/updated"));
    assert!(!text_ends_with("updated", "/updated"));
    assert!(text_eq("ü-ß", "ü-ß"));
    assert!(!text_eq("a", "b"));
}
