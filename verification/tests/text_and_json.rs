use proxyclawd::json::Json;
use proxyclawd::text::{byte_len, chars_of, contains, count_fitting, eq_ignore_ascii_case, join, strip_prefix};

#[test]
fn text_helpers() {
    assert_eq!(chars_of("h\u{e9}"), vec!['h', '\u{e9}']);
    assert_eq!(byte_len("h\u{e9}"), 3);
    assert_eq!(count_fitting("h\u{e9}llo", 2), 1);
    assert_eq!(count_fitting("h\u{e9}llo", 3), 2);
    assert_eq!(count_fitting("abc", 10), 3);
    assert!(contains("abcabd", "abd"));
    assert!(contains("abc", ""));
    assert!(!contains("ab", "abc"));
    assert!(eq_ignore_ascii_case("AbC", "aBc"));
    assert!(!eq_ignore_ascii_case("abc", "abd"));
    assert_eq!(strip_prefix(&chars_of("data: x"), "data: "), Some("x".to_string()));
    assert_eq!(strip_prefix(&chars_of("dat"), "data: "), None);
    assert_eq!(join(&vec!["a".to_string(), "b".to_string()], ", "), "a, b");
    assert_eq!(join(&vec![], ", "), "");
}

#[test]
fn json_lookups() {
    let j = Json::Object(vec![
        ("a".to_string(), Json::Str("x".to_string())),
        ("b".to_string(), Json::Array(vec![Json::Null, Json::Bool(true)])),
    ]);
    assert!(matches!(j.get("a"), Some(Json::Str(s)) if s == "x"));
    assert!(j.get("c").is_none());
    assert_eq!(j.str_field("a"), Some(&"x".to_string()));
    assert!(j.str_field("b").is_none());
    assert_eq!(j.get("b").unwrap().as_array().unwrap().len(), 2);
    assert!(Json::Null.get("a").is_none());
    assert!(Json::Null.as_str().is_none());
    let c = j.clone();
    assert!(matches!(c.get("b"), Some(Json::Array(v)) if v.len() == 2));
}

#[test]
fn into_member_takes_the_first_match() {
    let j = Json::Object(vec![
        ("a".to_string(), Json::Str("x".to_string())),
        ("b".to_string(), Json::Bool(true)),
    ]);
    assert!(matches!(j.into_member("b"), Some(Json::Bool(true))));
    let j = Json::Object(vec![("a".to_string(), Json::Null)]);
    assert!(j.into_member("c").is_none());
    assert!(Json::Bool(false).into_member("a").is_none());
}
