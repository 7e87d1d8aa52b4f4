use kondi::json::{compact_string, Json};
use kondi::text::{decimal_string, replace_string, tokenize, trim_string};

#[test]
fn tokenize_lowercases_and_splits() {
    assert_eq!(tokenize("Create_Issue: a NEW-issue!"), vec!["create", "issue", "a", "new", "issue"]);
    assert_eq!(tokenize("  ---  "), Vec::<String>::new());
    assert_eq!(tokenize("Ünïcode Straße 42"), vec!["ünïcode", "straße", "42"]);
}

#[test]
fn text_helpers() {
    assert_eq!(trim_string("\t a b \n"), "a b");
    assert_eq!(trim_string("   "), "");
    assert_eq!(replace_string("a*/b*/", "*/", "* /"), "a* /b* /");
    assert_eq!(replace_string("aaa", "aa", "b"), "ba");
    assert_eq!(decimal_string(0), "0");
    assert_eq!(decimal_string(40000), "40000");
}

#[test]
fn json_strings_are_escaped() {
    let j = Json::Array(vec![
        Json::Str("a\"b\\c\nd\te\u{1}f\u{1f}é/".to_string()),
        Json::Object(vec![("k\r".to_string(), Json::Str("\u{8}\u{c}".to_string()))]),
    ]);
    assert_eq!(compact_string(&j), "[\"a\\\"b\\\\c\\nd\\te\\u0001f\\u001fé/\",{\"k\\r\":\"\\b\\f\"}]");
}
