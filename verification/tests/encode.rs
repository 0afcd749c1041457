use cc_switch::encode::{compacted, to_bytes, to_text};
use cc_switch::json::Json;
use cc_switch::text::{join, normalized, spells};

fn written(json: Json) -> Option<String> {
    let text = to_text(&json);
    let bytes = to_bytes(&json);
    assert_eq!(text.clone().map(String::into_bytes), bytes);
    text
}

fn decimal(text: &str) -> Json {
    Json::Decimal(text.to_string())
}

#[test]
fn scalars_are_written() {
    assert_eq!(written(Json::Null), Some("null".to_string()));
    assert_eq!(written(Json::Bool(true)), Some("true".to_string()));
    assert_eq!(written(Json::Bool(false)), Some("false".to_string()));
    assert_eq!(
        written(Json::Unsigned(u64::MAX)),
        Some("18446744073709551615".to_string())
    );
    assert_eq!(
        written(Json::Signed(i64::MIN)),
        Some("-9223372036854775808".to_string())
    );
    assert_eq!(written(Json::Signed(5)), Some("5".to_string()));
    assert_eq!(
        written(Json::Str("a\"b\n中".to_string())),
        Some("\"a\\\"b\\n中\"".to_string())
    );
}

#[test]
fn decimals_are_written_as_numbers() {
    assert_eq!(written(decimal("0.5")), Some("0.5".to_string()));
    assert_eq!(written(decimal("1.50")), Some("1.5".to_string()));
    assert_eq!(written(decimal("-2e3")), Some("-2000.0".to_string()));
    assert_eq!(
        written(decimal("0.30000000000000004")),
        Some("0.30000000000000004".to_string())
    );
    assert_eq!(written(decimal("1E2")), Some("100.0".to_string()));
    assert_eq!(written(decimal("1")), None);
    assert_eq!(written(decimal("-0")), None);
    assert_eq!(written(decimal("e")), None);
    assert_eq!(written(decimal("abc")), None);
    assert_eq!(written(decimal("")), None);
    assert_eq!(written(decimal("1e999")), None);
}

#[test]
fn arrays_and_objects_are_written() {
    let list = Json::Array(vec![
        Json::Unsigned(1),
        Json::Array(vec![]),
        Json::Str("x".to_string()),
    ]);
    assert_eq!(written(list), Some("[1,[],\"x\"]".to_string()));
    let object = Json::Object(vec![
        ("a".to_string(), Json::Unsigned(1)),
        ("a".to_string(), Json::Unsigned(2)),
    ]);
    assert_eq!(object.get("a"), Some(&Json::Unsigned(2)));
    assert_eq!(written(object), Some("{\"a\":2}".to_string()));
}

#[test]
fn a_number_that_cannot_be_read_spoils_the_document() {
    assert_eq!(written(Json::Array(vec![Json::Null, decimal("x")])), None);
    assert_eq!(
        written(Json::Object(vec![("a".to_string(), decimal("x"))])),
        None
    );
}

fn nested(depth: usize) -> Json {
    let mut json = Json::Null;
    for _ in 0..depth {
        json = Json::Array(vec![json]);
    }
    json
}

#[test]
fn written_documents_read_back() {
    let object = Json::Object(vec![
        ("b".to_string(), Json::Signed(i64::MIN)),
        ("a".to_string(), Json::Array(vec![Json::Null, Json::Bool(true)])),
        ("\u{1}\"中".to_string(), Json::Unsigned(u64::MAX)),
        ("b".to_string(), Json::Str("\\\n\u{7f}".to_string())),
    ]);
    assert_eq!(compacted(&to_bytes(&object).unwrap()), to_text(&object));
    let spaced = b" { \"a\" : [ 1 , 2 ] } ".to_vec();
    assert_eq!(compacted(&spaced), Some("{\"a\":[1,2]}".to_string()));
    assert_eq!(compacted(&b"{\"a\":1,\"a\":2}".to_vec()), Some("{\"a\":2}".to_string()));
}

#[test]
fn the_key_of_raw_values_is_not_read_back() {
    let key = "$serde_json::private::RawValue";
    let object = |text: &str| {
        Json::Object(vec![(key.to_string(), Json::Str(text.to_string()))])
    };
    assert_eq!(
        to_text(&object("x")),
        Some("{\"$serde_json::private::RawValue\":\"x\"}".to_string())
    );
    assert_eq!(compacted(&to_bytes(&object("x")).unwrap()), None);
    assert_eq!(compacted(&to_bytes(&object("1")).unwrap()), Some("1".to_string()));
}

#[test]
fn bytes_that_hold_no_document_are_not_read() {
    for bytes in ["", "{", "nul", "1 2", "[1,]", "\"\u{1}\""] {
        assert_eq!(compacted(&bytes.as_bytes().to_vec()), None);
    }
    assert_eq!(compacted(&vec![b'"', 0xff, b'"']), None);
}

#[test]
fn reading_back_goes_127_deep() {
    let deep = nested(127);
    assert_eq!(compacted(&to_bytes(&deep).unwrap()), to_text(&deep));
    let deeper = nested(128);
    assert!(to_text(&deeper).is_some());
    assert_eq!(compacted(&to_bytes(&deeper).unwrap()), None);
}

#[test]
fn values_are_read_by_key_and_kind() {
    let object = Json::Object(vec![
        ("text".to_string(), Json::Str("t".to_string())),
        ("list".to_string(), Json::Array(vec![Json::Null])),
        ("n".to_string(), Json::Unsigned(3)),
    ]);
    assert_eq!(object.str_at("text"), Some("t"));
    assert_eq!(object.str_at("list"), None);
    assert_eq!(object.str_at("absent"), None);
    assert_eq!(object.array_at("list").map(|items| items.len()), Some(1));
    assert_eq!(object.array_at("n"), None);
    assert_eq!(object.get("n").and_then(|n| n.as_u64()), Some(3));
    assert_eq!(object.as_u64(), None);
    assert_eq!(object.as_str(), None);
    assert_eq!(object.as_array(), None);
    assert_eq!(Json::Signed(-1).as_u64(), None);
    assert_eq!(Json::Signed(7).as_u64(), Some(7));
    assert_eq!(Json::Str("x".to_string()).get("x"), None);
}

#[test]
fn texts_are_joined_and_compared() {
    let parts = vec!["a".to_string(), "".to_string(), "b".to_string()];
    assert_eq!(join(&parts, "-"), "a--b");
    assert_eq!(join(&Vec::new(), "-"), "");
    assert_eq!(join(&vec!["x".to_string()], "-"), "x");
    assert!(spells(&normalized("  AbC\u{2003}"), "abc"));
    assert!(!spells(&normalized("ab"), "abc"));
    assert!(normalized(" \t ").is_empty());
}
