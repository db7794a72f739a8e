use sighash::json::{Json, Member};
use sighash::parse::parse_document;

fn member(key: &str, value: Json) -> Member {
    Member { key: key.to_string(), value }
}

#[test]
fn a_document_is_parsed_into_its_tree() {
    let document = parse_document(r#"{"name": "demo", "instructions": [{"name": "initialize"}]}"#)
        .expect("valid JSON");
    assert_eq!(document.get("name").and_then(|v| v.as_str()), Some("demo"));
    let items = document.get("instructions").and_then(|v| v.as_array()).expect("an array");
    assert_eq!(items.len(), 1);
    assert_eq!(items[0].get("name").and_then(|v| v.as_str()), Some("initialize"));
}

#[test]
fn malformed_text_is_a_parse_error() {
    let error = parse_document(r#"{"instructions": ["#).expect_err("not JSON");
    assert!(!error.message.is_empty());
}

#[test]
fn empty_text_is_a_parse_error() {
    assert!(parse_document("").is_err());
}

#[test]
fn text_after_the_document_is_a_parse_error() {
    assert!(parse_document("{} {}").is_err());
}

#[test]
fn every_kind_of_value_is_told_apart() {
    let document = parse_document(r#"[null, true, 12, -3, 1.5, "text", [], {}]"#).expect("valid");
    let items = document.as_array().expect("an array");
    assert!(matches!(items[0], Json::Null));
    assert!(matches!(items[1], Json::Bool(true)));
    assert!(matches!(&items[2], Json::Number(n) if n == "12"));
    assert!(matches!(&items[3], Json::Number(n) if n == "-3"));
    assert!(matches!(&items[4], Json::Number(n) if n == "1.5"));
    assert!(matches!(&items[5], Json::Text(s) if s == "text"));
    assert!(matches!(&items[6], Json::Array(a) if a.is_empty()));
    assert!(matches!(&items[7], Json::Object(m) if m.is_empty()));
}

#[test]
fn members_keep_the_order_of_the_text() {
    let document = parse_document(r#"{"zeta": 1, "alpha": 2, "mid": 3}"#).expect("valid");
    match document {
        Json::Object(members) => {
            let keys: Vec<&str> = members.iter().map(|m| m.key.as_str()).collect();
            assert_eq!(keys, vec!["zeta", "alpha", "mid"]);
        }
        _ => panic!("an object was expected"),
    }
}

#[test]
fn a_key_given_twice_in_the_text_has_its_later_value() {
    let document = parse_document(r#"{"name": "first", "name": "second"}"#).expect("valid");
    assert_eq!(document.get("name").and_then(|v| v.as_str()), Some("second"));
}

#[test]
fn get_finds_a_member_by_its_key() {
    let object = Json::Object(vec![
        member("a", Json::Bool(false)),
        member("b", Json::Text("found".to_string())),
    ]);
    assert_eq!(object.get("b").and_then(|v| v.as_str()), Some("found"));
    assert!(matches!(object.get("a"), Some(Json::Bool(false))));
    assert!(object.get("c").is_none());
}

#[test]
fn get_takes_the_last_of_two_members_with_one_key() {
    let object = Json::Object(vec![
        member("k", Json::Text("early".to_string())),
        member("other", Json::Null),
        member("k", Json::Text("late".to_string())),
    ]);
    assert_eq!(object.get("k").and_then(|v| v.as_str()), Some("late"));
}

#[test]
fn get_on_what_is_no_object_finds_nothing() {
    assert!(Json::Null.get("name").is_none());
    assert!(Json::Text("name".to_string()).get("name").is_none());
    assert!(Json::Array(vec![Json::Null]).get("name").is_none());
    assert!(Json::Object(Vec::new()).get("name").is_none());
}

#[test]
fn as_array_gives_only_arrays() {
    assert_eq!(Json::Array(vec![Json::Null, Json::Null]).as_array().map(|a| a.len()), Some(2));
    assert!(Json::Object(Vec::new()).as_array().is_none());
    assert!(Json::Text("[]".to_string()).as_array().is_none());
}

#[test]
fn as_str_gives_only_strings() {
    assert_eq!(Json::Text("x".to_string()).as_str(), Some("x"));
    assert!(Json::Number("1".to_string()).as_str().is_none());
    assert!(Json::Null.as_str().is_none());
}
