use delta_html::attributes::{AttrValue, AttributesMap};
use delta_html::op::{Content, Op, OpType};
use serde_json::Value;

fn attrs1(key: &str, value: AttrValue) -> AttributesMap {
    let mut m = AttributesMap::new();
    m.insert(String::from(key), value);
    m
}

fn text(s: &str) -> Content {
    Content::Text(String::from(s))
}

fn link_object() -> Value {
    let mut content: serde_json::Map<String, Value> = serde_json::Map::new();
    content.insert(
        String::from("link"),
        Value::from("http://www.wikipedia.com"),
    );
    Value::Object(content)
}

#[test]
fn insert_string_no_attribute() {
    let result = Op::try_insert(text("something"), None);
    assert!(result.is_ok());
    let act = result.unwrap();
    assert_eq!(act.len(), "something".len());
    assert!(act.is_text_insert());
    assert!(act.is_insert());
    assert!(!act.is_delete());
    assert!(!act.is_retain());
    assert!(matches!(act.kind(), OpType::Insert(_)));
    assert!(act.attributes().is_none())
}

#[test]
fn insert_string_with_attributes() {
    let result = Op::try_insert(text("something"), Some(attrs1("b", AttrValue::Bool(true))));
    assert!(result.is_ok());
    let act = result.unwrap();
    assert!(act.is_text_insert());
    assert!(act.is_insert());
    assert!(!act.is_delete());
    assert!(!act.is_retain());
    assert!(matches!(act.kind(), OpType::Insert(_)));
    assert!(
        act.attributes().is_some(),
        "No attributes; attributes are expected"
    );
    assert_eq!(
        act.attributes().unwrap().clone(),
        attrs1("b", AttrValue::Bool(true))
    )
}

#[test]
fn insert_object_no_attribute() {
    let value = link_object();
    let result = Op::try_insert(Content::Embed(value.clone()), None);
    assert!(result.is_ok());
    let act = result.unwrap();
    assert!(!act.is_text_insert());
    assert!(act.is_insert());
    assert!(!act.is_delete());
    assert!(!act.is_retain());
    assert!(matches!(act.kind(), OpType::Insert(_)));
    assert_eq!(act.len(), 1);
    assert_eq!(act.value(), value);
    assert!(act.attributes().is_none(), "No attributes are expected");
}

#[test]
fn insert_object_with_attributes() {
    let value = link_object();
    let result = Op::try_insert(
        Content::Embed(value),
        Some(attrs1("b", AttrValue::Bool(true))),
    );
    assert!(result.is_err(), "Op::insert returned ok");
}

#[test]
fn insert_object_error_message() {
    let result = Op::try_insert(
        Content::Embed(link_object()),
        Some(attrs1("b", AttrValue::Bool(true))),
    );
    let err = result.unwrap_err();
    assert_eq!(
        err.message(),
        "Insert error: cannot combine attributes with an inserted value other than a string."
    );
}

#[test]
fn insert_or_panic_no_panic() {
    let value = link_object();
    let act = Op::insert(Content::Embed(value.clone()), None);
    assert!(act.attributes().is_none());
    assert_eq!(act.value(), value)
}

#[test]
fn value_as_string() {
    let op = Op::insert(text("something"), None);
    assert_eq!(op.value_as_string(), Value::from("something"))
}

#[test]
fn value() {
    let op = Op::insert(text("something"), None);
    assert_eq!(op.value(), Value::from("something"))
}

#[test]
fn delete() {
    let act = Op::delete(3);
    assert!(!act.is_text_insert());
    assert!(!act.is_insert());
    assert!(act.is_delete());
    assert!(!act.is_retain());
    assert!(matches!(act.kind(), OpType::Delete(_)));
    assert_eq!(act.len(), 3);
    assert!(act.attributes().is_none());
}

#[test]
fn retain_no_attribute() {
    let act = Op::retain(3, None);
    assert!(!act.is_text_insert());
    assert!(!act.is_insert());
    assert!(!act.is_delete());
    assert!(act.is_retain());
    assert!(matches!(act.kind(), OpType::Retain(_)));
    assert_eq!(act.len(), 3);
    assert!(act.attributes().is_none())
}

#[test]
fn retain_with_attribute() {
    let act = Op::retain(3, Some(attrs1("b", AttrValue::Bool(true))));
    assert!(!act.is_text_insert());
    assert!(!act.is_insert());
    assert!(!act.is_delete());
    assert!(act.is_retain());
    assert!(matches!(act.kind(), OpType::Retain(_)));
    assert_eq!(act.len(), 3);
    assert!(
        act.attributes().is_some(),
        "No attributes; attributes are expected"
    );
    assert_eq!(
        act.attributes().unwrap().clone(),
        attrs1("b", AttrValue::Bool(true))
    )
}

#[test]
fn retain_until_end() {
    let op = Op::retain_until_end();
    assert_eq!(op.len(), usize::MAX)
}

#[test]
fn text_insert_length_counts_characters() {
    let op = Op::insert(text("abc"), None);
    assert_eq!(op.len(), 3);
    assert!(!op.is_empty());
    let empty = Op::insert(text(""), None);
    assert_eq!(empty.len(), 0);
    assert!(empty.is_empty());
}

#[test]
fn attributes_none_when_map_empty() {
    let op = Op::insert(text("x"), Some(AttributesMap::new()));
    assert!(op.attributes().is_none());
    let op = Op::retain(2, Some(AttributesMap::new()));
    assert!(op.attributes().is_none());
}

#[test]
fn attributes_map_get_and_replace() {
    let mut m = AttributesMap::new();
    assert!(m.is_empty());
    assert_eq!(m.len(), 0);
    m.insert(String::from("bold"), AttrValue::Bool(true));
    m.insert(String::from("header"), AttrValue::UInt(2));
    assert!(!m.is_empty());
    assert_eq!(m.len(), 2);
    assert_eq!(m.get("bold"), Some(&AttrValue::Bool(true)));
    assert_eq!(m.get("header"), Some(&AttrValue::UInt(2)));
    assert_eq!(m.get("italic"), None);
    m.insert(String::from("bold"), AttrValue::Bool(false));
    assert_eq!(m.len(), 2);
    assert_eq!(m.get("bold"), Some(&AttrValue::Bool(false)));
}

#[test]
fn error_message_round_trip() {
    let e = delta_html::op::Error::new(String::from("boom"));
    assert_eq!(e.message(), "boom");
}
