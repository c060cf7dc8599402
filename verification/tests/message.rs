use acars_router::message::Message;
use serde_json::{Number, Value};

#[test]
fn parse_reads_the_value_of_the_text() {
    let message = Message::parse("{\"flight\":\"N123\",\"level\":[1,true,null]}").unwrap();
    let mut map = serde_json::Map::new();
    map.insert("flight".to_string(), Value::String("N123".to_string()));
    map.insert(
        "level".to_string(),
        Value::Array(vec![Value::Number(Number::from(1u64)), Value::Bool(true), Value::Null]),
    );
    assert_eq!(message.value(), &Value::Object(map.clone()));
    assert_eq!(message.into_value(), Value::Object(map));
}

#[test]
fn parse_rejects_what_is_not_json() {
    let error = Message::parse("not-json").unwrap_err();
    assert!(!error.description().is_empty());
    assert!(Message::parse("").is_err());
    assert!(Message::parse("{\"a\":").is_err());
}

#[test]
fn serialize_writes_compact_json() {
    let mut map = serde_json::Map::new();
    map.insert("a".to_string(), Value::Number(Number::from(1u64)));
    map.insert("b".to_string(), Value::Array(vec![Value::Null, Value::Bool(false)]));
    let message = Message::new(Value::Object(map));
    assert_eq!(message.serialize().unwrap(), b"{\"a\":1,\"b\":[null,false]}".to_vec());
}

#[test]
fn serialize_then_parse_gives_the_message_back() {
    let message = Message::parse(" { \"x\" : [ 1 , 2 , { \"y\" : \"z\" } ] } ").unwrap();
    let bytes = message.serialize().unwrap();
    assert_eq!(bytes, b"{\"x\":[1,2,{\"y\":\"z\"}]}".to_vec());
    let again = Message::parse(std::str::from_utf8(&bytes).unwrap()).unwrap();
    assert_eq!(again, message);
}

#[test]
fn clone_is_equal_and_independent() {
    let original = Message::parse("{\"a\":[1,2,3]}").unwrap();
    let copy = original.clone();
    assert_eq!(copy, original);
    let mut inside = copy.into_value();
    inside["a"] = Value::Null;
    assert_eq!(original.serialize().unwrap(), b"{\"a\":[1,2,3]}".to_vec());
    assert_ne!(Message::new(inside), original);
}
