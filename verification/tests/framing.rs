use surrealdb_node::error::ErrorKind;
use surrealdb_node::frame::{decode_request, decode_value, encode_value};
use surrealdb_node::rpc::{LockKind, Method};
use surrealdb_node::value::Value;

fn obj(fields: Vec<(&str, Value)>) -> Value {
    Value::Object(fields.into_iter().map(|(k, v)| (k.to_string(), v)).collect())
}

fn s(text: &str) -> Value {
    Value::Strand(text.to_string())
}

fn round_trip(v: Value, again: Value) {
    let bytes = encode_value(&v);
    assert_eq!(decode_value(bytes.as_slice()).unwrap(), again);
}

#[test]
fn frame_round_trips_scalars() {
    round_trip(Value::Null, Value::Null);
    round_trip(Value::Bool(true), Value::Bool(true));
    round_trip(Value::Bool(false), Value::Bool(false));
    round_trip(Value::Int(0), Value::Int(0));
    round_trip(Value::Int(-1), Value::Int(-1));
    round_trip(Value::Int(i64::MAX), Value::Int(i64::MAX));
    round_trip(Value::Int(i64::MIN), Value::Int(i64::MIN));
}

#[test]
fn frame_round_trips_strings() {
    round_trip(s(""), s(""));
    round_trip(s("hello"), s("hello"));
    round_trip(s("caf\u{e9} \u{1F600}"), s("caf\u{e9} \u{1F600}"));
}

#[test]
fn frame_round_trips_nested_values() {
    let make = || {
        obj(vec![
            ("rows", Value::Array(vec![Value::Int(1), s("two"), Value::Null])),
            ("nested", obj(vec![("ok", Value::Bool(true))])),
            ("empty", Value::Array(vec![])),
        ])
    };
    round_trip(make(), make());
}

#[test]
fn frame_null_is_one_byte() {
    assert_eq!(encode_value(&Value::Null), vec![0u8]);
}

#[test]
fn frame_rejects_empty_buffer() {
    let e = decode_value(&[]).unwrap_err();
    assert_eq!(e.kind(), ErrorKind::Encoding);
}

#[test]
fn frame_rejects_unknown_tag() {
    let e = decode_value(&[9u8]).unwrap_err();
    assert_eq!(e.kind(), ErrorKind::Encoding);
}

#[test]
fn frame_rejects_truncated_word() {
    let e = decode_value(&[3u8, 0, 0, 0]).unwrap_err();
    assert_eq!(e.kind(), ErrorKind::Encoding);
}

#[test]
fn frame_rejects_trailing_bytes() {
    let e = decode_value(&[0u8, 0u8]).unwrap_err();
    assert_eq!(e.kind(), ErrorKind::Encoding);
}

#[test]
fn frame_rejects_string_running_past_the_frame() {
    let e = decode_value(&[4u8, 0, 0, 0, 0, 0, 0, 0, 5, b'h', b'i']).unwrap_err();
    assert_eq!(e.kind(), ErrorKind::Encoding);
}

#[test]
fn frame_rejects_invalid_text() {
    let e = decode_value(&[4u8, 0, 0, 0, 0, 0, 0, 0, 1, 0xFF]).unwrap_err();
    assert_eq!(e.kind(), ErrorKind::Encoding);
}

#[test]
fn request_frame_decodes_method_and_params() {
    let req = obj(vec![
        ("method", s("select")),
        ("params", Value::Array(vec![s("person:tobie")])),
    ]);
    let bytes = encode_value(&req);
    let (method, params) = decode_request(bytes.as_slice()).unwrap();
    assert_eq!(method, "select");
    assert_eq!(params, vec![s("person:tobie")]);
}

#[test]
fn request_frame_without_method_is_an_encoding_error() {
    let req = obj(vec![("params", Value::Array(vec![]))]);
    let bytes = encode_value(&req);
    let e = decode_request(bytes.as_slice()).unwrap_err();
    assert_eq!(e.kind(), ErrorKind::Encoding);
}

#[test]
fn request_frame_must_be_an_object() {
    let bytes = encode_value(&Value::Int(1));
    let e = decode_request(bytes.as_slice()).unwrap_err();
    assert_eq!(e.kind(), ErrorKind::Encoding);
}

#[test]
fn execution_plan_from_a_frame() {
    let req = obj(vec![
        ("method", s("update")),
        ("params", Value::Array(vec![s("person:tobie"), Value::Null])),
    ]);
    let bytes = encode_value(&req);
    let plan = surrealdb_node::rpc::plan_execution(bytes.as_slice()).unwrap();
    assert_eq!(plan.method, Method::Update);
    assert_eq!(plan.lock, LockKind::ExclusiveWrite);
    assert_eq!(plan.method_name, "update");
    assert_eq!(plan.params, vec![s("person:tobie"), Value::Null]);
}
