use orjson::{ListTupleSerializer, SerializerState, Value};

fn text(s: &str) -> Vec<u8> {
    s.as_bytes().to_vec()
}

fn serialize_list(elements: &Vec<Value>, limit: u32) -> Vec<u8> {
    let state = SerializerState::new(0, limit);
    let ser = ListTupleSerializer::from_list(elements, state);
    let mut out: Vec<u8> = Vec::new();
    ser.serialize(&mut out).unwrap();
    out
}

#[test]
fn scalars_roundtrip_through_a_standard_parser() {
    let elements = vec![
        Value::Int(1),
        Value::Str(text("a")),
        Value::Bool(true),
        Value::Null,
        Value::Int(i64::MIN),
        Value::Int(i64::MAX),
    ];
    let out = serialize_list(&elements, 1024);
    let parsed: serde_json::Value = serde_json::from_slice(&out).unwrap();
    let expected = serde_json::Value::Array(vec![
        serde_json::Value::from(1i64),
        serde_json::Value::String(String::from("a")),
        serde_json::Value::Bool(true),
        serde_json::Value::Null,
        serde_json::Value::from(i64::MIN),
        serde_json::Value::from(i64::MAX),
    ]);
    assert_eq!(parsed, expected);
}

#[test]
fn escaped_strings_roundtrip_through_a_standard_parser() {
    let elements = vec![Value::Str(text("a\"b\\c\nd\u{1}e")), Value::Str(text(""))];
    let out = serialize_list(&elements, 1024);
    let parsed: serde_json::Value = serde_json::from_slice(&out).unwrap();
    let expected = serde_json::Value::Array(vec![
        serde_json::Value::String(String::from("a\"b\\c\nd\u{1}e")),
        serde_json::Value::String(String::new()),
    ]);
    assert_eq!(parsed, expected);
}

#[test]
fn nested_containers_roundtrip_through_a_standard_parser() {
    let elements = vec![
        Value::List(vec![]),
        Value::Tuple(vec![Value::Int(2), Value::Str(text("b"))]),
        Value::Dict(vec![(text("k"), Value::List(vec![Value::Bool(false)]))]),
    ];
    let out = serialize_list(&elements, 1024);
    let parsed: serde_json::Value = serde_json::from_slice(&out).unwrap();

    let mut object = serde_json::Map::new();
    object.insert(
        String::from("k"),
        serde_json::Value::Array(vec![serde_json::Value::Bool(false)]),
    );
    let expected = serde_json::Value::Array(vec![
        serde_json::Value::Array(vec![]),
        serde_json::Value::Array(vec![
            serde_json::Value::from(2i64),
            serde_json::Value::String(String::from("b")),
        ]),
        serde_json::Value::Object(object),
    ]);
    assert_eq!(parsed, expected);
}
