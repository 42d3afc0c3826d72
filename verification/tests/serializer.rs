use orjson::{ListTupleSerializer, SerializeError, SerializerState, Value, ZeroListSerializer};

fn text(s: &str) -> Vec<u8> {
    s.as_bytes().to_vec()
}

fn serialize_list(elements: &Vec<Value>, limit: u32) -> Result<Vec<u8>, SerializeError> {
    let state = SerializerState::new(0, limit);
    let ser = ListTupleSerializer::from_list(elements, state);
    let mut out: Vec<u8> = Vec::new();
    ser.serialize(&mut out).map(|()| out)
}

fn serialize_tuple(elements: &Vec<Value>, limit: u32) -> Result<Vec<u8>, SerializeError> {
    let state = SerializerState::new(0, limit);
    let ser = ListTupleSerializer::from_tuple(elements, state);
    let mut out: Vec<u8> = Vec::new();
    ser.serialize(&mut out).map(|()| out)
}

#[test]
fn empty_list_is_two_bytes() {
    assert_eq!(serialize_list(&vec![], 1024), Ok(text("[]")));
}

#[test]
fn empty_tuple_is_two_bytes() {
    assert_eq!(serialize_tuple(&vec![], 1024), Ok(text("[]")));
}

#[test]
fn zero_list_serializer_emits_brackets() {
    let mut out: Vec<u8> = Vec::new();
    ZeroListSerializer::new().serialize(&mut out);
    assert_eq!(out, text("[]"));
}

#[test]
fn scalar_mix_in_index_order() {
    let elements = vec![Value::Int(1), Value::Str(text("a")), Value::Bool(true), Value::Null];
    assert_eq!(serialize_list(&elements, 1024), Ok(text("[1,\"a\",true,null]")));
}

#[test]
fn nested_lists() {
    let elements = vec![
        Value::List(vec![]),
        Value::List(vec![
            Value::Int(1),
            Value::List(vec![Value::Int(2), Value::List(vec![])]),
        ]),
    ];
    assert_eq!(serialize_list(&elements, 1024), Ok(text("[[],[1,[2,[]]]]")));
}

#[test]
fn tuple_and_list_serialize_alike() {
    let elements = vec![Value::Int(7), Value::Tuple(vec![Value::Bool(false)])];
    let as_list = serialize_list(&elements, 1024);
    let as_tuple = serialize_tuple(&elements, 1024);
    assert_eq!(as_list, Ok(text("[7,[false]]")));
    assert_eq!(as_list, as_tuple);
}

#[test]
fn integer_extremes() {
    let elements = vec![
        Value::Int(i64::MIN),
        Value::Int(i64::MAX),
        Value::Int(0),
        Value::Int(-1),
        Value::Int(10),
    ];
    assert_eq!(
        serialize_list(&elements, 1024),
        Ok(text("[-9223372036854775808,9223372036854775807,0,-1,10]"))
    );
}

#[test]
fn string_escapes() {
    let elements = vec![Value::Str(text("a\"b\\c\nd"))];
    assert_eq!(serialize_list(&elements, 1024), Ok(text("[\"a\\\"b\\\\c\\u000ad\"]")));
}

#[test]
fn control_bytes_get_unicode_escapes() {
    let elements = vec![Value::Str(vec![0x00, 0x1f, 0x20])];
    assert_eq!(serialize_list(&elements, 1024), Ok(text("[\"\\u0000\\u001f \"]")));
}

#[test]
fn str_subclass_serializes_as_str() {
    let elements = vec![Value::StrSubclass(text("sub"))];
    assert_eq!(serialize_list(&elements, 1024), Ok(text("[\"sub\"]")));
}

#[test]
fn fragment_is_inlined_verbatim() {
    let elements = vec![Value::Fragment(text("{\"pre\":1.5}"))];
    assert_eq!(serialize_list(&elements, 1024), Ok(text("[{\"pre\":1.5}]")));
}

#[test]
fn dicts_nested_in_list() {
    let elements = vec![
        Value::Dict(vec![
            (text("a"), Value::Int(1)),
            (text("b"), Value::List(vec![Value::Bool(true)])),
        ]),
        Value::Dict(vec![]),
    ];
    assert_eq!(serialize_list(&elements, 1024), Ok(text("[{\"a\":1,\"b\":[true]},{}]")));
}

#[test]
fn nesting_at_limit_succeeds() {
    // Root at level one, nested containers at levels two and three.
    let elements = vec![Value::List(vec![Value::List(vec![Value::Int(1)])])];
    assert_eq!(serialize_list(&elements, 3), Ok(text("[[[1]]]")));
}

#[test]
fn nesting_past_limit_fails() {
    let elements = vec![Value::List(vec![Value::List(vec![Value::List(vec![Value::Int(
        1,
    )])])])];
    assert_eq!(serialize_list(&elements, 3), Err(SerializeError::RecursionLimit));
}

#[test]
fn too_deep_container_writes_nothing() {
    // A limit of zero rejects even the empty root container before any
    // element access: the sink stays untouched.
    let state = SerializerState::new(0, 0);
    let ser = ListTupleSerializer::from_list(&vec![Value::Int(1)], state);
    let mut out: Vec<u8> = Vec::new();
    assert_eq!(ser.serialize(&mut out), Err(SerializeError::RecursionLimit));
    assert!(out.is_empty());

    let ser_empty = ListTupleSerializer::from_list(&vec![], state);
    let mut out_empty: Vec<u8> = Vec::new();
    assert_eq!(ser_empty.serialize(&mut out_empty), Err(SerializeError::RecursionLimit));
    assert!(out_empty.is_empty());
}

#[test]
fn nested_empty_containers_skip_the_depth_check() {
    // The zero-length shortcut emits nested empty containers without
    // descending, so they cost no nesting level.
    let elements = vec![Value::List(vec![]), Value::Dict(vec![])];
    assert_eq!(serialize_list(&elements, 1), Ok(text("[[],{}]")));
    let deeper = vec![Value::List(vec![Value::Int(1)])];
    assert_eq!(serialize_list(&deeper, 1), Err(SerializeError::RecursionLimit));
}

#[test]
fn snapshot_is_immune_to_source_mutation() {
    let mut source = vec![Value::Int(1), Value::Int(2), Value::Int(3)];
    let state = SerializerState::new(0, 1024);
    let ser = ListTupleSerializer::from_list(&source, state);
    source.truncate(1);
    source[0] = Value::Bool(false);
    let mut out: Vec<u8> = Vec::new();
    assert_eq!(ser.serialize(&mut out), Ok(()));
    assert_eq!(out, text("[1,2,3]"));
}

#[test]
fn snapshot_survives_source_clear() {
    let mut source = vec![Value::Str(text("kept"))];
    let state = SerializerState::new(0, 1024);
    let ser = ListTupleSerializer::from_tuple(&source, state);
    source.clear();
    let mut out: Vec<u8> = Vec::new();
    assert_eq!(ser.serialize(&mut out), Ok(()));
    assert_eq!(out, text("[\"kept\"]"));
}

#[test]
fn output_appends_to_existing_sink() {
    let state = SerializerState::new(0, 1024);
    let ser = ListTupleSerializer::from_list(&vec![Value::Null], state);
    let mut out = text("prefix:");
    assert_eq!(ser.serialize(&mut out), Ok(()));
    assert_eq!(out, text("prefix:[null]"));
}

#[test]
fn recursion_limit_message() {
    assert_eq!(SerializeError::RecursionLimit.message(), "Recursion limit reached");
}

#[test]
fn state_tracks_depth_per_branch() {
    let state = SerializerState::new(5, 10);
    assert_eq!(state.depth, 0);
    let deeper = state.copy_for_recursive_call();
    assert_eq!(deeper.depth, 1);
    assert_eq!(deeper.opts, 5);
    assert_eq!(deeper.limit, 10);
    assert!(!deeper.recursion_limit());
    let sibling = state.copy_for_recursive_call();
    assert_eq!(sibling.depth, 1);
}

#[test]
fn borrowed_mode_matches_snapshot_mode() {
    let elements = vec![
        Value::Int(3),
        Value::Str(b"x".to_vec()),
        Value::List(vec![Value::Null, Value::Dict(vec![(b"d".to_vec(), Value::Bool(true))])]),
    ];
    let state = SerializerState::new(0, 1024);
    let borrowed = orjson::BorrowedListSerializer::from_list(&elements, state);
    let mut out_borrowed: Vec<u8> = Vec::new();
    assert_eq!(borrowed.serialize(&mut out_borrowed), Ok(()));
    let snapshot = ListTupleSerializer::from_list(&elements, state);
    let mut out_snapshot: Vec<u8> = Vec::new();
    assert_eq!(snapshot.serialize(&mut out_snapshot), Ok(()));
    assert_eq!(out_borrowed, out_snapshot);
    assert_eq!(out_borrowed, text("[3,\"x\",[null,{\"d\":true}]]"));
}

#[test]
fn borrowed_mode_enforces_the_limit() {
    let elements = vec![Value::Tuple(vec![Value::Int(1)])];
    let state = SerializerState::new(0, 1);
    let borrowed = orjson::BorrowedListSerializer::from_tuple(&elements, state);
    let mut out: Vec<u8> = Vec::new();
    assert_eq!(borrowed.serialize(&mut out), Err(SerializeError::RecursionLimit));
}
