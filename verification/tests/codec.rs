use pulumist::codec::{encode_value, decode_value};
use pulumist::value::StructuredValue;

fn s(text: &str) -> String {
    text.to_string()
}

fn round_trips(v: StructuredValue) {
    let copy = v.clone();
    let bytes = encode_value(&v);
    let back = decode_value(&bytes).expect("decoding an encoding must succeed");
    assert!(back.deep_eq(&copy));
}

#[test]
fn round_trip_leaves() {
    round_trips(StructuredValue::Null);
    round_trips(StructuredValue::Bool(true));
    round_trips(StructuredValue::Bool(false));
    round_trips(StructuredValue::Int(0));
    round_trips(StructuredValue::Int(-1));
    round_trips(StructuredValue::Int(i64::MAX));
    round_trips(StructuredValue::Int(i64::MIN));
    round_trips(StructuredValue::Double(0x3FF8000000000000)); // 1.5
    round_trips(StructuredValue::Str(s("")));
    round_trips(StructuredValue::Str(s("hello world")));
    round_trips(StructuredValue::Str(s("unicode: \u{00e9}\u{4e16}\u{754c}")));
}

#[test]
fn round_trip_composites() {
    let v = StructuredValue::Object(vec![
        (
            s("list"),
            StructuredValue::List(vec![
                StructuredValue::Int(1),
                StructuredValue::Str(s("two")),
                StructuredValue::Null,
            ]),
        ),
        (
            s("nested"),
            StructuredValue::Object(vec![(s("k"), StructuredValue::Bool(true))]),
        ),
        (s("empty list"), StructuredValue::List(vec![])),
        (s("empty object"), StructuredValue::Object(vec![])),
    ]);
    round_trips(v);
}

#[test]
fn round_trip_blob() {
    round_trips(StructuredValue::Blob(vec![]));
    round_trips(StructuredValue::Blob(vec![0, 1, 2, 255, 128]));
}

#[test]
fn decode_rejects_malformed_bytes() {
    // unknown tag
    assert!(decode_value(&vec![99u8]).is_none());
    // empty buffer
    assert!(decode_value(&vec![]).is_none());
    // boolean with out-of-range payload
    assert!(decode_value(&vec![1u8, 2u8]).is_none());
    // truncated integer
    assert!(decode_value(&vec![2u8, 0, 0, 0]).is_none());
    // string whose length prefix overruns the buffer
    assert!(decode_value(&vec![4u8, 9, 0, 0, 0, 0, 0, 0, 0, b'a']).is_none());
    // trailing bytes after a complete value
    assert!(decode_value(&vec![0u8, 0u8]).is_none());
    // invalid UTF-8 in a string payload
    assert!(decode_value(&vec![4u8, 1, 0, 0, 0, 0, 0, 0, 0, 0xFF]).is_none());
}

#[test]
fn encoding_is_as_documented() {
    // tag, then eight little-endian length bytes, then UTF-8 payload
    let bytes = encode_value(&StructuredValue::Str(s("ab")));
    assert_eq!(bytes, vec![4u8, 2, 0, 0, 0, 0, 0, 0, 0, b'a', b'b']);
    let bytes = encode_value(&StructuredValue::Int(1));
    assert_eq!(bytes, vec![2u8, 1, 0, 0, 0, 0, 0, 0, 0]);
    let bytes = encode_value(&StructuredValue::List(vec![StructuredValue::Null]));
    assert_eq!(bytes, vec![6u8, 1, 0, 0, 0, 0, 0, 0, 0, 0]);
}
