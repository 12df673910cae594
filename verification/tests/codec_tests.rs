use quickjslib::codec::{decode, encode};
use quickjslib::proxy::JSJavaProxy;

fn round_trip(value: JSJavaProxy) -> JSJavaProxy {
    let bytes = encode(&value);
    decode(&bytes).expect("encoding must decode")
}

#[test]
fn test_serde_int() {
    let value = JSJavaProxy::Int(7);
    let bytes = encode(&value);
    let deserialized = decode(&bytes).unwrap();
    assert_eq!(value, deserialized);
}

#[test]
fn test_serde_float() {
    let value = JSJavaProxy::Float((7.0f64).to_bits());
    let bytes = encode(&value);
    let deserialized = decode(&bytes).unwrap();
    assert_eq!(value, deserialized);
}

#[test]
fn test_serde_string() {
    let value = JSJavaProxy::String("hello".to_string());
    let bytes = encode(&value);
    let deserialized = decode(&bytes).unwrap();
    assert_eq!(value, deserialized);
}

#[test]
fn test_serde_boolean() {
    let value = JSJavaProxy::Boolean(true);
    let bytes = encode(&value);
    let deserialized = decode(&bytes).unwrap();
    assert_eq!(value, deserialized);
}

#[test]
fn test_serde_array() {
    let value = JSJavaProxy::Array(vec![
        JSJavaProxy::Int(7),
        JSJavaProxy::String("hello".to_string()),
    ]);
    let bytes = encode(&value);
    let deserialized = decode(&bytes).unwrap();
    assert_eq!(value, deserialized);
}

#[test]
fn test_serde_null() {
    let value = JSJavaProxy::Null;
    let bytes = encode(&value);
    let deserialized = decode(&bytes).unwrap();
    assert_eq!(value, deserialized);
}

#[test]
fn test_serde_undefined() {
    let value = JSJavaProxy::Undefined;
    let bytes = encode(&value);
    let deserialized = decode(&bytes).unwrap();
    assert_eq!(value, deserialized);
}

#[test]
fn test_serde_object() {
    let value = JSJavaProxy::Object(vec![
        ("a".to_string(), JSJavaProxy::Int(7)),
        ("b".to_string(), JSJavaProxy::String("hello".to_string())),
    ]);
    let bytes = encode(&value);
    let deserialized = decode(&bytes).unwrap();
    assert_eq!(value, deserialized);
}

#[test]
fn encoding_null_is_one_tag_byte() {
    assert_eq!(encode(&JSJavaProxy::Null), vec![0u8]);
    assert_eq!(encode(&JSJavaProxy::Undefined), vec![1u8]);
}

#[test]
fn encoding_int_is_tag_and_little_endian_word() {
    assert_eq!(encode(&JSJavaProxy::Int(7)), vec![3u8, 7, 0, 0, 0]);
    assert_eq!(encode(&JSJavaProxy::Int(-1)), vec![3u8, 0xFF, 0xFF, 0xFF, 0xFF]);
}

#[test]
fn encoding_boolean_is_tag_and_flag_byte() {
    assert_eq!(encode(&JSJavaProxy::Boolean(true)), vec![5u8, 1]);
    assert_eq!(encode(&JSJavaProxy::Boolean(false)), vec![5u8, 0]);
}

#[test]
fn encoding_string_is_tag_length_and_utf8() {
    let bytes = encode(&JSJavaProxy::String("hi".to_string()));
    assert_eq!(bytes, vec![2u8, 2, 0, 0, 0, 0, 0, 0, 0, b'h', b'i']);
}

#[test]
fn encoding_handles_is_tag_and_word() {
    let bytes = encode(&JSJavaProxy::NativeArray(0x0102030405060708));
    assert_eq!(bytes, vec![7u8, 8, 7, 6, 5, 4, 3, 2, 1]);
    let bytes = encode(&JSJavaProxy::NativeObject(1));
    assert_eq!(bytes, vec![9u8, 1, 0, 0, 0, 0, 0, 0, 0]);
}

#[test]
fn non_ascii_string_round_trips() {
    let value = JSJavaProxy::String("gr\u{00fc}n \u{1f600}".to_string());
    assert_eq!(round_trip(value), JSJavaProxy::String("gr\u{00fc}n \u{1f600}".to_string()));
}

#[test]
fn every_variant_round_trips() {
    let values = vec![
        JSJavaProxy::Null,
        JSJavaProxy::Undefined,
        JSJavaProxy::String(String::new()),
        JSJavaProxy::Int(i32::MIN),
        JSJavaProxy::Float((-0.5f64).to_bits()),
        JSJavaProxy::Boolean(false),
        JSJavaProxy::Array(vec![]),
        JSJavaProxy::NativeArray(u64::MAX),
        JSJavaProxy::Object(vec![]),
        JSJavaProxy::NativeObject(0),
        JSJavaProxy::Function("f".to_string(), 42),
        JSJavaProxy::JavaFunction(-3, 9),
        JSJavaProxy::Exception("boom".to_string(), "at line 1".to_string()),
        JSJavaProxy::CompletableFuture(11, 12),
    ];
    for value in values {
        let bytes = encode(&value);
        assert_eq!(decode(&bytes), Some(value));
    }
}

#[test]
fn nested_compound_round_trips() {
    let value = JSJavaProxy::Object(vec![
        (
            "list".to_string(),
            JSJavaProxy::Array(vec![
                JSJavaProxy::Object(vec![("x".to_string(), JSJavaProxy::Float((3.25f64).to_bits()))]),
                JSJavaProxy::Null,
            ]),
        ),
        ("name".to_string(), JSJavaProxy::String("nested".to_string())),
    ]);
    let copy = round_trip(value);
    match copy {
        JSJavaProxy::Object(entries) => {
            assert_eq!(entries.len(), 2);
            assert_eq!(entries[1].0, "name");
        }
        other => panic!("expected an object, got {:?}", other),
    }
}

#[test]
fn decode_rejects_malformed_buffers() {
    // Empty buffer.
    assert_eq!(decode(&[]), None);
    // Unknown tag.
    assert_eq!(decode(&[99]), None);
    // Truncated integer.
    assert_eq!(decode(&[3, 7, 0]), None);
    // Boolean byte out of range.
    assert_eq!(decode(&[5, 2]), None);
    // Trailing garbage after a complete value.
    assert_eq!(decode(&[0, 0]), None);
    // String length runs past the buffer.
    assert_eq!(decode(&[2, 9, 0, 0, 0, 0, 0, 0, 0, b'h', b'i']), None);
}

#[test]
fn decode_rejects_invalid_utf8() {
    // A one-byte string whose byte is not valid UTF-8.
    assert_eq!(decode(&[2, 1, 0, 0, 0, 0, 0, 0, 0, 0xFF]), None);
    // The same buffer with a valid byte decodes.
    assert_eq!(
        decode(&[2, 1, 0, 0, 0, 0, 0, 0, 0, b'a']),
        Some(JSJavaProxy::String("a".to_string()))
    );
}
