use rtmp_demux::amf0::{decode_value, encode_value, Amf0Value, DecodeError};

fn round_trip(v: Amf0Value) -> Amf0Value {
    let mut bytes: Vec<u8> = Vec::new();
    encode_value(&v, &mut bytes);
    let (back, end) = decode_value(&bytes, 0).unwrap();
    assert_eq!(end, bytes.len());
    back
}

fn assert_number(v: &Amf0Value, expected: f64) {
    match v {
        Amf0Value::Number { bits } => assert_eq!(f64::from_bits(*bits), expected),
        other => panic!("expected a number, got {:?}", other),
    }
}

#[test]
fn round_trip_number() {
    let v = round_trip(Amf0Value::Number {
        bits: 2.5f64.to_bits(),
    });
    assert_number(&v, 2.5);
}

#[test]
fn round_trip_boolean() {
    match round_trip(Amf0Value::Boolean { value: true }) {
        Amf0Value::Boolean { value } => assert!(value),
        other => panic!("unexpected {:?}", other),
    }
    match round_trip(Amf0Value::Boolean { value: false }) {
        Amf0Value::Boolean { value } => assert!(!value),
        other => panic!("unexpected {:?}", other),
    }
}

#[test]
fn round_trip_str() {
    match round_trip(Amf0Value::Str {
        text: b"hello".to_vec(),
    }) {
        Amf0Value::Str { text } => assert_eq!(text, b"hello".to_vec()),
        other => panic!("unexpected {:?}", other),
    }
}

#[test]
fn round_trip_long_str() {
    let long = vec![b'a'; 70_000];
    match round_trip(Amf0Value::Str { text: long.clone() }) {
        Amf0Value::Str { text } => assert_eq!(text, long),
        other => panic!("unexpected {:?}", other),
    }
}

#[test]
fn round_trip_null_and_undefined() {
    assert!(matches!(round_trip(Amf0Value::Null), Amf0Value::Null));
    assert!(matches!(
        round_trip(Amf0Value::Undefined),
        Amf0Value::Undefined
    ));
}

#[test]
fn round_trip_date() {
    match round_trip(Amf0Value::Date {
        millis_bits: 1.5e12f64.to_bits(),
        timezone: 0,
    }) {
        Amf0Value::Date {
            millis_bits,
            timezone,
        } => {
            assert_eq!(f64::from_bits(millis_bits), 1.5e12);
            assert_eq!(timezone, 0);
        }
        other => panic!("unexpected {:?}", other),
    }
}

#[test]
fn round_trip_nested_object_three_levels() {
    let inner = Amf0Value::Object {
        pairs: vec![(
            b"depth3".to_vec(),
            Amf0Value::Number {
                bits: 3.0f64.to_bits(),
            },
        )],
    };
    let middle = Amf0Value::Object {
        pairs: vec![
            (b"depth2".to_vec(), inner),
            (b"also".to_vec(), Amf0Value::Boolean { value: true }),
        ],
    };
    let outer = Amf0Value::Object {
        pairs: vec![
            (b"depth1".to_vec(), middle),
            (b"name".to_vec(), Amf0Value::Str { text: b"x".to_vec() }),
        ],
    };
    match round_trip(outer) {
        Amf0Value::Object { pairs } => {
            assert_eq!(pairs.len(), 2);
            assert_eq!(pairs[0].0, b"depth1".to_vec());
            match &pairs[0].1 {
                Amf0Value::Object { pairs } => {
                    assert_eq!(pairs.len(), 2);
                    match &pairs[0].1 {
                        Amf0Value::Object { pairs } => {
                            assert_eq!(pairs[0].0, b"depth3".to_vec());
                            assert_number(&pairs[0].1, 3.0);
                        }
                        other => panic!("unexpected {:?}", other),
                    }
                }
                other => panic!("unexpected {:?}", other),
            }
        }
        other => panic!("unexpected {:?}", other),
    }
}

#[test]
fn round_trip_keyed_array() {
    let v = Amf0Value::EcmaArray {
        pairs: vec![
            (
                b"a".to_vec(),
                Amf0Value::Number {
                    bits: 1.0f64.to_bits(),
                },
            ),
            (b"b".to_vec(), Amf0Value::Str { text: b"s".to_vec() }),
        ],
    };
    match round_trip(v) {
        Amf0Value::EcmaArray { pairs } => {
            assert_eq!(pairs.len(), 2);
            assert_eq!(pairs[0].0, b"a".to_vec());
            assert_number(&pairs[0].1, 1.0);
        }
        other => panic!("unexpected {:?}", other),
    }
}

#[test]
fn round_trip_strict_array() {
    let v = Amf0Value::StrictArray {
        items: vec![
            Amf0Value::Number {
                bits: 1.0f64.to_bits(),
            },
            Amf0Value::Null,
            Amf0Value::Str {
                text: b"tail".to_vec(),
            },
        ],
    };
    match round_trip(v) {
        Amf0Value::StrictArray { items } => {
            assert_eq!(items.len(), 3);
            assert_number(&items[0], 1.0);
            assert!(matches!(items[1], Amf0Value::Null));
        }
        other => panic!("unexpected {:?}", other),
    }
}

#[test]
fn number_wire_encoding_is_exact() {
    let mut bytes: Vec<u8> = Vec::new();
    encode_value(
        &Amf0Value::Number {
            bits: 3.14f64.to_bits(),
        },
        &mut bytes,
    );
    let mut expected = vec![0x00u8];
    expected.extend_from_slice(&3.14f64.to_bits().to_be_bytes());
    assert_eq!(bytes, expected);
}

#[test]
fn unknown_marker_is_error_with_offset() {
    let err = decode_value(&[0x05, 0x07], 1).unwrap_err();
    assert_eq!(
        err,
        DecodeError::UnknownMarker {
            marker: 0x07,
            offset: 1
        }
    );
}

#[test]
fn truncated_number_is_error() {
    let err = decode_value(&[0x00, 1, 2, 3], 0).unwrap_err();
    assert_eq!(err, DecodeError::Truncated { offset: 1 });
}

#[test]
fn object_requires_end_sentinel() {
    // a zero-length key must be followed by the end marker
    let bytes = vec![0x03u8, 0, 0, 0x05];
    let err = decode_value(&bytes, 0).unwrap_err();
    assert_eq!(
        err,
        DecodeError::UnknownMarker {
            marker: 0x05,
            offset: 3
        }
    );
}

#[test]
fn empty_input_is_truncated() {
    let err = decode_value(&[], 0).unwrap_err();
    assert_eq!(err, DecodeError::Truncated { offset: 0 });
}
