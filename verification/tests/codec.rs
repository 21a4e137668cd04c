use motionstate::codec::decode;
use motionstate::codec::encode;
use motionstate::codec::Value;
use motionstate::float_text::is_float;
use motionstate::num::parse_i64;

fn s(text: &str) -> String {
    text.to_string()
}

#[test]
fn round_trip_int() {
    let v = Value::Int(42);
    assert_eq!(decode(&encode(&v)), v);
    let v = Value::Int(i64::MAX);
    assert_eq!(decode(&encode(&v)), v);
    let v = Value::Int(i64::MIN);
    assert_eq!(decode(&encode(&v)), v);
    let v = Value::Int(0);
    assert_eq!(decode(&encode(&v)), v);
    let v = Value::Int(-7);
    assert_eq!(decode(&encode(&v)), v);
}

#[test]
fn int_wire_bytes_are_decimal_text() {
    assert_eq!(encode(&Value::Int(42)), b"42".to_vec());
    assert_eq!(encode(&Value::Int(-310)), b"-310".to_vec());
}

#[test]
fn round_trip_float_text() {
    for t in ["3.14", "-0.5", "2.5e10", "1e-3", "inf", "-inf", "NaN", "5.", ".25"] {
        let v = Value::Float(s(t));
        assert_eq!(decode(&encode(&v)), v);
    }
}

#[test]
fn round_trip_string() {
    for t in ["hello", "", "with space", "naïve ünïcode ✓", "12a", "1.2.3"] {
        let v = Value::Str(s(t));
        assert_eq!(decode(&encode(&v)), v);
    }
}

#[test]
fn digit_string_comes_back_as_int() {
    // The documented ambiguity: integers and strings share the text lane.
    let v = Value::Str(s("42"));
    assert_eq!(decode(&encode(&v)), Value::Int(42));
}

#[test]
fn float_string_comes_back_as_float() {
    let v = Value::Str(s("2.5"));
    assert_eq!(decode(&encode(&v)), Value::Float(s("2.5")));
}

#[test]
fn empty_bytes_decode_to_empty_string() {
    assert_eq!(decode(&[]), Value::Str(s("")));
}

#[test]
fn round_trip_list_of_primitives() {
    let v = Value::List(vec![
        Value::Int(1),
        Value::Int(2),
        Value::Str(s("c")),
        Value::Float(s("0.5")),
    ]);
    assert_eq!(decode(&encode(&v)), v);
}

#[test]
fn round_trip_empty_list_and_map() {
    let v = Value::List(vec![]);
    assert_eq!(decode(&encode(&v)), v);
    let v = Value::Dict(vec![]);
    assert_eq!(decode(&encode(&v)), v);
}

#[test]
fn list_wire_format_is_marker_then_frames() {
    let v = Value::List(vec![Value::Int(7)]);
    let mut expected: Vec<u8> = vec![1];
    expected.extend_from_slice(&1u64.to_le_bytes());
    expected.push(b'7');
    assert_eq!(encode(&v), expected);
}

#[test]
fn map_wire_format_frames_key_then_value() {
    let v = Value::Dict(vec![(s("a"), Value::Int(1))]);
    let mut expected: Vec<u8> = vec![2];
    expected.extend_from_slice(&1u64.to_le_bytes());
    expected.push(b'a');
    expected.extend_from_slice(&1u64.to_le_bytes());
    expected.push(b'1');
    assert_eq!(encode(&v), expected);
}

#[test]
fn round_trip_map_of_primitives() {
    let v = Value::Dict(vec![
        (s("a"), Value::Int(1)),
        (s("b"), Value::Str(s("two"))),
        (s("42"), Value::Float(s("4.5"))),
    ]);
    assert_eq!(decode(&encode(&v)), v);
}

#[test]
fn round_trip_nested_containers() {
    let v = Value::Dict(vec![
        (s("a"), Value::Int(1)),
        (
            s("b"),
            Value::List(vec![Value::Int(1), Value::Int(2), Value::Str(s("c"))]),
        ),
    ]);
    assert_eq!(decode(&encode(&v)), v);
}

#[test]
fn opaque_bytes_come_back_verbatim() {
    // 0xff 0xfe is not valid UTF-8 and starts with no marker.
    let v = Value::Opaque(vec![0xff, 0xfe, 0x00]);
    let bytes = encode(&v);
    assert_eq!(bytes, vec![0xff, 0xfe, 0x00]);
    assert_eq!(decode(&bytes), v);
}

#[test]
fn truncated_frames_stop_the_walk() {
    // A list whose single frame announces five bytes but carries three.
    let mut bytes: Vec<u8> = vec![1];
    bytes.extend_from_slice(&5u64.to_le_bytes());
    bytes.extend_from_slice(b"abc");
    assert_eq!(decode(&bytes), Value::List(vec![]));
}

#[test]
fn trailing_garbage_after_full_frames_is_dropped() {
    let mut bytes: Vec<u8> = vec![1];
    bytes.extend_from_slice(&1u64.to_le_bytes());
    bytes.push(b'5');
    bytes.extend_from_slice(&[9, 9]);
    assert_eq!(decode(&bytes), Value::List(vec![Value::Int(5)]));
}

#[test]
fn oversized_integer_text_takes_the_float_lane() {
    // One past the signed 64-bit range: all digits, but not an integer.
    let text = b"9223372036854775808";
    assert_eq!(decode(text), Value::Float(s("9223372036854775808")));
}

#[test]
fn leading_zeros_still_parse_as_int() {
    assert_eq!(decode(b"007"), Value::Int(7));
    assert_eq!(decode(b"+17"), Value::Int(17));
    assert_eq!(decode(b"-0"), Value::Int(0));
}

#[test]
fn parse_i64_edges() {
    assert_eq!(parse_i64(b""), None);
    assert_eq!(parse_i64(b"+"), None);
    assert_eq!(parse_i64(b"-"), None);
    assert_eq!(parse_i64(b"12a"), None);
    assert_eq!(parse_i64(b"9223372036854775807"), Some(i64::MAX));
    assert_eq!(parse_i64(b"9223372036854775808"), None);
    assert_eq!(parse_i64(b"-9223372036854775808"), Some(i64::MIN));
    assert_eq!(parse_i64(b"-9223372036854775809"), None);
    assert_eq!(parse_i64(b"007"), Some(7));
}

#[test]
fn float_grammar_recognition() {
    for yes in [
        "1", "1.", ".5", "1.5", "-1.5", "+.5", "1e5", "1E5", "1e+5", "2.5e-10", "inf", "-inf",
        "Infinity", "NAN", "nan",
    ] {
        assert!(is_float(yes.as_bytes()), "{yes}");
    }
    for no in ["", ".", "+", "e5", "1e", "1e+", "1.2.3", "in", "infx", "1e5.5", "--1", "+-5", "a"] {
        assert!(!is_float(no.as_bytes()), "{no}");
    }
}
