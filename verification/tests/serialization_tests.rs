//! JSON <-> wire-value conversion, round-tripped both ways.

use neutrino::json::{json_to_msgpack_value, msgpack_value_to_json, JsonValue};
use neutrino::protocol::Value;

fn s(text: &str) -> String {
    text.to_owned()
}

fn obj(entries: Vec<(&str, JsonValue)>) -> JsonValue {
    JsonValue::Object(entries.into_iter().map(|(k, v)| (s(k), v)).collect())
}

fn roundtrip(json: &JsonValue) -> JsonValue {
    let msgpack = json_to_msgpack_value(json).unwrap();
    msgpack_value_to_json(&msgpack).unwrap()
}

#[test]
fn test_null_roundtrip() {
    let json = JsonValue::Null;
    let back_to_json = roundtrip(&json);
    assert!(json.deep_eq(&back_to_json));
}

#[test]
fn test_boolean_roundtrip() {
    let json = obj(vec![
        ("true_val", JsonValue::Bool(true)),
        ("false_val", JsonValue::Bool(false)),
    ]);
    let back_to_json = roundtrip(&json);
    assert!(json.deep_eq(&back_to_json));
}

#[test]
fn test_integer_roundtrip() {
    let json = obj(vec![
        ("small", JsonValue::Int(42)),
        ("negative", JsonValue::Int(-123)),
        ("zero", JsonValue::Int(0)),
        ("large", JsonValue::Int(1234567890)),
    ]);
    let back_to_json = roundtrip(&json);
    assert!(json.deep_eq(&back_to_json));
}

#[test]
fn test_float_roundtrip() {
    let json = obj(vec![
        ("pi", JsonValue::Float(3.14159f64.to_bits())),
        ("negative", JsonValue::Float((-2.5f64).to_bits())),
        ("scientific", JsonValue::Float(1.23e-4f64.to_bits())),
    ]);
    let back_to_json = roundtrip(&json);
    // Compare floats with epsilon.
    match &back_to_json {
        JsonValue::Object(entries) => {
            match entries[0].1 {
                JsonValue::Float(bits) => {
                    assert!((f64::from_bits(bits) - 3.14159).abs() < 0.00001)
                },
                _ => panic!("pi is not a float"),
            }
            match entries[1].1 {
                JsonValue::Float(bits) => assert_eq!(f64::from_bits(bits), -2.5),
                _ => panic!("negative is not a float"),
            }
        },
        _ => panic!("not an object"),
    }
}

#[test]
fn test_string_roundtrip() {
    let json = obj(vec![
        ("simple", JsonValue::Str(s("hello"))),
        ("unicode", JsonValue::Str(s("Hello \u{4e16}\u{754c} \u{1f30d}"))),
        ("empty", JsonValue::Str(s(""))),
        ("special", JsonValue::Str(s("Line1\nLine2\tTabbed"))),
    ]);
    let back_to_json = roundtrip(&json);
    assert!(json.deep_eq(&back_to_json));
}

#[test]
fn test_array_roundtrip() {
    let json = obj(vec![
        ("empty", JsonValue::Array(vec![])),
        (
            "numbers",
            JsonValue::Array(vec![
                JsonValue::Int(1),
                JsonValue::Int(2),
                JsonValue::Int(3),
                JsonValue::Int(4),
                JsonValue::Int(5),
            ]),
        ),
        (
            "mixed",
            JsonValue::Array(vec![
                JsonValue::Int(1),
                JsonValue::Str(s("two")),
                JsonValue::Float(3.0f64.to_bits()),
                JsonValue::Bool(true),
                JsonValue::Null,
            ]),
        ),
        (
            "nested",
            JsonValue::Array(vec![
                JsonValue::Array(vec![JsonValue::Int(1), JsonValue::Int(2)]),
                JsonValue::Array(vec![JsonValue::Int(3), JsonValue::Int(4)]),
                JsonValue::Array(vec![JsonValue::Int(5), JsonValue::Int(6)]),
            ]),
        ),
    ]);
    let back_to_json = roundtrip(&json);
    assert!(json.deep_eq(&back_to_json));
}

#[test]
fn test_nested_object_roundtrip() {
    let json = obj(vec![(
        "user",
        obj(vec![
            ("id", JsonValue::Int(1)),
            ("name", JsonValue::Str(s("Alice"))),
            (
                "metadata",
                obj(vec![
                    ("created", JsonValue::Str(s("2024-01-01"))),
                    (
                        "tags",
                        JsonValue::Array(vec![
                            JsonValue::Str(s("admin")),
                            JsonValue::Str(s("user")),
                        ]),
                    ),
                ]),
            ),
        ]),
    )]);
    let back_to_json = roundtrip(&json);
    assert!(json.deep_eq(&back_to_json));
}

#[test]
fn test_task_request_conversion() {
    // Simulate an HTTP POST body for task execution.
    let json = obj(vec![
        ("text", JsonValue::Str(s("hello world"))),
        ("iterations", JsonValue::Int(1000)),
        (
            "options",
            obj(vec![
                ("timeout", JsonValue::Int(30)),
                ("retries", JsonValue::Int(3)),
            ]),
        ),
    ]);

    let msgpack = json_to_msgpack_value(&json).unwrap();

    // Verify the wire structure.
    assert!(matches!(msgpack, Value::Mapping(_)));

    let back_to_json = msgpack_value_to_json(&msgpack).unwrap();
    assert!(json.deep_eq(&back_to_json));
}

#[test]
fn test_task_result_conversion() {
    // Simulate a worker response.
    let result_data = obj(vec![
        ("result", JsonValue::Str(s("olleh dlrow"))),
        ("processed_chars", JsonValue::Int(11000)),
    ]);

    let back_to_json = roundtrip(&result_data);

    match &back_to_json {
        JsonValue::Object(entries) => {
            assert_eq!(entries[0].0, "result");
            match &entries[0].1 {
                JsonValue::Str(v) => assert_eq!(v, "olleh dlrow"),
                _ => panic!("result is not a string"),
            }
            assert_eq!(entries[1].0, "processed_chars");
            match entries[1].1 {
                JsonValue::Int(v) => assert_eq!(v, 11000),
                _ => panic!("processed_chars is not an integer"),
            }
        },
        _ => panic!("not an object"),
    }
}

#[test]
fn test_error_result_conversion() {
    // Simulate an error response from a worker.
    let error_data = obj(vec![
        ("error", JsonValue::Str(s("ValueError: invalid input"))),
        ("type", JsonValue::Str(s("ValueError"))),
    ]);

    let back_to_json = roundtrip(&error_data);

    match &back_to_json {
        JsonValue::Object(entries) => {
            match &entries[1].1 {
                JsonValue::Str(v) => assert_eq!(v, "ValueError"),
                _ => panic!("type is not a string"),
            }
            match &entries[0].1 {
                JsonValue::Str(v) => assert!(v.contains("ValueError")),
                _ => panic!("error is not a string"),
            }
        },
        _ => panic!("not an object"),
    }
}

#[test]
fn test_large_array() {
    // Test with a large dataset.
    let numbers: Vec<JsonValue> = (0..10000).map(JsonValue::Int).collect();
    let json = obj(vec![("data", JsonValue::Array(numbers))]);

    let back_to_json = roundtrip(&json);

    match &back_to_json {
        JsonValue::Object(entries) => match &entries[0].1 {
            JsonValue::Array(items) => {
                assert_eq!(items.len(), 10000);
                match items[9999] {
                    JsonValue::Int(v) => assert_eq!(v, 9999),
                    _ => panic!("element is not an integer"),
                }
            },
            _ => panic!("data is not an array"),
        },
        _ => panic!("not an object"),
    }
}

#[test]
fn test_binary_to_json() {
    // Binary data converts to an array of numbers in JSON.
    let binary = Value::Binary(vec![0x00, 0x01, 0x02, 0xff]);
    let json = msgpack_value_to_json(&binary).unwrap();

    let expected = JsonValue::Array(vec![
        JsonValue::Int(0),
        JsonValue::Int(1),
        JsonValue::Int(2),
        JsonValue::Int(255),
    ]);
    assert!(json.deep_eq(&expected));
}

#[test]
fn test_unicode_edge_cases() {
    let json = obj(vec![
        (
            "emoji",
            JsonValue::Str(s("\u{1f600}\u{1f603}\u{1f604}\u{1f601}")),
        ),
        (
            "chinese",
            JsonValue::Str(s("\u{4f60}\u{597d}\u{4e16}\u{754c}")),
        ),
        (
            "arabic",
            JsonValue::Str(s(
                "\u{645}\u{631}\u{62d}\u{628}\u{627} \u{628}\u{627}\u{644}\u{639}\u{627}\u{644}\u{645}",
            )),
        ),
        (
            "mixed",
            JsonValue::Str(s("Hello \u{4e16}\u{754c} \u{1f30d}")),
        ),
    ]);

    let back_to_json = roundtrip(&json);
    assert!(json.deep_eq(&back_to_json));
}

#[test]
fn test_empty_structures() {
    let json = obj(vec![
        ("empty_object", JsonValue::Object(vec![])),
        ("empty_array", JsonValue::Array(vec![])),
        ("empty_string", JsonValue::Str(s(""))),
    ]);

    let back_to_json = roundtrip(&json);
    assert!(json.deep_eq(&back_to_json));
}

#[test]
fn test_special_floats() {
    // Infinity survives the trip through the wire form as a bit pattern.
    let msgpack_inf = Value::Float(f64::INFINITY.to_bits());
    let json_inf = msgpack_value_to_json(&msgpack_inf).unwrap();
    match json_inf {
        JsonValue::Float(bits) => assert!(f64::from_bits(bits).is_infinite()),
        _ => panic!("not a float"),
    }

    let msgpack_small = Value::Float(1e-308f64.to_bits());
    let json_small = msgpack_value_to_json(&msgpack_small).unwrap();
    match json_small {
        JsonValue::Float(bits) => assert_eq!(f64::from_bits(bits), 1e-308),
        _ => panic!("not a float"),
    }
}

#[test]
fn test_invalid_map_key() {
    // Map keys must be strings in JSON.
    let invalid_map = Value::Mapping(vec![(
        Value::Int(123),
        Value::Str(s("value")),
    )]);

    let result = msgpack_value_to_json(&invalid_map);
    assert!(result.is_err());
    assert!(result.unwrap_err().contains("Map keys must be strings"));
}

#[test]
fn test_deeply_nested() {
    // Create a deeply nested structure: level 49 innermost.
    let mut nested = obj(vec![("level", JsonValue::Int(49))]);
    for i in (1..49).rev() {
        nested = obj(vec![("level", JsonValue::Int(i)), ("nested", nested)]);
    }

    let back_to_json = roundtrip(&nested);

    // Verify the deepest level.
    let mut current = &back_to_json;
    for _ in 0..48 {
        match current {
            JsonValue::Object(entries) => {
                current = &entries[1].1;
            },
            _ => panic!("not an object"),
        }
    }
    match current {
        JsonValue::Object(entries) => match entries[0].1 {
            JsonValue::Int(v) => assert_eq!(v, 49),
            _ => panic!("level is not an integer"),
        },
        _ => panic!("not an object"),
    }
}
