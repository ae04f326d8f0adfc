//! Wire codec round trips: every message variant decodes back to itself, the
//! frame carries its payload length, and the emitted bytes are valid
//! MessagePack as an independent reader sees them.

use neutrino::codec::{encode_frame, frame_payload_len, DecodeError};
use neutrino::protocol::{Message, Value};
use neutrino::resources::{ResourceCapabilities, ResourceRequirements};

fn roundtrip(m: &Message) -> Message {
    let bytes = m.to_bytes().unwrap();
    Message::from_bytes(&bytes).unwrap()
}

#[test]
fn test_frame_roundtrip() {
    // Encode a task assignment with a structured argument tree; decode;
    // structurally equal.
    let msg = Message::TaskAssignment {
        task_id: "t1".to_owned(),
        function_name: "f".to_owned(),
        args: Value::Mapping(vec![
            (
                Value::Str("x".to_owned()),
                Value::Array(vec![Value::Int(1), Value::Int(2), Value::Int(3)]),
            ),
            (Value::Str("y".to_owned()), Value::Nil),
        ]),
        resources: ResourceRequirements { num_cpus: 500, num_gpus: 0, memory_gb: 250 },
    };
    let back = roundtrip(&msg);
    assert!(msg.deep_eq(&back));
}

#[test]
fn test_all_variants_roundtrip() {
    let variants = vec![
        Message::WorkerReady {
            worker_id: "gpu-0".to_owned(),
            pid: 4242,
            capabilities: ResourceCapabilities {
                num_cpus: 4000,
                num_gpus: 1000,
                memory_gb: 8000,
            },
        },
        Message::TaskAssignment {
            task_id: "t2".to_owned(),
            function_name: "handler".to_owned(),
            args: Value::Array(vec![
                Value::Bool(true),
                Value::Float(2.5f64.to_bits()),
                Value::Binary(vec![1, 2, 3]),
                Value::Str("s".to_owned()),
            ]),
            resources: ResourceRequirements { num_cpus: 1000, num_gpus: 0, memory_gb: 1000 },
        },
        Message::TaskResult {
            task_id: "t2".to_owned(),
            success: false,
            result: Value::Mapping(vec![(
                Value::Str("error".to_owned()),
                Value::Str("boom".to_owned()),
            )]),
        },
        Message::Shutdown { graceful: true },
        Message::Shutdown { graceful: false },
        Message::Heartbeat { worker_id: "cpu-1".to_owned() },
    ];
    for m in &variants {
        let back = roundtrip(m);
        assert!(m.deep_eq(&back));
    }
}

#[test]
fn test_distinct_variants_stay_distinct() {
    let a = Message::Shutdown { graceful: true };
    let b = Message::Heartbeat { worker_id: "x".to_owned() };
    let back_a = roundtrip(&a);
    assert!(!back_a.deep_eq(&b));
}

#[test]
fn test_unicode_payload_roundtrip() {
    let msg = Message::TaskResult {
        task_id: "t\u{00e9}".to_owned(),
        success: true,
        result: Value::Str("r\u{00e9}sultat \u{1f680}".to_owned()),
    };
    let back = roundtrip(&msg);
    assert!(msg.deep_eq(&back));
}

#[test]
fn test_garbage_rejected() {
    let garbage: Vec<u8> = vec![0x00, 0x01, 0x02];
    assert!(Message::from_bytes(&garbage).is_err());

    // A well-formed value that is not a message is rejected too.
    let mut nil_only: Vec<u8> = Vec::new();
    nil_only.push(0xc0);
    assert_eq!(
        Message::from_bytes(&nil_only).unwrap_err(),
        DecodeError::MalformedMessage
    );

    // Trailing bytes after a message are rejected.
    let msg = Message::Shutdown { graceful: true };
    let mut bytes = msg.to_bytes().unwrap();
    bytes.push(0x00);
    assert_eq!(
        Message::from_bytes(&bytes).unwrap_err(),
        DecodeError::TrailingBytes
    );
}

#[test]
fn test_frame_header() {
    let payload: Vec<u8> = vec![9, 8, 7, 6, 5];
    let framed = encode_frame(&payload).unwrap();
    assert_eq!(framed.len(), 4 + payload.len());
    assert_eq!(&framed[0..4], &[0, 0, 0, 5]);
    assert_eq!(&framed[4..], &payload[..]);
    assert_eq!(frame_payload_len(&framed), 5);
}

#[test]
fn test_emitted_bytes_are_messagepack() {
    // An independent MessagePack reader sees the same structure: a one-entry
    // map from the variant name to its field array.
    let msg = Message::Heartbeat { worker_id: "cpu-1".to_owned() };
    let bytes = msg.to_bytes().unwrap();
    let mut cursor = &bytes[..];
    let value = rmpv::decode::read_value(&mut cursor).unwrap();
    match value {
        rmpv::Value::Map(pairs) => {
            assert_eq!(pairs.len(), 1);
            assert_eq!(pairs[0].0.as_str(), Some("Heartbeat"));
            match &pairs[0].1 {
                rmpv::Value::Array(fields) => {
                    assert_eq!(fields.len(), 1);
                    assert_eq!(fields[0].as_str(), Some("cpu-1"));
                },
                other => panic!("fields are not an array: {:?}", other),
            }
        },
        other => panic!("not a map: {:?}", other),
    }
    assert!(cursor.is_empty());
}
