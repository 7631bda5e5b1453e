//! The static binary-schema codec, cross-checked against an independent
//! reader of the same schema, and the reflective variant's encode path.

use beamd::base::{FieldValue, Payload};
use beamd::serialization::reflect::decode_descriptor_pool;
use beamd::serialization::{Algo, Error};
use prost_reflect::{DescriptorPool, DynamicMessage};

fn can_record(sequence: u32, timestamp: u64, data: u64) -> Payload {
    Payload {
        stream: String::new(),
        sequence,
        timestamp,
        payload: vec![(String::from("data"), FieldValue::U64(data))],
    }
}

fn pb_varint(out: &mut Vec<u8>, mut x: u64) {
    loop {
        let b = (x & 0x7f) as u8;
        x >>= 7;
        if x == 0 {
            out.push(b);
            break;
        }
        out.push(b | 0x80);
    }
}

fn pb_str(out: &mut Vec<u8>, field: u64, s: &str) {
    pb_varint(out, (field << 3) | 2);
    pb_varint(out, s.len() as u64);
    out.extend_from_slice(s.as_bytes());
}

fn pb_uint(out: &mut Vec<u8>, field: u64, v: u64) {
    pb_varint(out, field << 3);
    pb_varint(out, v);
}

fn pb_msg(out: &mut Vec<u8>, field: u64, body: &[u8]) {
    pb_varint(out, (field << 3) | 2);
    pb_varint(out, body.len() as u64);
    out.extend_from_slice(body);
}

fn pb_field_descriptor(name: &str, number: u64, label: u64, ty: u64, message: Option<&str>) -> Vec<u8> {
    let mut f = Vec::new();
    pb_str(&mut f, 1, name);
    pb_uint(&mut f, 3, number);
    pb_uint(&mut f, 4, label);
    pb_uint(&mut f, 5, ty);
    if let Some(m) = message {
        pb_str(&mut f, 6, m);
    }
    pb_str(&mut f, 10, name);
    f
}

const PERI_FIELDS: [&str; 9] = [
    "gps",
    "gsm",
    "imu",
    "left_indicator",
    "right_indicator",
    "headlamp",
    "horn",
    "left_brake",
    "right_brake",
];

/// The registry's float-free families as a serialized descriptor set,
/// written out directly in descriptor wire form.
fn can_descriptor_set() -> Vec<u8> {
    let mut can = Vec::new();
    pb_str(&mut can, 1, "can");
    pb_msg(&mut can, 2, &pb_field_descriptor("timestamp", 1, 1, 4, None));
    pb_msg(&mut can, 2, &pb_field_descriptor("sequence", 2, 1, 17, None));
    pb_msg(&mut can, 2, &pb_field_descriptor("data", 3, 1, 4, None));
    let mut can_list = Vec::new();
    pb_str(&mut can_list, 1, "canList");
    pb_msg(&mut can_list, 2, &pb_field_descriptor("messages", 1, 3, 11, Some(".test.can")));
    let mut peri = Vec::new();
    pb_str(&mut peri, 1, "peripherals");
    for (i, name) in PERI_FIELDS.iter().enumerate() {
        pb_msg(&mut peri, 2, &pb_field_descriptor(name, i as u64 + 1, 1, 9, None));
    }
    pb_msg(&mut peri, 2, &pb_field_descriptor("sequence", 10, 1, 17, None));
    pb_msg(&mut peri, 2, &pb_field_descriptor("timestamp", 11, 1, 4, None));
    let mut peri_list = Vec::new();
    pb_str(&mut peri_list, 1, "peripheralsList");
    pb_msg(
        &mut peri_list,
        2,
        &pb_field_descriptor("messages", 1, 3, 11, Some(".test.peripherals")),
    );
    let mut file = Vec::new();
    pb_str(&mut file, 1, "schema.proto");
    pb_str(&mut file, 2, "test");
    pb_msg(&mut file, 4, &can);
    pb_msg(&mut file, 4, &can_list);
    pb_msg(&mut file, 4, &peri);
    pb_msg(&mut file, 4, &peri_list);
    pb_str(&mut file, 12, "proto3");
    let mut set = Vec::new();
    pb_msg(&mut set, 1, &file);
    set
}

fn peri_record(sequence: u32, timestamp: u64) -> Payload {
    let payload: Vec<(String, FieldValue)> = PERI_FIELDS
        .iter()
        .enumerate()
        .map(|(i, name)| {
            (name.to_string(), FieldValue::Str(format!("{name} status {i}")))
        })
        .collect();
    Payload { stream: String::new(), sequence, timestamp, payload }
}

#[test]
fn hundred_can_records_round_trip_through_the_static_codec() {
    let batch: Vec<Payload> = (0..100u32)
        .map(|i| can_record(i + 1, 1000 + i as u64, 0xABCD + i as u64))
        .collect();
    let algo = Algo::Proto("test.canList");
    let (bytes, _t) = algo.serialize(&batch).expect("serialization must succeed");
    let (back, _t) = algo.deserialize(&bytes).expect("deserialization must succeed");
    assert_eq!(back.len(), 100);
    for (a, b) in batch.iter().zip(back.iter()) {
        assert_eq!(a.sequence, b.sequence);
        assert_eq!(a.timestamp, b.timestamp);
        assert_eq!(a.payload, b.payload);
    }
}

#[test]
fn default_values_round_trip_through_the_static_codec() {
    let batch = vec![can_record(0, 0, 0), can_record(4294967295, 18446744073709551615, 1)];
    let algo = Algo::Proto("test.canList");
    let (bytes, _t) = algo.serialize(&batch).unwrap();
    let (back, _t) = algo.deserialize(&bytes).unwrap();
    assert_eq!(back.len(), 2);
    assert_eq!(back[0].sequence, 0);
    assert_eq!(back[0].timestamp, 0);
    assert_eq!(back[1].sequence, 4294967295);
    assert_eq!(back[1].timestamp, 18446744073709551615);
}

#[test]
fn an_unknown_topic_is_fatal_for_the_call() {
    let batch = vec![can_record(1, 1, 1)];
    match Algo::Proto("test.gpsList").serialize(&batch) {
        Err(Error::UnknownTopic(t)) => assert_eq!(t, "test.gpsList"),
        other => panic!("expected an unknown-topic failure, got {:?}", other.map(|p| p.0.len())),
    }
}

#[test]
fn a_missing_required_field_is_fatal_for_the_call() {
    let batch = vec![Payload {
        stream: String::new(),
        sequence: 1,
        timestamp: 1,
        payload: vec![(String::from("speed"), FieldValue::U64(3))],
    }];
    match Algo::Proto("test.canList").serialize(&batch) {
        Err(Error::SchemaMismatch(_)) => {}
        other => panic!("expected a schema mismatch, got {:?}", other.map(|p| p.0.len())),
    }
}

#[test]
fn a_wrongly_typed_field_is_fatal_for_the_call() {
    let batch = vec![Payload {
        stream: String::new(),
        sequence: 1,
        timestamp: 1,
        payload: vec![(String::from("data"), FieldValue::Str(String::from("seven")))],
    }];
    assert!(matches!(
        Algo::Proto("test.canList").serialize(&batch),
        Err(Error::SchemaMismatch(_))
    ));
}

#[test]
fn static_codec_bytes_decode_under_an_independent_schema_reader() {
    let batch = vec![can_record(5, 777, 42), can_record(6, 778, 0)];
    let (bytes, _t) = Algo::Proto("test.canList").serialize(&batch).unwrap();

    let pool = DescriptorPool::decode(can_descriptor_set().as_slice()).unwrap();
    let desc = pool.get_message_by_name("test.canList").unwrap();
    let msg = DynamicMessage::decode(desc, bytes.as_slice()).unwrap();
    let list = msg.get_field_by_name("messages").unwrap();
    let items = list.as_list().unwrap();
    assert_eq!(items.len(), 2);
    let first = items[0].as_message().unwrap();
    assert_eq!(first.get_field_by_name("timestamp").unwrap().as_u64(), Some(777));
    assert_eq!(first.get_field_by_name("sequence").unwrap().as_i32(), Some(5));
    assert_eq!(first.get_field_by_name("data").unwrap().as_u64(), Some(42));
    let second = items[1].as_message().unwrap();
    assert_eq!(second.get_field_by_name("sequence").unwrap().as_i32(), Some(6));
    assert_eq!(second.get_field_by_name("data").unwrap().as_u64(), Some(0));
}

#[test]
fn reflective_encode_matches_an_independent_schema_reader() {
    let pool_bytes = can_descriptor_set();
    let pool = decode_descriptor_pool(&pool_bytes).expect("the descriptor set must decode");
    let batch = vec![can_record(9, 555, 1234567890123)];
    let algo = Algo::ProtoReflect(&pool, "test.canList");
    let (bytes, _t) = algo.serialize(&batch).expect("reflective serialization must succeed");

    let desc = pool.get_message_by_name("test.canList").unwrap();
    let msg = DynamicMessage::decode(desc, bytes.as_slice()).unwrap();
    let list = msg.get_field_by_name("messages").unwrap();
    let items = list.as_list().unwrap();
    assert_eq!(items.len(), 1);
    let first = items[0].as_message().unwrap();
    assert_eq!(first.get_field_by_name("timestamp").unwrap().as_u64(), Some(555));
    assert_eq!(first.get_field_by_name("sequence").unwrap().as_i32(), Some(9));
    assert_eq!(first.get_field_by_name("data").unwrap().as_u64(), Some(1234567890123));
}

#[test]
fn reflective_round_trip_restores_can_records() {
    let pool_bytes = can_descriptor_set();
    let pool = decode_descriptor_pool(&pool_bytes).unwrap();
    let batch = vec![can_record(5, 444, 0), can_record(6, 445, 1234567890123)];
    let algo = Algo::ProtoReflect(&pool, "test.canList");
    let (bytes, _t) = algo.serialize(&batch).expect("reflective serialization must succeed");
    let (back, _t) = algo.deserialize(&bytes).expect("reflective deserialization must succeed");
    assert_eq!(back.len(), batch.len());
    for (a, b) in batch.iter().zip(back.iter()) {
        assert_eq!(a.sequence, b.sequence);
        assert_eq!(a.timestamp, b.timestamp);
        assert_eq!(a.payload, b.payload);
    }
}

#[test]
fn peripherals_round_trip_through_the_static_codec() {
    let batch: Vec<Payload> = (0..20u32).map(|i| peri_record(i + 1, 500 + i as u64)).collect();
    let algo = Algo::Proto("test.peripheralsList");
    let (bytes, _t) = algo.serialize(&batch).expect("serialization must succeed");
    let (back, _t) = algo.deserialize(&bytes).expect("deserialization must succeed");
    assert_eq!(back.len(), batch.len());
    for (a, b) in batch.iter().zip(back.iter()) {
        assert_eq!(a.sequence, b.sequence);
        assert_eq!(a.timestamp, b.timestamp);
        assert_eq!(a.payload, b.payload);
        assert_eq!(b.stream, "");
    }
}

#[test]
fn peripherals_fields_must_be_the_nine_named_strings() {
    let mut bad = peri_record(1, 1);
    bad.payload[3].1 = FieldValue::U64(5);
    match Algo::Proto("test.peripheralsList").serialize(&vec![bad]) {
        Err(Error::SchemaMismatch(_)) => {}
        other => panic!("expected a schema mismatch, got {:?}", other.map(|p| p.0.len())),
    }
    let mut reordered = peri_record(1, 1);
    reordered.payload.swap(0, 1);
    assert!(matches!(
        Algo::Proto("test.peripheralsList").serialize(&vec![reordered]),
        Err(Error::SchemaMismatch(_))
    ));
}

#[test]
fn static_peripherals_bytes_decode_under_an_independent_schema_reader() {
    let batch = vec![peri_record(7, 999)];
    let (bytes, _t) = Algo::Proto("test.peripheralsList").serialize(&batch).unwrap();

    let pool = DescriptorPool::decode(can_descriptor_set().as_slice()).unwrap();
    let desc = pool.get_message_by_name("test.peripheralsList").unwrap();
    let msg = DynamicMessage::decode(desc, bytes.as_slice()).unwrap();
    let list = msg.get_field_by_name("messages").unwrap();
    let items = list.as_list().unwrap();
    assert_eq!(items.len(), 1);
    let first = items[0].as_message().unwrap();
    assert_eq!(first.get_field_by_name("sequence").unwrap().as_i32(), Some(7));
    assert_eq!(first.get_field_by_name("timestamp").unwrap().as_u64(), Some(999));
    for (i, name) in PERI_FIELDS.iter().enumerate() {
        let got = first.get_field_by_name(name).unwrap();
        assert_eq!(got.as_str().unwrap(), format!("{name} status {i}"));
    }
}

#[test]
fn reflective_round_trip_restores_peripherals_records() {
    let pool_bytes = can_descriptor_set();
    let pool = decode_descriptor_pool(&pool_bytes).unwrap();
    let batch = vec![peri_record(3, 300), peri_record(4, 301)];
    let algo = Algo::ProtoReflect(&pool, "test.peripheralsList");
    let (bytes, _t) = algo.serialize(&batch).expect("reflective serialization must succeed");
    let (back, _t) = algo.deserialize(&bytes).expect("reflective deserialization must succeed");
    assert_eq!(back.len(), batch.len());
    for (a, b) in batch.iter().zip(back.iter()) {
        assert_eq!(a.sequence, b.sequence);
        assert_eq!(a.timestamp, b.timestamp);
        assert_eq!(a.payload, b.payload);
    }
}
