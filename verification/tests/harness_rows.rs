//! The measurement harness over a real batch: one row per codec, with the
//! per-combination failures isolated.

use beamd::base::{FieldValue, Payload};
use beamd::harness::{codec_round_trip, measure, measure_codec};
use beamd::serialization::Algo;

fn can_record(sequence: u32, timestamp: u64, data: u64) -> Payload {
    Payload {
        stream: String::new(),
        sequence,
        timestamp,
        payload: vec![(String::from("data"), FieldValue::U64(data))],
    }
}

fn pb_varint(out: &mut Vec<u8>, mut x: u64) {
    loop {
        let b = (x & 0x7f) as u8;
        x >>= 7;
        if x == 0 {
            out.push(b);
            break;
        }
        out.push(b | 0x80);
    }
}

fn pb_str(out: &mut Vec<u8>, field: u64, s: &str) {
    pb_varint(out, (field << 3) | 2);
    pb_varint(out, s.len() as u64);
    out.extend_from_slice(s.as_bytes());
}

fn pb_uint(out: &mut Vec<u8>, field: u64, v: u64) {
    pb_varint(out, field << 3);
    pb_varint(out, v);
}

fn pb_msg(out: &mut Vec<u8>, field: u64, body: &[u8]) {
    pb_varint(out, (field << 3) | 2);
    pb_varint(out, body.len() as u64);
    out.extend_from_slice(body);
}

fn pb_field_descriptor(name: &str, number: u64, label: u64, ty: u64, message: Option<&str>) -> Vec<u8> {
    let mut f = Vec::new();
    pb_str(&mut f, 1, name);
    pb_uint(&mut f, 3, number);
    pb_uint(&mut f, 4, label);
    pb_uint(&mut f, 5, ty);
    if let Some(m) = message {
        pb_str(&mut f, 6, m);
    }
    pb_str(&mut f, 10, name);
    f
}

/// The registry's `can` family as a serialized descriptor set, written out
/// directly in descriptor wire form.
fn can_descriptor_set() -> Vec<u8> {
    let mut can = Vec::new();
    pb_str(&mut can, 1, "can");
    pb_msg(&mut can, 2, &pb_field_descriptor("timestamp", 1, 1, 4, None));
    pb_msg(&mut can, 2, &pb_field_descriptor("sequence", 2, 1, 17, None));
    pb_msg(&mut can, 2, &pb_field_descriptor("data", 3, 1, 4, None));
    let mut can_list = Vec::new();
    pb_str(&mut can_list, 1, "canList");
    pb_msg(&mut can_list, 2, &pb_field_descriptor("messages", 1, 3, 11, Some(".test.can")));
    let mut file = Vec::new();
    pb_str(&mut file, 1, "schema.proto");
    pb_str(&mut file, 2, "test");
    pb_msg(&mut file, 4, &can);
    pb_msg(&mut file, 4, &can_list);
    pb_str(&mut file, 12, "proto3");
    let mut set = Vec::new();
    pb_msg(&mut set, 1, &file);
    set
}

fn can_pool() -> prost_reflect::DescriptorPool {
    prost_reflect::DescriptorPool::decode(can_descriptor_set().as_slice()).unwrap()
}

#[test]
fn measure_emits_seven_rows_in_a_stable_order() {
    let pool = can_pool();
    let batch: Vec<Payload> = (0..10u32).map(|i| can_record(i + 1, 100 + i as u64, i as u64)).collect();
    let rows = measure(&pool, "can", &batch);
    assert_eq!(rows.len(), 7);
    let labels: Vec<&str> = vec![
        "Json",
        "Proto: test.canList",
        "ProtoBuf: test.canList",
        "MessagePack",
        "Bson",
        "Cbor",
        "Pickle",
    ];
    for (row, label) in rows.iter().zip(labels.iter()) {
        if let Ok(row) = row {
            assert_eq!(row.codec, *label);
            assert!(row.serialized_len > 0);
            assert_eq!(row.compressions.len(), 4);
            for c in row.compressions.iter() {
                assert!(c.compressed_len > 0);
            }
        }
    }
    // Every codec with a promised round trip must have produced its row,
    // and the reflective codec's bridge carries this registry's layout too.
    assert!(rows[0].is_ok(), "the text codec row failed");
    assert!(rows[2].is_ok(), "the reflective binary-schema row failed");
    assert!(rows[1].is_ok(), "the static binary-schema row failed");
    assert!(rows[3].is_ok(), "the compact binary map row failed");
    assert!(rows[4].is_ok(), "the self-describing binary row failed");
    assert!(rows[5].is_ok(), "the type-tagged binary row failed");
    assert!(rows[6].is_ok(), "the language-native object row failed");
}

#[test]
fn a_codec_failure_costs_only_its_own_row() {
    let pool = can_pool();
    // A payload the schema-bound codec rejects, while the schema-less
    // codecs go on fine.
    let batch = vec![Payload {
        stream: String::new(),
        sequence: 1,
        timestamp: 1,
        payload: vec![(String::from("speed"), FieldValue::U64(3))],
    }];
    let rows = measure(&pool, "can", &batch);
    assert_eq!(rows.len(), 7);
    assert!(rows[0].is_ok());
    assert!(rows[1].is_err(), "the schema-bound codec must reject this payload");
    assert!(rows[3].is_ok());
}

#[test]
fn a_codec_row_reports_the_serialized_and_compressed_sizes() {
    let batch: Vec<Payload> = (0..5u32).map(|i| can_record(i, i as u64, 7)).collect();
    let row = measure_codec(&Algo::Json, &batch, "can").unwrap();
    let (bytes, _t) = Algo::Json.serialize(&batch).unwrap();
    assert_eq!(row.serialized_len, bytes.len());
    assert_eq!(row.compressions.len(), 4);
}

#[test]
fn supported_codecs_round_trip_through_the_harness_helper() {
    let batch: Vec<Payload> = (0..3u32).map(|i| can_record(i + 1, 50 + i as u64, 9 * i as u64)).collect();
    let algos = vec![
        Algo::Json,
        Algo::MessagePack,
        Algo::Cbor,
        Algo::Pickle,
        Algo::Bson,
        Algo::Proto("test.canList"),
    ];
    for algo in algos.iter() {
        let back = codec_round_trip(algo, &batch).expect("a supported batch must round-trip");
        assert_eq!(back.len(), batch.len());
        for (a, b) in batch.iter().zip(back.iter()) {
            assert_eq!(a.sequence, b.sequence);
            assert_eq!(a.timestamp, b.timestamp);
            assert_eq!(a.payload, b.payload);
        }
    }
}

#[test]
fn measure_covers_the_peripherals_topic_too() {
    // The pool here registers only the all-integer family, so the
    // reflective row may fail; it must not cost the static row.
    let pool = can_pool();
    let names = [
        "gps",
        "gsm",
        "imu",
        "left_indicator",
        "right_indicator",
        "headlamp",
        "horn",
        "left_brake",
        "right_brake",
    ];
    let batch: Vec<Payload> = (0..4u32)
        .map(|i| Payload {
            stream: String::new(),
            sequence: i + 1,
            timestamp: 40 + i as u64,
            payload: names
                .iter()
                .map(|n| (n.to_string(), FieldValue::Str(format!("{n} ok"))))
                .collect(),
        })
        .collect();
    let rows = measure(&pool, "peripherals", &batch);
    assert_eq!(rows.len(), 7);
    assert!(rows[0].is_ok());
    assert!(rows[1].is_ok(), "the static binary-schema row must cover the peripherals layout");
    assert!(rows[3].is_ok());
}
