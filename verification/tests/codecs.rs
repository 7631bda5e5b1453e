//! Round trips and failure modes of the codec dispatcher.

use beamd::base::{FieldValue, Payload};
use beamd::serialization::{Algo, Error};

fn mixed_batch() -> Vec<Payload> {
    vec![
        Payload {
            stream: String::new(),
            sequence: 1,
            timestamp: 1000,
            payload: vec![
                (String::from("count"), FieldValue::U64(18446744073709551615)),
                (String::from("delta"), FieldValue::I64(-42)),
                (String::from("ok"), FieldValue::Bool(true)),
                (String::from("mode"), FieldValue::Str(String::from("eco drive"))),
            ],
        },
        Payload {
            stream: String::new(),
            sequence: 2,
            timestamp: 999,
            payload: vec![
                (String::from("count"), FieldValue::U64(0)),
                (String::from("off"), FieldValue::Bool(false)),
            ],
        },
    ]
}

fn i64_sized_batch() -> Vec<Payload> {
    vec![Payload {
        stream: String::new(),
        sequence: 7,
        timestamp: 123456789,
        payload: vec![
            (String::from("count"), FieldValue::U64(9007199254740993)),
            (String::from("delta"), FieldValue::I64(i64::MIN)),
            (String::from("tag"), FieldValue::Str(String::from("x"))),
        ],
    }]
}

fn assert_round_trip(algo: &Algo, batch: &Vec<Payload>) {
    let (bytes, _t) = algo.serialize(batch).expect("serialization must succeed");
    let (back, _t) = algo.deserialize(&bytes).expect("deserialization must succeed");
    assert_eq!(back.len(), batch.len());
    for (a, b) in batch.iter().zip(back.iter()) {
        assert_eq!(a.sequence, b.sequence);
        assert_eq!(a.timestamp, b.timestamp);
        assert_eq!(a.payload, b.payload);
        // The stream name is not on the wire; it comes back empty.
        assert_eq!(b.stream, "");
    }
}

#[test]
fn json_round_trip_restores_the_records() {
    assert_round_trip(&Algo::Json, &mixed_batch());
}

#[test]
fn json_round_trip_of_an_empty_batch() {
    assert_round_trip(&Algo::Json, &vec![]);
}

#[test]
fn cbor_round_trip_restores_the_records() {
    assert_round_trip(&Algo::Cbor, &mixed_batch());
}

#[test]
fn messagepack_round_trip_restores_the_records() {
    assert_round_trip(&Algo::MessagePack, &mixed_batch());
}

#[test]
fn pickle_round_trip_restores_the_records() {
    assert_round_trip(&Algo::Pickle, &i64_sized_batch());
}

#[test]
fn pickle_rejects_an_unsigned_value_above_the_signed_range_on_the_way_back() {
    let batch = vec![Payload {
        stream: String::new(),
        sequence: 1,
        timestamp: 1,
        payload: vec![(String::from("count"), FieldValue::U64(18446744073709551615))],
    }];
    let (bytes, _t) = Algo::Pickle.serialize(&batch).unwrap();
    assert!(Algo::Pickle.deserialize(&bytes).is_err());
}

#[test]
fn bson_round_trip_restores_the_records() {
    assert_round_trip(&Algo::Bson, &i64_sized_batch());
}

#[test]
fn bson_rejects_an_unsigned_value_above_the_signed_range() {
    let batch = vec![Payload {
        stream: String::new(),
        sequence: 1,
        timestamp: 1,
        payload: vec![(String::from("count"), FieldValue::U64(9300000000000000000))],
    }];
    match Algo::Bson.serialize(&batch) {
        Err(Error::BsonSer(_)) => {}
        other => panic!("expected a size failure, got {:?}", other.map(|p| p.0.len())),
    }
}

#[test]
fn json_wire_shape_is_the_documented_text_form() {
    let batch = vec![Payload {
        stream: String::new(),
        sequence: 3,
        timestamp: 9,
        payload: vec![
            (String::from("data"), FieldValue::U64(77)),
            (String::from("mode"), FieldValue::Str(String::from("on"))),
        ],
    }];
    let (bytes, _t) = Algo::Json.serialize(&batch).unwrap();
    assert_eq!(
        String::from_utf8(bytes).unwrap(),
        "[{\"sequence\":3,\"timestamp\":9,\"data\":77,\"mode\":\"on\"}]"
    );
}

#[test]
fn a_key_clashing_with_a_fixed_field_name_is_rejected() {
    let batch = vec![Payload {
        stream: String::new(),
        sequence: 1,
        timestamp: 1,
        payload: vec![(String::from("sequence"), FieldValue::U64(2))],
    }];
    match Algo::Json.serialize(&batch) {
        Err(Error::Json(_)) => {}
        other => panic!("expected a rejection, got {:?}", other.map(|p| p.0.len())),
    }
}

#[test]
fn a_string_needing_escapes_is_rejected() {
    let batch = vec![Payload {
        stream: String::new(),
        sequence: 1,
        timestamp: 1,
        payload: vec![(String::from("mode"), FieldValue::Str(String::from("a\"b")))],
    }];
    assert!(Algo::Json.serialize(&batch).is_err());
}

#[test]
fn a_duplicate_key_is_rejected() {
    let batch = vec![Payload {
        stream: String::new(),
        sequence: 1,
        timestamp: 1,
        payload: vec![
            (String::from("x"), FieldValue::U64(1)),
            (String::from("x"), FieldValue::U64(2)),
        ],
    }];
    assert!(Algo::Json.serialize(&batch).is_err());
}

#[test]
fn garbage_bytes_do_not_deserialize() {
    assert!(Algo::Json.deserialize(&vec![1, 2, 3]).is_err());
    assert!(Algo::Cbor.deserialize(&vec![1, 2, 3]).is_err());
    assert!(Algo::MessagePack.deserialize(&vec![0xc1]).is_err());
    assert!(Algo::Bson.deserialize(&vec![5, 0, 0]).is_err());
}

#[test]
fn codec_labels_are_stable() {
    assert_eq!(Algo::Json.label(), "Json");
    assert_eq!(Algo::Bson.label(), "Bson");
    assert_eq!(Algo::Cbor.label(), "Cbor");
    assert_eq!(Algo::MessagePack.label(), "MessagePack");
    assert_eq!(Algo::Pickle.label(), "Pickle");
    assert_eq!(Algo::Proto("test.canList").label(), "Proto: test.canList");
}

#[test]
fn fixed_fields_are_accepted_in_any_member_order() {
    let bytes: Vec<u8> = "[{\"timestamp\":9,\"data\":77,\"sequence\":3}]".bytes().collect();
    let (back, _t) = Algo::Json.deserialize(&bytes).unwrap();
    assert_eq!(back.len(), 1);
    assert_eq!(back[0].sequence, 3);
    assert_eq!(back[0].timestamp, 9);
    assert_eq!(back[0].payload, vec![(String::from("data"), FieldValue::U64(77))]);
}
