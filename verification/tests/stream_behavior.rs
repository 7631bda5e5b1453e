//! Batching and anomaly-detection behavior of the per-topic stream.

use beamd::base::{Buffer, FieldValue, Payload, Stream};

fn record(sequence: u32, timestamp: u64) -> Payload {
    Payload {
        stream: String::new(),
        sequence,
        timestamp,
        payload: vec![(String::from("data"), FieldValue::U64(1))],
    }
}

#[test]
fn batch_flushes_after_exactly_max_batch_size_appends() {
    let (tx, _rx) = flume::bounded(10);
    let mut stream = Stream::new(String::from("s"), String::from("can"), 4, tx);
    for i in 0..3u32 {
        let ready = stream.add(record(i + 1, 10 + i as u64)).unwrap();
        assert!(ready.is_none());
    }
    let ready = stream.add(record(4, 13)).unwrap();
    let batch = ready.expect("the fourth append must hand the batch off");
    assert_eq!(batch.buffer.len(), 4);
    for (i, p) in batch.buffer.iter().enumerate() {
        assert_eq!(p.sequence, i as u32 + 1);
    }
    // The very next append starts a fresh, empty batch.
    let ready = stream.add(record(5, 14)).unwrap();
    assert!(ready.is_none());
    assert_eq!(stream.buffer.buffer.len(), 1);
    assert_eq!(stream.buffer.anomaly_count, 0);
}

#[test]
fn sequence_regression_is_counted_and_described() {
    let (tx, _rx) = flume::bounded(10);
    let mut stream = Stream::new(String::from("dev0"), String::from("can"), 100, tx);
    stream.add(record(5, 100)).unwrap();
    assert_eq!(stream.buffer.anomaly_count, 0);
    stream.add(record(3, 101)).unwrap();
    assert_eq!(stream.buffer.anomaly_count, 1);
    assert_eq!(stream.buffer.anomalies, "dev0.sequence: 5, 3");
}

#[test]
fn timestamp_regression_is_counted_and_described() {
    let (tx, _rx) = flume::bounded(10);
    let mut stream = Stream::new(String::from("dev0"), String::from("can"), 100, tx);
    stream.add(record(1, 100)).unwrap();
    stream.add(record(2, 50)).unwrap();
    assert_eq!(stream.buffer.anomaly_count, 1);
    assert_eq!(stream.buffer.anomalies, "timestamp: 100, 50");
}

#[test]
fn first_record_with_sequence_zero_fires_the_boundary_anomaly() {
    let (tx, _rx) = flume::bounded(10);
    let mut stream = Stream::new(String::from("dev0"), String::from("can"), 100, tx);
    stream.add(record(0, 1)).unwrap();
    assert_eq!(stream.buffer.anomaly_count, 1);
}

#[test]
fn anomaly_text_stops_growing_at_the_cap_while_the_count_keeps_counting() {
    let mut buffer: Buffer<Payload> =
        Buffer::new(String::from("a-rather-long-stream-name"), String::from("can"));
    let mut last_len = 0;
    for i in 0..50u32 {
        buffer.add_sequence_anomaly(i + 1, i);
        last_len = buffer.anomalies.chars().count();
    }
    assert_eq!(buffer.anomaly_count, 50);
    assert!(last_len >= 100);
    let frozen = buffer.anomalies.clone();
    buffer.add_sequence_anomaly(99, 98);
    buffer.add_timestamp_anomaly(99, 98);
    assert_eq!(buffer.anomaly_count, 52);
    assert_eq!(buffer.anomalies, frozen);
}

#[test]
fn anomalies_reports_text_and_count_only_when_text_was_recorded() {
    let mut buffer: Buffer<Payload> = Buffer::new(String::from("s"), String::from("t"));
    assert!(buffer.anomalies().is_none());
    buffer.add_timestamp_anomaly(7, 3);
    let (text, count) = buffer.anomalies().unwrap();
    assert_eq!(text, "timestamp: 7, 3");
    assert_eq!(count, 1);
}

#[test]
fn three_records() {
    // Sequences [5, 3, 10] and timestamps [100, 100, 50] into a stream with
    // a batch size of 3: one sequence anomaly, one timestamp anomaly, and a
    // flush on the third append.
    let (tx, rx) = flume::bounded(10);
    let mut stream = Stream::new(String::from("dev"), String::from("can"), 3, tx);
    stream.fill(record(5, 100)).unwrap();
    stream.fill(record(3, 100)).unwrap();
    stream.fill(record(10, 50)).unwrap();
    let batch = rx.try_recv().expect("the third append must flush");
    assert_eq!(batch.buffer.len(), 3);
    assert_eq!(batch.anomaly_count, 2);
    assert!(batch.anomalies.contains("dev.sequence: 5, 3"));
    assert!(batch.anomalies.contains("timestamp: 100, 50"));
    assert_eq!(stream.buffer.buffer.len(), 0);
}

#[test]
fn fill_hands_the_batch_back_when_every_receiver_is_gone() {
    let (tx, rx) = flume::bounded(10);
    drop(rx);
    let mut stream = Stream::new(String::from("dev"), String::from("can"), 1, tx);
    match stream.fill(record(1, 1)) {
        Err(beamd::base::Error::Send(batch)) => {
            assert_eq!(batch.buffer.len(), 1);
            assert_eq!(batch.buffer[0].sequence, 1);
        }
        other => panic!("expected the batch back, got {:?}", other),
    }
}

#[test]
fn cloned_stream_starts_fresh_but_shares_the_channel() {
    let (tx, rx) = flume::bounded(10);
    let mut stream = Stream::new(String::from("dev"), String::from("can"), 1, tx);
    stream.add(record(9, 9)).unwrap();
    let mut copy = stream.clone();
    assert_eq!(copy.last_sequence, 0);
    assert_eq!(copy.last_timestamp, 0);
    assert_eq!(copy.buffer.buffer.len(), 0);
    assert_eq!(copy.name, "dev");
    copy.fill(record(1, 1)).unwrap();
    let batch = rx.try_recv().expect("the clone feeds the same channel");
    assert_eq!(batch.buffer.len(), 1);
}

#[test]
fn default_flush_period_is_advisory_sixty_seconds() {
    let (tx, _rx) = flume::bounded(10);
    let stream = Stream::new(String::from("s"), String::from("t"), 2, tx);
    assert_eq!(stream.flush_period, beamd::base::DEFAULT_TIMEOUT);
    assert_eq!(beamd::base::DEFAULT_TIMEOUT, 60);
}
