//! Round trips of the four compressors, with the topic-tag discipline.

use beamd::compress::Algo;
use beamd::harness::compression_round_trip;

fn all() -> Vec<Algo> {
    vec![Algo::Lz4, Algo::Snappy, Algo::Zlib, Algo::Zstd]
}

#[test]
fn twelve_ascii_bytes_round_trip_under_every_compressor() {
    let buffer: Vec<u8> = "hello, world".bytes().collect();
    assert_eq!(buffer.len(), 12);
    for algo in all() {
        let (bytes, tag) = compression_round_trip(&algo, &buffer, "device/can").unwrap();
        assert_eq!(bytes, buffer);
        assert_eq!(tag, "device/can");
    }
}

#[test]
fn the_empty_buffer_round_trips_under_every_compressor() {
    let buffer: Vec<u8> = Vec::new();
    for algo in all() {
        let (bytes, tag) = compression_round_trip(&algo, &buffer, "t").unwrap();
        assert_eq!(bytes, buffer);
        assert_eq!(tag, "t");
    }
}

#[test]
fn compression_appends_the_algorithm_token_to_the_tag() {
    let cases = vec![
        (Algo::Lz4, "/lz4"),
        (Algo::Snappy, "/snappy"),
        (Algo::Zlib, "/zlib"),
        (Algo::Zstd, "/zstd"),
    ];
    for (algo, token) in cases {
        let mut payload: Vec<u8> = vec![1, 2, 3, 4, 5];
        let mut tag = String::from("dev/can");
        algo.compress(&mut payload, &mut tag).unwrap();
        assert_eq!(tag, format!("dev/can{}", token));
        algo.decompress(&mut payload, &mut tag).unwrap();
        assert_eq!(tag, "dev/can");
        assert_eq!(payload, vec![1, 2, 3, 4, 5]);
    }
}

#[test]
fn decompression_leaves_a_tag_without_the_token_unchanged() {
    let mut payload: Vec<u8> = vec![9, 9, 9];
    let mut tag = String::from("dev/can");
    Algo::Lz4.compress(&mut payload, &mut tag).unwrap();
    // Strip against a different algorithm name: the bytes are garbage for
    // it, so the call fails and both arguments stay as they were.
    let mut wrong_tag = String::from("plain");
    let mut copy = payload.clone();
    assert!(Algo::Zstd.decompress(&mut copy, &mut wrong_tag).is_err());
    assert_eq!(wrong_tag, "plain");
    assert_eq!(copy, payload);
}

#[test]
fn truncated_input_is_a_decompression_error() {
    let mut payload: Vec<u8> = "some reasonably compressible text text text".bytes().collect();
    let mut tag = String::from("t");
    Algo::Zstd.compress(&mut payload, &mut tag).unwrap();
    payload.truncate(payload.len() / 2);
    assert!(Algo::Zstd.decompress(&mut payload, &mut tag).is_err());
    assert_eq!(tag, "t/zstd");
}

#[test]
fn a_corrupted_header_is_a_decompression_error() {
    let mut payload: Vec<u8> = "some reasonably compressible text text text".bytes().collect();
    let mut tag = String::from("t");
    Algo::Zlib.compress(&mut payload, &mut tag).unwrap();
    payload[0] = payload[0].wrapping_add(1);
    payload[1] = payload[1].wrapping_add(1);
    assert!(Algo::Zlib.decompress(&mut payload, &mut tag).is_err());
    assert_eq!(tag, "t/zlib");
}

#[test]
fn compression_shrinks_a_repetitive_buffer() {
    let buffer: Vec<u8> = std::iter::repeat(7u8).take(4096).collect();
    for algo in all() {
        let mut payload = buffer.clone();
        let mut tag = String::from("t");
        algo.compress(&mut payload, &mut tag).unwrap();
        assert!(payload.len() < buffer.len());
    }
}
