//! The measurement harness: drives one batch through every codec and, for
//! each serialized form, through every compressor, timing each step and
//! holding the compressors to their round-trip guarantee.

use vstd::prelude::*;
use vstd::string::StringExecFns;

use crate::base::{records_model, Payload};
use crate::compress;
use crate::compress::lemma_strip_appended_token;
use crate::serialization;
use crate::serialization::proto::{proto_supported, proto_wire_of};
use crate::serialization::text::{json_of_records, json_of_records_wrapped, valid_records};
use crate::serialization::transcode::{bson_of, cbor_of, i64_sized_records, msgpack_of, pickle_of};
use crate::serialization::Algo;

verus! {

/// A failure of one (codec, compressor) combination; other combinations go
/// on unaffected.
#[derive(Debug)]
pub enum Error {
    Compression(compress::Error),
    Serialization(serialization::Error),
    /// Decompressed bytes that differ from what went in: a correctness bug
    /// in a compressor, never recoverable.
    RoundTrip(String),
}

/// The measurements of one compressor over one serialized form.
#[derive(Debug)]
pub struct CompressionRow {
    pub compression_time: u128,
    pub compressed_len: usize,
    pub decompression_time: u128,
}

/// The measurements of one codec over one batch, with one entry per
/// compressor.
#[derive(Debug)]
pub struct CodecRow {
    pub codec: String,
    pub serialization_time: u128,
    pub serialized_len: usize,
    pub compressions: Vec<CompressionRow>,
    pub deserialization_time: u128,
}

/// A verified byte-for-byte copy.
fn copy_bytes(v: &Vec<u8>) -> (r: Vec<u8>)
    ensures
        r@ == v@,
{
    let mut out: Vec<u8> = Vec::new();
    let mut i: usize = 0;
    while i < v.len()
        invariant
            i <= v@.len(),
            out@ =~= v@.subrange(0, i as int),
        decreases v@.len() - i,
    {
        out.push(v[i]);
        i = i + 1;
    }
    proof {
        assert(out@ =~= v@);
    }
    out
}

/// Compresses and then decompresses a buffer with one algorithm: both steps
/// go through, and the bytes and the tag come back exactly as they were,
/// whatever they held.
pub fn compression_round_trip(algo: &compress::Algo, payload: &Vec<u8>, tag: &str) -> (r: Result<
    (Vec<u8>, String),
    Error,
>)
    ensures
        r matches Ok(p) && p.0@ == payload@ && p.1@ == tag@,
{
    let mut work: Vec<u8> = copy_bytes(payload);
    let mut work_tag: String = tag.to_owned();
    match algo.compress(&mut work, &mut work_tag) {
        Ok(_) => (),
        Err(e) => {
            return Err(Error::Compression(e));
        },
    }
    match algo.decompress(&mut work, &mut work_tag) {
        Ok(_) => (),
        Err(e) => {
            return Err(Error::Compression(e));
        },
    }
    proof {
        assert(work@ == payload@);
        compress::lemma_token_nonempty(*algo);
        lemma_strip_appended_token(tag@, algo.token());
        assert(work_tag@ == tag@);
    }
    Ok((work, work_tag))
}

/// Times one compressor over one serialized form: compression time, the
/// compressed size, decompression time.  The decompressed bytes are checked
/// against what went in; their equality is guaranteed by the compressor
/// contracts, so the call always succeeds and the mismatch exit is dead.
pub fn measure_compression(
    algo: &compress::Algo,
    original_payload: &Vec<u8>,
    original_topic: &str,
) -> (r: Result<(u128, usize, u128), Error>)
    ensures
        r matches Ok(t) && t.1 == algo.frame_of(original_payload@).len(),
{
    let mut compressed_payload: Vec<u8> = copy_bytes(original_payload);
    let mut compressed_topic: String = original_topic.to_owned();
    let compression_time: u128 = match algo.compress(
        &mut compressed_payload,
        &mut compressed_topic,
    ) {
        Ok(t) => t,
        Err(e) => {
            return Err(Error::Compression(e));
        },
    };
    let compressed_len: usize = compressed_payload.len();

    let mut decompressed_payload: Vec<u8> = copy_bytes(&compressed_payload);
    let mut decompressed_topic: String = compressed_topic.clone();
    let decompression_time: u128 = match algo.decompress(
        &mut decompressed_payload,
        &mut decompressed_topic,
    ) {
        Ok(t) => t,
        Err(e) => {
            return Err(Error::Compression(e));
        },
    };

    proof {
        assert(decompressed_payload@ == original_payload@);
    }
    let restored: bool = decompressed_payload == *original_payload;
    proof {
        assert(restored);
    }
    if !restored {
        return Err(
            Error::RoundTrip(String::from_str("decompressed bytes differ from the original")),
        );
    }

    Ok((compression_time, compressed_len, decompression_time))
}

/// Serializes a batch with one codec and feeds the bytes straight back:
/// for every batch the codec supports, both steps succeed and the records
/// come back exactly, the `stream` name aside, which is not on the wire.
pub fn codec_round_trip(algo: &Algo, payload: &Vec<Payload>) -> (r: Result<Vec<Payload>, Error>)
    ensures
        algo.supports(records_model(payload@)) ==> (r matches Ok(v) && records_model(v@)
            == records_model(payload@)),
{
    let (bytes, _t) = match algo.serialize(payload) {
        Ok(p) => p,
        Err(e) => {
            return Err(Error::Serialization(e));
        },
    };
    match algo.deserialize(&bytes) {
        Ok(p) => Ok(p.0),
        Err(e) => Err(Error::Serialization(e)),
    }
}

/// Times one codec over one batch, and each of the four compressors over
/// the serialized form.  An accepted row always describes the codec's wire
/// form of the batch.
pub fn measure_codec(algo: &Algo, payload: &Vec<Payload>, topic: &str) -> (r: Result<
    CodecRow,
    Error,
>)
    ensures
        algo.supports(records_model(payload@)) ==> r is Ok,
        !(algo matches Algo::Proto(_)) && !valid_records(records_model(payload@)) ==> r is Err,
        r matches Ok(row) ==> row.compressions@.len() == 4,
        !(algo matches Algo::ProtoReflect(_, _)) ==> (r matches Ok(row) ==> {
            let wire = algo.wire_of(records_model(payload@));
            &&& row.serialized_len == wire.len()
            &&& row.compressions@[0].compressed_len == compress::lz4_frame_of(wire).len()
            &&& row.compressions@[1].compressed_len == compress::snap_frame_of(wire).len()
            &&& row.compressions@[2].compressed_len == compress::zlib_frame_of(wire).len()
            &&& row.compressions@[3].compressed_len == compress::zstd_frame_of(wire).len()
        }),
{
    let codec: String = algo.label();
    let (serialized_payload, serialization_time) = match algo.serialize(payload) {
        Ok(p) => p,
        Err(e) => {
            return Err(Error::Serialization(e));
        },
    };
    let serialized_len: usize = serialized_payload.len();

    let mut compressions: Vec<CompressionRow> = Vec::new();
    let (t0, l0, d0) = match measure_compression(&compress::Algo::Lz4, &serialized_payload, topic) {
        Ok(t) => t,
        Err(e) => {
            return Err(e);
        },
    };
    compressions.push(
        CompressionRow { compression_time: t0, compressed_len: l0, decompression_time: d0 },
    );
    let (t1, l1, d1) = match measure_compression(
        &compress::Algo::Snappy,
        &serialized_payload,
        topic,
    ) {
        Ok(t) => t,
        Err(e) => {
            return Err(e);
        },
    };
    compressions.push(
        CompressionRow { compression_time: t1, compressed_len: l1, decompression_time: d1 },
    );
    let (t2, l2, d2) = match measure_compression(
        &compress::Algo::Zlib,
        &serialized_payload,
        topic,
    ) {
        Ok(t) => t,
        Err(e) => {
            return Err(e);
        },
    };
    compressions.push(
        CompressionRow { compression_time: t2, compressed_len: l2, decompression_time: d2 },
    );
    let (t3, l3, d3) = match measure_compression(
        &compress::Algo::Zstd,
        &serialized_payload,
        topic,
    ) {
        Ok(t) => t,
        Err(e) => {
            return Err(e);
        },
    };
    compressions.push(
        CompressionRow { compression_time: t3, compressed_len: l3, decompression_time: d3 },
    );

    let deserialization_time: u128 = match algo.deserialize(&serialized_payload) {
        Ok(p) => p.1,
        Err(e) => {
            return Err(Error::Serialization(e));
        },
    };

    Ok(
        CodecRow {
            codec,
            serialization_time,
            serialized_len,
            compressions,
            deserialization_time,
        },
    )
}

/// Drives one batch through the whole codec matrix, one row per codec, in a
/// fixed order; a codec's failure only costs its own row.
pub fn measure(
    pool: &prost_reflect::DescriptorPool,
    topic: &str,
    payload: &Vec<Payload>,
) -> (r: Vec<Result<CodecRow, Error>>)
    ensures
        r@.len() == 7,
        ({
            let rs = records_model(payload@);
            &&& (valid_records(rs) ==> r@[0] is Ok && r@[3] is Ok && r@[5] is Ok)
            &&& (valid_records(rs) && i64_sized_records(rs) ==> r@[4] is Ok && r@[6] is Ok)
            &&& (proto_supported("test."@ + topic@ + "List"@, rs) ==> r@[1] is Ok)
            &&& (!valid_records(rs) ==> r@[2] is Err)
            &&& (r@[0] matches Ok(row) ==> row.serialized_len == json_of_records(rs).len())
            &&& (r@[1] matches Ok(row) ==> row.serialized_len == proto_wire_of(
                "test."@ + topic@ + "List"@,
                rs,
            ).len())
            &&& (r@[3] matches Ok(row) ==> row.serialized_len == msgpack_of(
                json_of_records(rs),
            ).len())
            &&& (r@[4] matches Ok(row) ==> row.serialized_len == bson_of(
                json_of_records_wrapped(rs),
            ).len())
            &&& (r@[5] matches Ok(row) ==> row.serialized_len == cbor_of(
                json_of_records(rs),
            ).len())
            &&& (r@[6] matches Ok(row) ==> row.serialized_len == pickle_of(
                json_of_records(rs),
            ).len())
        }),
{
    let mut stream: String = String::from_str("test.");
    stream.append(topic);
    stream.append("List");

    let mut rows: Vec<Result<CodecRow, Error>> = Vec::new();
    rows.push(measure_codec(&Algo::Json, payload, topic));
    rows.push(measure_codec(&Algo::Proto(stream.as_str()), payload, topic));
    rows.push(measure_codec(&Algo::ProtoReflect(pool, stream.as_str()), payload, topic));
    rows.push(measure_codec(&Algo::MessagePack, payload, topic));
    rows.push(measure_codec(&Algo::Bson, payload, topic));
    rows.push(measure_codec(&Algo::Cbor, payload, topic));
    rows.push(measure_codec(&Algo::Pickle, payload, topic));
    rows
}

} // verus!
