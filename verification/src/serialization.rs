//! The codec dispatcher: a closed set of interchangeable serialization
//! strategies that turn a batch of records into bytes and back.

pub mod proto;
pub mod reflect;
pub mod text;
pub mod transcode;

use vstd::prelude::*;
use vstd::string::StringExecFns;

use crate::base::{records_model, Payload, RecordModel};
use crate::clock;
use crate::serialization::proto::{proto_supported, proto_wire_of};
use crate::serialization::reflect::{reflect_decode, reflect_encode};
use crate::serialization::text::{
    deserialize_records, deserialize_records_wrapped, json_of_records, json_of_records_wrapped,
    serialize_records, serialize_records_wrapped, valid_records,
};
use crate::serialization::transcode::{
    bson_from_json, bson_of, canonical_json, canonical_sized_json, canonical_wrapped_json,
    cbor_from_json, cbor_of, i64_sized_records, json_from_bson, json_from_cbor,
    json_from_msgpack, json_from_pickle, msgpack_from_json, msgpack_of, pickle_from_json,
    pickle_of,
};

verus! {

/// A serialization failure, fatal for the single call that saw it.
#[derive(Debug)]
pub enum Error {
    /// An I/O-style failure inside a coder.
    Io(String),
    /// A failure from the self-describing binary coder, encode side.
    BsonSer(String),
    /// A failure from the self-describing binary coder, decode side.
    BsonDe(String),
    /// A failure from the type-tagged binary coder, encode side.
    CiboriumSer(String),
    /// A failure from the type-tagged binary coder, decode side.
    CiboriumDe(String),
    /// A failure in the structured-text form: a document that the text
    /// format cannot carry, or bytes that are not a batch rendering.
    Json(String),
    /// A failure from the language-native object coder.
    Pickle(String),
    /// A failure from the compact binary map coder, encode side.
    RmpEncode(String),
    /// A failure from the compact binary map coder, decode side.
    RmpDecode(String),
    /// A schema-pool lookup failure of the reflective binary-schema coder.
    ProstDescriptor(String),
    /// A failure from the binary-schema coders, encode side.
    ProstEncode(String),
    /// A failure from the binary-schema coders, decode side.
    ProstDecode(String),
    /// A payload is missing a field the target schema requires, or holds it
    /// with the wrong type.
    SchemaMismatch(String),
    /// A schema-bound codec was asked for a topic outside its fixed set.
    UnknownTopic(String),
}


/// The closed set of interchangeable serialization strategies.
#[derive(Debug, Clone)]
pub enum Algo<'a> {
    /// The self-describing binary format.
    Bson,
    /// The type-tagged binary format.
    Cbor,
    /// The human-readable structured-text format.
    Json,
    /// The compact binary map format.
    MessagePack,
    /// The language-native object format.
    Pickle,
    /// The static binary-schema format, keyed by the message type name.
    Proto(&'a str),
    /// The reflective binary-schema format: a schema pool and the fully
    /// qualified message name to look up in it.
    ProtoReflect(&'a prost_reflect::DescriptorPool, &'a str),
}

impl<'a> Algo<'a> {
    /// The wire form this codec produces for a batch.  The reflective
    /// variant's bytes are not modelled (its dynamic coder is not a
    /// function of its arguments for every pool), so no contract speaks of
    /// them; its arm here is a placeholder that nothing relies on.
    pub open spec fn wire_of(self, rs: Seq<RecordModel>) -> Seq<u8> {
        match self {
            Algo::Bson => bson_of(json_of_records_wrapped(rs)),
            Algo::Cbor => cbor_of(json_of_records(rs)),
            Algo::Json => json_of_records(rs),
            Algo::MessagePack => msgpack_of(json_of_records(rs)),
            Algo::Pickle => pickle_of(json_of_records(rs)),
            Algo::Proto(t) => proto_wire_of(t@, rs),
            Algo::ProtoReflect(_, _) => Seq::<u8>::empty(),
        }
    }

    /// The batches this codec is promised to carry and to restore.  The
    /// reflective codec promises nothing here: what it restores depends on
    /// the schema pool it was handed.
    pub open spec fn supports(self, rs: Seq<RecordModel>) -> bool {
        match self {
            Algo::Bson => valid_records(rs) && i64_sized_records(rs),
            Algo::Cbor => valid_records(rs),
            Algo::Json => valid_records(rs),
            Algo::MessagePack => valid_records(rs),
            Algo::Pickle => valid_records(rs) && i64_sized_records(rs),
            Algo::Proto(t) => proto_supported(t@, rs),
            Algo::ProtoReflect(_, _) => false,
        }
    }

    /// A short human-readable name for this codec.
    pub fn label(&self) -> (r: String)
        ensures
            self matches Algo::Bson ==> r@ == "Bson"@,
            self matches Algo::Cbor ==> r@ == "Cbor"@,
            self matches Algo::Json ==> r@ == "Json"@,
            self matches Algo::MessagePack ==> r@ == "MessagePack"@,
            self matches Algo::Pickle ==> r@ == "Pickle"@,
            (self matches Algo::Proto(t) ==> r@ == "Proto: "@ + t@),
            (self matches Algo::ProtoReflect(_, t) ==> r@ == "ProtoBuf: "@ + t@),
    {
        match self {
            Algo::Bson => String::from_str("Bson"),
            Algo::Cbor => String::from_str("Cbor"),
            Algo::Json => String::from_str("Json"),
            Algo::MessagePack => String::from_str("MessagePack"),
            Algo::Pickle => String::from_str("Pickle"),
            Algo::Proto(t) => {
                let mut s: String = String::from_str("Proto: ");
                s.append(t);
                s
            },
            Algo::ProtoReflect(_, t) => {
                let mut s: String = String::from_str("ProtoBuf: ");
                s.append(t);
                s
            },
        }
    }

    /// Serializes a batch to this codec's wire form, returning the bytes
    /// and the elapsed time in microseconds.  Succeeds on every batch the
    /// codec supports; whatever succeeds yields exactly the codec's wire
    /// form of the batch (the reflective variant's bytes excepted, which
    /// are not modelled); an unknown topic, a payload the schema rejects,
    /// or a batch the text form cannot carry is an error.
    pub fn serialize(&self, payload: &Vec<Payload>) -> (r: Result<(Vec<u8>, u128), Error>)
        ensures
            self.supports(records_model(payload@)) ==> r is Ok,
            !(self matches Algo::ProtoReflect(_, _)) ==> (r matches Ok(p) ==> p.0@ == self.wire_of(
                records_model(payload@),
            )),
            self matches Algo::Proto(t) ==> (!proto_supported(t@, records_model(payload@)) ==> r
                is Err),
            !(self matches Algo::Proto(_)) ==> (!valid_records(records_model(payload@)) ==> r
                is Err),
    {
        let ghost rs = records_model(payload@);
        let start: std::time::Instant = clock::now();
        let serialized: Vec<u8> = match self {
            Algo::Bson => {
                let j: Vec<u8> = match serialize_records_wrapped(payload) {
                    Ok(j) => j,
                    Err(e) => {
                        return Err(e);
                    },
                };
                proof {
                    if valid_records(rs) && i64_sized_records(rs) {
                        assert(valid_records(rs) && i64_sized_records(rs) && j@
                            == json_of_records_wrapped(rs));
                        assert(canonical_wrapped_json(j@));
                    }
                }
                match bson_from_json(&j) {
                    Ok(v) => v,
                    Err(e) => {
                        return Err(e);
                    },
                }
            },
            Algo::Cbor => {
                let j: Vec<u8> = match serialize_records(payload) {
                    Ok(j) => j,
                    Err(e) => {
                        return Err(e);
                    },
                };
                proof {
                    assert(valid_records(rs) && j@ == json_of_records(rs));
                    assert(canonical_json(j@));
                }
                match cbor_from_json(&j) {
                    Ok(v) => v,
                    Err(e) => {
                        return Err(e);
                    },
                }
            },
            Algo::Json => {
                match serialize_records(payload) {
                    Ok(v) => v,
                    Err(e) => {
                        return Err(e);
                    },
                }
            },
            Algo::MessagePack => {
                let j: Vec<u8> = match serialize_records(payload) {
                    Ok(j) => j,
                    Err(e) => {
                        return Err(e);
                    },
                };
                proof {
                    assert(valid_records(rs) && j@ == json_of_records(rs));
                    assert(canonical_json(j@));
                }
                match msgpack_from_json(&j) {
                    Ok(v) => v,
                    Err(e) => {
                        return Err(e);
                    },
                }
            },
            Algo::Pickle => {
                let j: Vec<u8> = match serialize_records(payload) {
                    Ok(j) => j,
                    Err(e) => {
                        return Err(e);
                    },
                };
                proof {
                    assert(valid_records(rs) && j@ == json_of_records(rs));
                    assert(canonical_json(j@));
                }
                match pickle_from_json(&j) {
                    Ok(v) => v,
                    Err(e) => {
                        return Err(e);
                    },
                }
            },
            Algo::Proto(t) => {
                match crate::serialization::proto::serialize(payload, t) {
                    Ok(v) => v,
                    Err(e) => {
                        return Err(e);
                    },
                }
            },
            Algo::ProtoReflect(pool, name) => {
                let j: Vec<u8> = match serialize_records_wrapped(payload) {
                    Ok(j) => j,
                    Err(e) => {
                        return Err(e);
                    },
                };
                match reflect_encode(pool, name, &j) {
                    Ok(v) => v,
                    Err(e) => {
                        return Err(e);
                    },
                }
            },
        };
        let elapsed: u128 = clock::elapsed_micros(&start);
        Ok((serialized, elapsed))
    }

    /// Deserializes a batch from this codec's wire form, returning the
    /// records and the elapsed time in microseconds.  For every supported
    /// batch, feeding back the codec's wire form restores the records
    /// exactly, the `stream` name aside, which is not on the wire; a
    /// failure surfaces as the failing coder's own error kind.
    pub fn deserialize(&self, payload: &Vec<u8>) -> (r: Result<(Vec<Payload>, u128), Error>)
        ensures
            forall|rs: Seq<RecordModel>|
                (self.supports(rs) && payload@ == #[trigger] self.wire_of(rs)) ==> (r matches Ok(
                    p,
                ) && records_model(p.0@) == rs),
            r matches Err(e) ==> (match self {
                Algo::Json => e matches Error::Json(_),
                Algo::Cbor => e matches Error::CiboriumDe(_) || e matches Error::Json(_),
                Algo::MessagePack => e matches Error::RmpDecode(_) || e matches Error::Json(_),
                Algo::Pickle => e matches Error::Pickle(_) || e matches Error::Json(_),
                Algo::Bson => e matches Error::BsonDe(_) || e matches Error::Json(_),
                Algo::Proto(_) => e matches Error::UnknownTopic(_) || e matches Error::ProstDecode(
                    _,
                ),
                Algo::ProtoReflect(_, _) => e matches Error::ProstDescriptor(_)
                    || e matches Error::ProstDecode(_) || e matches Error::Json(_),
            }),
    {
        let start: std::time::Instant = clock::now();
        let records: Vec<Payload> = match self {
            Algo::Bson => {
                let j: Vec<u8> = match json_from_bson(payload) {
                    Ok(j) => j,
                    Err(e) => {
                        proof {
                            assert forall|rs: Seq<RecordModel>|
                                (self.supports(rs) && payload@ == #[trigger] self.wire_of(
                                    rs,
                                )) implies false by {
                                assert(canonical_wrapped_json(json_of_records_wrapped(rs)));
                            }
                        }
                        return Err(e);
                    },
                };
                proof {
                    assert forall|rs: Seq<RecordModel>|
                        (self.supports(rs) && payload@ == #[trigger] self.wire_of(rs)) implies (
                        valid_records(rs) && j@ == json_of_records_wrapped(rs)) by {
                        assert(canonical_wrapped_json(json_of_records_wrapped(rs)));
                    }
                }
                match deserialize_records_wrapped(&j) {
                    Ok(v) => v,
                    Err(e) => {
                        return Err(e);
                    },
                }
            },
            Algo::Cbor => {
                let j: Vec<u8> = match json_from_cbor(payload) {
                    Ok(j) => j,
                    Err(e) => {
                        proof {
                            assert forall|rs: Seq<RecordModel>|
                                (self.supports(rs) && payload@ == #[trigger] self.wire_of(
                                    rs,
                                )) implies false by {
                                assert(canonical_json(json_of_records(rs)));
                            }
                        }
                        return Err(e);
                    },
                };
                proof {
                    assert forall|rs: Seq<RecordModel>|
                        (self.supports(rs) && payload@ == #[trigger] self.wire_of(rs)) implies (
                        valid_records(rs) && j@ == json_of_records(rs)) by {
                        assert(canonical_json(json_of_records(rs)));
                    }
                }
                match deserialize_records(&j) {
                    Ok(v) => v,
                    Err(e) => {
                        return Err(e);
                    },
                }
            },
            Algo::Json => {
                match deserialize_records(payload) {
                    Ok(v) => v,
                    Err(e) => {
                        return Err(e);
                    },
                }
            },
            Algo::MessagePack => {
                let j: Vec<u8> = match json_from_msgpack(payload) {
                    Ok(j) => j,
                    Err(e) => {
                        proof {
                            assert forall|rs: Seq<RecordModel>|
                                (self.supports(rs) && payload@ == #[trigger] self.wire_of(
                                    rs,
                                )) implies false by {
                                assert(canonical_json(json_of_records(rs)));
                            }
                        }
                        return Err(e);
                    },
                };
                proof {
                    assert forall|rs: Seq<RecordModel>|
                        (self.supports(rs) && payload@ == #[trigger] self.wire_of(rs)) implies (
                        valid_records(rs) && j@ == json_of_records(rs)) by {
                        assert(canonical_json(json_of_records(rs)));
                    }
                }
                match deserialize_records(&j) {
                    Ok(v) => v,
                    Err(e) => {
                        return Err(e);
                    },
                }
            },
            Algo::Pickle => {
                let j: Vec<u8> = match json_from_pickle(payload) {
                    Ok(j) => j,
                    Err(e) => {
                        proof {
                            assert forall|rs: Seq<RecordModel>|
                                (self.supports(rs) && payload@ == #[trigger] self.wire_of(
                                    rs,
                                )) implies false by {
                                assert(canonical_sized_json(json_of_records(rs)));
                            }
                        }
                        return Err(e);
                    },
                };
                proof {
                    assert forall|rs: Seq<RecordModel>|
                        (self.supports(rs) && payload@ == #[trigger] self.wire_of(rs)) implies (
                        valid_records(rs) && j@ == json_of_records(rs)) by {
                        assert(canonical_sized_json(json_of_records(rs)));
                    }
                }
                match deserialize_records(&j) {
                    Ok(v) => v,
                    Err(e) => {
                        return Err(e);
                    },
                }
            },
            Algo::Proto(t) => {
                match crate::serialization::proto::deserialize(payload, t) {
                    Ok(v) => v,
                    Err(e) => {
                        return Err(e);
                    },
                }
            },
            Algo::ProtoReflect(pool, name) => {
                let j: Vec<u8> = match reflect_decode(pool, name, payload) {
                    Ok(j) => j,
                    Err(e) => {
                        return Err(e);
                    },
                };
                match deserialize_records_wrapped(&j) {
                    Ok(v) => v,
                    Err(e) => {
                        return Err(e);
                    },
                }
            },
        };
        let elapsed: u128 = clock::elapsed_micros(&start);
        Ok((records, elapsed))
    }
}

} // verus!
