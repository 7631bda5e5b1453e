//! The serde-family binary codecs, reached through the text rendering.
//!
//! Each of these formats is self-describing, so a batch travels as the
//! generic data model: the library renders the batch in its canonical text
//! form, the outside coder transcodes that form to its binary format, and
//! the way back transcodes to the identical text bytes.  The canonical form
//! is compact, keeps key order, and never needs escapes, which is what makes
//! the byte-exact restoration below hold.

use vstd::prelude::*;

use crate::base::{RecordModel, ValueModel};
use crate::serialization::text::{json_of_records, json_of_records_wrapped, valid_records};
use crate::serialization::Error;

verus! {

/// Whether `j` is the canonical text rendering of some representable batch.
pub open spec fn canonical_json(j: Seq<u8>) -> bool {
    exists|rs: Seq<RecordModel>| valid_records(rs) && j == json_of_records(rs)
}

/// Whether a payload leaf fits a signed 64-bit integer, which is all the
/// self-describing binary format and the language-native object reader
/// carry for integers.
pub open spec fn i64_sized_value(v: ValueModel) -> bool {
    match v {
        ValueModel::U64(n) => n <= 0x7fff_ffff_ffff_ffff,
        _ => true,
    }
}

pub open spec fn i64_sized_record(rm: RecordModel) -> bool {
    &&& rm.timestamp <= 0x7fff_ffff_ffff_ffff
    &&& forall|i: int|
        0 <= i < rm.fields.len() ==> i64_sized_value(#[trigger] rm.fields[i].1)
}

pub open spec fn i64_sized_records(rs: Seq<RecordModel>) -> bool {
    forall|i: int| 0 <= i < rs.len() ==> i64_sized_record(#[trigger] rs[i])
}

/// Whether `j` is the canonical rendering of some representable batch whose
/// integers fit a signed 64-bit value.
pub open spec fn canonical_sized_json(j: Seq<u8>) -> bool {
    exists|rs: Seq<RecordModel>|
        valid_records(rs) && i64_sized_records(rs) && j == json_of_records(rs)
}

/// Whether `j` is the canonical wrapped rendering of some representable
/// batch whose integers fit a signed 64-bit value.
pub open spec fn canonical_wrapped_json(j: Seq<u8>) -> bool {
    exists|rs: Seq<RecordModel>|
        valid_records(rs) && i64_sized_records(rs) && j == json_of_records_wrapped(rs)
}

/// The type-tagged binary form of a text rendering.
pub uninterp spec fn cbor_of(j: Seq<u8>) -> Seq<u8>;

/// The compact binary map form of a text rendering.
pub uninterp spec fn msgpack_of(j: Seq<u8>) -> Seq<u8>;

/// The language-native object form of a text rendering.
pub uninterp spec fn pickle_of(j: Seq<u8>) -> Seq<u8>;

/// The self-describing binary form of a wrapped text rendering.
pub uninterp spec fn bson_of(j: Seq<u8>) -> Seq<u8>;

/// Relies on serde_json::from_slice and ciborium::ser::into_writer: the
/// transcoding is a function of the input bytes, and succeeds on every
/// canonical rendering.
#[verifier::external_body]
pub(crate) fn cbor_from_json(json: &Vec<u8>) -> (r: Result<Vec<u8>, Error>)
    ensures
        r matches Ok(v) ==> v@ == cbor_of(json@),
        canonical_json(json@) ==> r is Ok,
{
    let values: Vec<serde_json::Value> = match serde_json::from_slice(json) {
        Ok(v) => v,
        Err(e) => return Err(Error::Json(format!("{}", e))),
    };
    let mut out: Vec<u8> = Vec::new();
    match ciborium::ser::into_writer(&values, &mut out) {
        Ok(()) => Ok(out),
        Err(e) => Err(Error::CiboriumSer(format!("{}", e))),
    }
}

/// Relies on ciborium::de::from_reader and serde_json::to_vec: decoding a
/// transcoded canonical rendering restores exactly the rendering.
#[verifier::external_body]
pub(crate) fn json_from_cbor(bytes: &Vec<u8>) -> (r: Result<Vec<u8>, Error>)
    ensures
        r matches Err(e) ==> e matches Error::CiboriumDe(_) || e matches Error::Json(_),
        r is Err ==> forall|j: Seq<u8>| !(canonical_json(j) && bytes@ == #[trigger] cbor_of(j)),
        r matches Ok(v) ==> forall|j: Seq<u8>|
            (canonical_json(j) && bytes@ == #[trigger] cbor_of(j)) ==> v@ == j,
{
    let values: Vec<serde_json::Value> = match ciborium::de::from_reader(&bytes[..]) {
        Ok(v) => v,
        Err(e) => return Err(Error::CiboriumDe(format!("{}", e))),
    };
    match serde_json::to_vec(&values) {
        Ok(v) => Ok(v),
        Err(e) => Err(Error::Json(format!("{}", e))),
    }
}

/// Relies on serde_json::from_slice and rmp_serde::to_vec: the transcoding
/// is a function of the input bytes, and succeeds on every canonical
/// rendering.
#[verifier::external_body]
pub(crate) fn msgpack_from_json(json: &Vec<u8>) -> (r: Result<Vec<u8>, Error>)
    ensures
        r matches Ok(v) ==> v@ == msgpack_of(json@),
        canonical_json(json@) ==> r is Ok,
{
    let values: Vec<serde_json::Value> = match serde_json::from_slice(json) {
        Ok(v) => v,
        Err(e) => return Err(Error::Json(format!("{}", e))),
    };
    match rmp_serde::to_vec(&values) {
        Ok(v) => Ok(v),
        Err(e) => Err(Error::RmpEncode(format!("{}", e))),
    }
}

/// Relies on rmp_serde::from_slice and serde_json::to_vec: decoding a
/// transcoded canonical rendering restores exactly the rendering.
#[verifier::external_body]
pub(crate) fn json_from_msgpack(bytes: &Vec<u8>) -> (r: Result<Vec<u8>, Error>)
    ensures
        r matches Err(e) ==> e matches Error::RmpDecode(_) || e matches Error::Json(_),
        r is Err ==> forall|j: Seq<u8>| !(canonical_json(j) && bytes@ == #[trigger] msgpack_of(j)),
        r matches Ok(v) ==> forall|j: Seq<u8>|
            (canonical_json(j) && bytes@ == #[trigger] msgpack_of(j)) ==> v@ == j,
{
    let values: Vec<serde_json::Value> = match rmp_serde::from_slice(&bytes[..]) {
        Ok(v) => v,
        Err(e) => return Err(Error::RmpDecode(format!("{}", e))),
    };
    match serde_json::to_vec(&values) {
        Ok(v) => Ok(v),
        Err(e) => Err(Error::Json(format!("{}", e))),
    }
}

/// Relies on serde_json::from_slice and serde_pickle::to_vec: the
/// transcoding is a function of the input bytes, and succeeds on every
/// canonical rendering.
#[verifier::external_body]
pub(crate) fn pickle_from_json(json: &Vec<u8>) -> (r: Result<Vec<u8>, Error>)
    ensures
        r matches Ok(v) ==> v@ == pickle_of(json@),
        canonical_json(json@) ==> r is Ok,
{
    let values: Vec<serde_json::Value> = match serde_json::from_slice(json) {
        Ok(v) => v,
        Err(e) => return Err(Error::Json(format!("{}", e))),
    };
    match serde_pickle::to_vec(&values, serde_pickle::SerOptions::new()) {
        Ok(v) => Ok(v),
        Err(e) => Err(Error::Pickle(format!("{}", e))),
    }
}

/// Relies on serde_pickle::from_slice and serde_json::to_vec: decoding a
/// transcoded canonical rendering restores exactly the rendering, as long
/// as its integers fit a signed 64-bit value, the widest integer the
/// generic reader accepts.
#[verifier::external_body]
pub(crate) fn json_from_pickle(bytes: &Vec<u8>) -> (r: Result<Vec<u8>, Error>)
    ensures
        r matches Err(e) ==> e matches Error::Pickle(_) || e matches Error::Json(_),
        r is Err ==> forall|j: Seq<u8>|
            !(canonical_sized_json(j) && bytes@ == #[trigger] pickle_of(j)),
        r matches Ok(v) ==> forall|j: Seq<u8>|
            (canonical_sized_json(j) && bytes@ == #[trigger] pickle_of(j)) ==> v@ == j,
{
    let values: Vec<serde_json::Value> = match serde_pickle::from_slice(
        &bytes[..],
        serde_pickle::DeOptions::new(),
    ) {
        Ok(v) => v,
        Err(e) => return Err(Error::Pickle(format!("{}", e))),
    };
    match serde_json::to_vec(&values) {
        Ok(v) => Ok(v),
        Err(e) => Err(Error::Json(format!("{}", e))),
    }
}

/// Relies on serde_json::from_slice and bson::serialize_to_vec: the
/// transcoding is a function of the input bytes, and succeeds on every
/// wrapped canonical rendering whose integers fit a signed 64-bit value.
#[verifier::external_body]
pub(crate) fn bson_from_json(json: &Vec<u8>) -> (r: Result<Vec<u8>, Error>)
    ensures
        r matches Ok(v) ==> v@ == bson_of(json@),
        canonical_wrapped_json(json@) ==> r is Ok,
{
    let value: serde_json::Value = match serde_json::from_slice(json) {
        Ok(v) => v,
        Err(e) => return Err(Error::Json(format!("{}", e))),
    };
    match bson::serialize_to_vec(&value) {
        Ok(v) => Ok(v),
        Err(e) => Err(Error::BsonSer(format!("{}", e))),
    }
}

/// Relies on bson::deserialize_from_slice and serde_json::to_vec: decoding
/// a transcoded wrapped canonical rendering restores exactly the rendering.
#[verifier::external_body]
pub(crate) fn json_from_bson(bytes: &Vec<u8>) -> (r: Result<Vec<u8>, Error>)
    ensures
        r matches Err(e) ==> e matches Error::BsonDe(_) || e matches Error::Json(_),
        r is Err ==> forall|j: Seq<u8>|
            !(canonical_wrapped_json(j) && bytes@ == #[trigger] bson_of(j)),
        r matches Ok(v) ==> forall|j: Seq<u8>|
            (canonical_wrapped_json(j) && bytes@ == #[trigger] bson_of(j)) ==> v@ == j,
{
    let value: serde_json::Value = match bson::deserialize_from_slice(&bytes[..]) {
        Ok(v) => v,
        Err(e) => return Err(Error::BsonDe(format!("{}", e))),
    };
    match serde_json::to_vec(&value) {
        Ok(v) => Ok(v),
        Err(e) => Err(Error::Json(format!("{}", e))),
    }
}

} // verus!
