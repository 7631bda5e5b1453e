//! The reflective binary-schema codec: the same wire format as the static
//! schema coder, but built at run time from a schema pool, reached over a
//! bridge through the text rendering.
//!
//! The pool is opaque here, and these wrappers carry no contract at all: the
//! dynamic coder emits the entries of a protobuf map field in the iteration
//! order of a process-seeded hash map, so for an arbitrary pool the bytes
//! are not a function of the pool, the name and the input.  Nothing sound
//! can name them, and this variant's round trip is accordingly outside the
//! library's promises; the dispatcher's `supports` reflects that.

use vstd::prelude::*;

use crate::serialization::Error;

verus! {

#[verifier::external_type_specification]
#[verifier::external_body]
pub struct ExDescriptorPool(prost_reflect::DescriptorPool);

/// Relies on prost_reflect::DescriptorPool::decode: builds the pool of
/// message types described by a serialized descriptor set.
#[verifier::external_body]
pub fn decode_descriptor_pool(bytes: &Vec<u8>) -> (r: Result<
    prost_reflect::DescriptorPool,
    Error,
>) {
    match prost_reflect::DescriptorPool::decode(&bytes[..]) {
        Ok(p) => Ok(p),
        Err(e) => Err(Error::ProstDescriptor(format!("{}", e))),
    }
}

/// Relies on prost_reflect's DynamicMessage, deserialized from the text
/// rendering against the named message type and encoded to wire bytes.
#[verifier::external_body]
pub(crate) fn reflect_encode(
    pool: &prost_reflect::DescriptorPool,
    name: &str,
    json: &Vec<u8>,
) -> (r: Result<Vec<u8>, Error>) {
    let desc = match pool.get_message_by_name(name) {
        Some(d) => d,
        None => return Err(Error::ProstDescriptor(format!("unknown message type: {}", name))),
    };
    let mut de = serde_json::Deserializer::from_slice(json);
    let msg = match prost_reflect::DynamicMessage::deserialize(desc, &mut de) {
        Ok(m) => m,
        Err(e) => return Err(Error::Json(format!("{}", e))),
    };
    let mut out: Vec<u8> = Vec::new();
    match prost_reflect::prost::Message::encode(&msg, &mut out) {
        Ok(()) => Ok(out),
        Err(e) => Err(Error::ProstEncode(format!("{}", e))),
    }
}

/// Relies on prost_reflect's DynamicMessage, decoded from wire bytes against
/// the named message type and serialized back to the text rendering with
/// 64-bit integers kept as numbers and default values written out.
#[verifier::external_body]
pub(crate) fn reflect_decode(
    pool: &prost_reflect::DescriptorPool,
    name: &str,
    bytes: &Vec<u8>,
) -> (r: Result<Vec<u8>, Error>)
    ensures
        r matches Err(e) ==> e matches Error::ProstDescriptor(_) || e matches Error::ProstDecode(
            _,
        ) || e matches Error::Json(_),
{
    let desc = match pool.get_message_by_name(name) {
        Some(d) => d,
        None => return Err(Error::ProstDescriptor(format!("unknown message type: {}", name))),
    };
    let msg = match prost_reflect::DynamicMessage::decode(desc, &bytes[..]) {
        Ok(m) => m,
        Err(e) => return Err(Error::ProstDecode(format!("{}", e))),
    };
    let options = prost_reflect::SerializeOptions::new().stringify_64_bit_integers(false).skip_default_fields(false);
    let mut ser = serde_json::Serializer::new(Vec::new());
    match msg.serialize_with_options(&mut ser, &options) {
        Ok(()) => Ok(ser.into_inner()),
        Err(e) => Err(Error::Json(format!("{}", e))),
    }
}

} // verus!
