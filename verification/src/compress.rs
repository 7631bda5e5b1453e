//! The compression dispatcher: a closed set of byte-stream compressors.
//!
//! Each variant transforms a byte buffer in place and tags the topic string
//! with its own token on compression; decompression restores the bytes and
//! strips the trailing token (a tag without the token is left unchanged).
//! The byte transforms themselves are outside calls; their results are named
//! per algorithm, and the round trip `decompress(compress(b)) == b` is what
//! each coder's frame format guarantees.

use vstd::prelude::*;
use vstd::string::StrSliceExecFns;
use vstd::string::StringExecFns;

use crate::clock;

verus! {

/// A compression failure, fatal for the single call that saw it.
#[derive(Debug)]
pub enum Error {
    /// An I/O-style failure from a streaming coder.
    Io(String),
    /// A failure from the block-framed fast coder.
    Lz4(String),
    /// A failure from the byte-oriented fast coder.
    Snap(String),
}

/// The frame the block-framed fast coder produces for `b`.
pub uninterp spec fn lz4_frame_of(b: Seq<u8>) -> Seq<u8>;

/// The bytes the block-framed fast coder recovers from `b`, if `b` is a
/// valid frame.
pub uninterp spec fn lz4_data_of(b: Seq<u8>) -> Option<Seq<u8>>;

/// The frame the byte-oriented fast coder produces for `b`.
pub uninterp spec fn snap_frame_of(b: Seq<u8>) -> Seq<u8>;

/// The bytes the byte-oriented fast coder recovers from `b`, if `b` is a
/// valid frame.
pub uninterp spec fn snap_data_of(b: Seq<u8>) -> Option<Seq<u8>>;

/// The stream the first general-purpose coder produces for `b`.
pub uninterp spec fn zlib_frame_of(b: Seq<u8>) -> Seq<u8>;

/// The bytes the first general-purpose coder recovers from `b`, if `b` is a
/// valid stream.
pub uninterp spec fn zlib_data_of(b: Seq<u8>) -> Option<Seq<u8>>;

/// The stream the second general-purpose coder produces for `b`.
pub uninterp spec fn zstd_frame_of(b: Seq<u8>) -> Seq<u8>;

/// The bytes the second general-purpose coder recovers from `b`, if `b` is a
/// valid stream.
pub uninterp spec fn zstd_data_of(b: Seq<u8>) -> Option<Seq<u8>>;

/// Relies on lz4_flex frame encoding: it writes into a plain byte vector,
/// which cannot fail, is deterministic for a given input, and decoding a
/// produced frame yields the input again.
#[verifier::external_body]
fn lz4_compress_bytes(payload: &Vec<u8>) -> (r: Result<Vec<u8>, Error>)
    ensures
        r is Ok,
        r matches Ok(v) ==> v@ == lz4_frame_of(payload@),
        r matches Ok(v) ==> lz4_data_of(v@) == Some(payload@),
{
    let mut enc = lz4_flex::frame::FrameEncoder::new(Vec::new());
    if let Err(e) = std::io::Write::write_all(&mut enc, payload) {
        return Err(Error::Io(format!("{}", e)));
    }
    match enc.finish() {
        Ok(v) => Ok(v),
        Err(e) => Err(Error::Lz4(format!("{}", e))),
    }
}

/// Relies on lz4_flex frame decoding: succeeds exactly on valid frames and
/// recovers the framed bytes.
#[verifier::external_body]
fn lz4_decompress_bytes(payload: &Vec<u8>) -> (r: Result<Vec<u8>, Error>)
    ensures
        r matches Ok(v) ==> lz4_data_of(payload@) == Some(v@),
        lz4_data_of(payload@) is Some ==> r is Ok,
{
    let mut dec = lz4_flex::frame::FrameDecoder::new(&payload[..]);
    let mut buffer = Vec::new();
    match std::io::Read::read_to_end(&mut dec, &mut buffer) {
        Ok(_) => Ok(buffer),
        Err(e) => Err(Error::Io(format!("{}", e))),
    }
}

/// Relies on snap frame encoding: it writes into a plain byte vector,
/// which cannot fail, is deterministic for a given input, and decoding a
/// produced frame yields the input again.
#[verifier::external_body]
fn snap_compress_bytes(payload: &Vec<u8>) -> (r: Result<Vec<u8>, Error>)
    ensures
        r is Ok,
        r matches Ok(v) ==> v@ == snap_frame_of(payload@),
        r matches Ok(v) ==> snap_data_of(v@) == Some(payload@),
{
    let mut enc = snap::write::FrameEncoder::new(Vec::new());
    if let Err(e) = std::io::Write::write_all(&mut enc, payload) {
        return Err(Error::Io(format!("{}", e)));
    }
    match enc.into_inner() {
        Ok(v) => Ok(v),
        Err(e) => Err(Error::Snap(format!("{}", e))),
    }
}

/// Relies on snap frame decoding: succeeds exactly on valid frames and
/// recovers the framed bytes.
#[verifier::external_body]
fn snap_decompress_bytes(payload: &Vec<u8>) -> (r: Result<Vec<u8>, Error>)
    ensures
        r matches Ok(v) ==> snap_data_of(payload@) == Some(v@),
        snap_data_of(payload@) is Some ==> r is Ok,
{
    let mut dec = snap::read::FrameDecoder::new(&payload[..]);
    let mut buffer = Vec::new();
    match std::io::Read::read_to_end(&mut dec, &mut buffer) {
        Ok(_) => Ok(buffer),
        Err(e) => Err(Error::Io(format!("{}", e))),
    }
}

/// Relies on flate2's zlib encoder: it writes into a plain byte vector,
/// which cannot fail, is deterministic for a given input and level, and
/// decoding a produced stream yields the input again.
#[verifier::external_body]
fn zlib_compress_bytes(payload: &Vec<u8>) -> (r: Result<Vec<u8>, Error>)
    ensures
        r is Ok,
        r matches Ok(v) ==> v@ == zlib_frame_of(payload@),
        r matches Ok(v) ==> zlib_data_of(v@) == Some(payload@),
{
    let mut enc = flate2::write::ZlibEncoder::new(Vec::new(), flate2::Compression::default());
    if let Err(e) = std::io::Write::write_all(&mut enc, payload) {
        return Err(Error::Io(format!("{}", e)));
    }
    match enc.finish() {
        Ok(v) => Ok(v),
        Err(e) => Err(Error::Io(format!("{}", e))),
    }
}

/// Relies on flate2's zlib decoder: succeeds exactly on valid streams and
/// recovers the original bytes.
#[verifier::external_body]
fn zlib_decompress_bytes(payload: &Vec<u8>) -> (r: Result<Vec<u8>, Error>)
    ensures
        r matches Ok(v) ==> zlib_data_of(payload@) == Some(v@),
        zlib_data_of(payload@) is Some ==> r is Ok,
{
    let mut dec = flate2::write::ZlibDecoder::new(Vec::new());
    if let Err(e) = std::io::Write::write_all(&mut dec, payload) {
        return Err(Error::Io(format!("{}", e)));
    }
    match dec.finish() {
        Ok(v) => Ok(v),
        Err(e) => Err(Error::Io(format!("{}", e))),
    }
}

/// Relies on zstd::stream::encode_all at the default level: it writes into
/// a plain byte vector, which cannot fail, is deterministic for a given
/// input, and decoding a produced stream yields the input again.
#[verifier::external_body]
fn zstd_compress_bytes(payload: &Vec<u8>) -> (r: Result<Vec<u8>, Error>)
    ensures
        r is Ok,
        r matches Ok(v) ==> v@ == zstd_frame_of(payload@),
        r matches Ok(v) ==> zstd_data_of(v@) == Some(payload@),
{
    match zstd::stream::encode_all(&payload[..], 0) {
        Ok(v) => Ok(v),
        Err(e) => Err(Error::Io(format!("{}", e))),
    }
}

/// Relies on zstd::stream::decode_all: succeeds exactly on valid streams and
/// recovers the original bytes.
#[verifier::external_body]
fn zstd_decompress_bytes(payload: &Vec<u8>) -> (r: Result<Vec<u8>, Error>)
    ensures
        r matches Ok(v) ==> zstd_data_of(payload@) == Some(v@),
        zstd_data_of(payload@) is Some ==> r is Ok,
{
    match zstd::stream::decode_all(&payload[..]) {
        Ok(v) => Ok(v),
        Err(e) => Err(Error::Io(format!("{}", e))),
    }
}

/// The tag with one trailing token removed: if `tag` ends with `tok`, that
/// suffix is dropped; otherwise the tag is unchanged.
pub open spec fn strip_suffix_token(tag: Seq<char>, tok: Seq<char>) -> Seq<char> {
    if tag.len() >= tok.len() && tag.subrange(
        tag.len() - tok.len(),
        tag.len() as int,
    ) == tok {
        tag.subrange(0, tag.len() - tok.len())
    } else {
        tag
    }
}

/// Every algorithm's token is a nonempty string.
pub proof fn lemma_token_nonempty(a: Algo)
    ensures
        a.token().len() > 0,
{
    reveal_strlit("/lz4");
    reveal_strlit("/snappy");
    reveal_strlit("/zlib");
    reveal_strlit("/zstd");
}

/// Appending a token and stripping it restores the tag, whatever it held.
pub proof fn lemma_strip_appended_token(tag: Seq<char>, tok: Seq<char>)
    requires
        tok.len() > 0,
    ensures
        strip_suffix_token(tag + tok, tok) == tag,
{
    let joined = tag + tok;
    assert(joined.subrange(joined.len() - tok.len(), joined.len() as int) =~= tok);
    assert(joined.subrange(0, joined.len() - tok.len()) =~= tag);
}

/// Removes `tok` from the end of `topic` if it is there; otherwise leaves
/// `topic` unchanged.
fn strip_token(topic: &mut String, tok: &str)
    ensures
        final(topic)@ == strip_suffix_token(old(topic)@, tok@),
{
    let tlen: usize = topic.as_str().unicode_len();
    let klen: usize = tok.unicode_len();
    if tlen < klen {
        return ;
    }
    let start: usize = tlen - klen;
    let mut i: usize = 0;
    while i < klen
        invariant
            topic@ == old(topic)@,
            klen <= tlen,
            tlen == topic@.len(),
            klen == tok@.len(),
            start == tlen - klen,
            i <= klen,
            forall|j: int| 0 <= j < i ==> topic@[start + j] == tok@[j],
        decreases klen - i,
    {
        if topic.as_str().get_char(start + i) != tok.get_char(i) {
            proof {
                assert(old(topic)@.subrange(start as int, tlen as int)[i as int] != tok@[i as int]);
            }
            return ;
        }
        i = i + 1;
    }
    proof {
        assert(old(topic)@.subrange(start as int, tlen as int) =~= tok@);
    }
    let shortened: String = topic.as_str().substring_char(0, start).to_owned();
    *topic = shortened;
}

/// The closed set of interchangeable byte-stream compressors.
#[derive(Debug, Clone)]
pub enum Algo {
    Lz4,
    Snappy,
    Zlib,
    Zstd,
}

impl Algo {
    /// The token this algorithm appends to the topic tag.
    pub open spec fn token(self) -> Seq<char> {
        match self {
            Algo::Lz4 => "/lz4"@,
            Algo::Snappy => "/snappy"@,
            Algo::Zlib => "/zlib"@,
            Algo::Zstd => "/zstd"@,
        }
    }

    /// The compressed form this algorithm produces for `b`.
    pub open spec fn frame_of(self, b: Seq<u8>) -> Seq<u8> {
        match self {
            Algo::Lz4 => lz4_frame_of(b),
            Algo::Snappy => snap_frame_of(b),
            Algo::Zlib => zlib_frame_of(b),
            Algo::Zstd => zstd_frame_of(b),
        }
    }

    /// The bytes this algorithm recovers from `b`, if `b` is a valid
    /// compressed form.
    pub open spec fn data_of(self, b: Seq<u8>) -> Option<Seq<u8>> {
        match self {
            Algo::Lz4 => lz4_data_of(b),
            Algo::Snappy => snap_data_of(b),
            Algo::Zlib => zlib_data_of(b),
            Algo::Zstd => zstd_data_of(b),
        }
    }

    fn token_str(&self) -> (r: &'static str)
        ensures
            r@ == self.token(),
            r@.len() > 0,
    {
        proof {
            reveal_strlit("/lz4");
            reveal_strlit("/snappy");
            reveal_strlit("/zlib");
            reveal_strlit("/zstd");
        }
        match self {
            Algo::Lz4 => "/lz4",
            Algo::Snappy => "/snappy",
            Algo::Zlib => "/zlib",
            Algo::Zstd => "/zstd",
        }
    }

    /// Compresses `payload` in place and appends this algorithm's token to
    /// `topic`; returns the elapsed time in microseconds.  Compression
    /// writes into a plain byte vector and always succeeds.
    pub fn compress(&self, payload: &mut Vec<u8>, topic: &mut String) -> (r: Result<u128, Error>)
        ensures
            r is Ok,
            final(payload)@ == self.frame_of(old(payload)@),
            self.data_of(final(payload)@) == Some(old(payload)@),
            final(topic)@ == old(topic)@ + self.token(),
    {
        let start: std::time::Instant = clock::now();
        let compressed: Result<Vec<u8>, Error> = match self {
            Algo::Lz4 => lz4_compress_bytes(payload),
            Algo::Snappy => snap_compress_bytes(payload),
            Algo::Zlib => zlib_compress_bytes(payload),
            Algo::Zstd => zstd_compress_bytes(payload),
        };
        match compressed {
            Ok(v) => {
                *payload = v;
                topic.append(self.token_str());
                Ok(clock::elapsed_micros(&start))
            },
            Err(e) => Err(e),
        }
    }

    /// Decompresses `payload` in place and strips this algorithm's trailing
    /// token from `topic` (a tag without the token stays as it is); returns
    /// the elapsed time in microseconds.  Succeeds exactly on valid
    /// compressed input; on failure both are left untouched.
    pub fn decompress(&self, payload: &mut Vec<u8>, topic: &mut String) -> (r: Result<u128, Error>)
        ensures
            r is Ok ==> Some(final(payload)@) == self.data_of(old(payload)@),
            self.data_of(old(payload)@) is Some ==> r is Ok,
            r is Ok ==> final(topic)@ == strip_suffix_token(old(topic)@, self.token()),
            r is Err ==> final(payload)@ == old(payload)@ && final(topic)@ == old(topic)@,
    {
        let start: std::time::Instant = clock::now();
        let decompressed: Result<Vec<u8>, Error> = match self {
            Algo::Lz4 => lz4_decompress_bytes(payload),
            Algo::Snappy => snap_decompress_bytes(payload),
            Algo::Zlib => zlib_decompress_bytes(payload),
            Algo::Zstd => zstd_decompress_bytes(payload),
        };
        match decompressed {
            Ok(v) => {
                *payload = v;
                strip_token(topic, self.token_str());
                Ok(clock::elapsed_micros(&start))
            },
            Err(e) => Err(e),
        }
    }
}

} // verus!
