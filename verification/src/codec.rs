//! The optional content codec: gzip at a fixed level, then base64.
//!
//! The outside codecs are reached through trusted wrappers whose
//! contracts name their results; the composition and its round trip are
//! verified against those names.

use vstd::prelude::*;
use crate::error::JockeyError;
use std::io::Read;
use std::io::Write;
use base64::Engine;
use flate2::read::GzDecoder;
use flate2::write::GzEncoder;
use rayon::prelude::IntoParallelRefIterator;
use rayon::prelude::ParallelIterator;

verus! {

/// The fixed compression level of the codec.
pub const COMPRESSION_LEVEL: u32 = 6;

/// The gzip bytes of a text's UTF-8 encoding, at the fixed level.
pub uninterp spec fn gzip_of(s: Seq<char>) -> Seq<u8>;

/// The text that gunzipping a byte sequence yields, when it is a valid
/// gzip stream of valid UTF-8.
pub uninterp spec fn gunzip_of(b: Seq<u8>) -> Option<Seq<char>>;

/// The standard-alphabet base64 rendering of a byte sequence.
pub uninterp spec fn b64_of(b: Seq<u8>) -> Seq<char>;

/// The bytes that base64 decoding yields, when the text is valid base64.
pub uninterp spec fn b64_decode_of(s: Seq<char>) -> Option<Seq<u8>>;

/// What compression produces: base64 text over the gzip bytes of the
/// content.
pub open spec fn compress_spec(s: Seq<char>) -> Seq<char> {
    b64_of(gzip_of(s))
}

/// What decompression recovers: base64 decoding followed by gunzipping,
/// failing when either step does.
pub open spec fn decompress_spec(s: Seq<char>) -> Option<Seq<char>> {
    match b64_decode_of(s) {
        Option::Some(b) => gunzip_of(b),
        Option::None => Option::None,
    }
}

/// Relies on flate2's GzEncoder writing into a Vec at the fixed level:
/// writing into a Vec cannot fail, so the call always succeeds; the
/// output is a function of the content's UTF-8 bytes alone (the header
/// carries no timestamp and a fixed system byte), and gunzipping the
/// output yields the content back.
#[verifier::external_body]
fn gzip_compress(content: &str) -> (r: Result<Vec<u8>, JockeyError>)
    ensures
        r is Ok,
        r matches Ok(v) ==> v@ == gzip_of(content@) && gunzip_of(v@) == Option::Some(content@),
{
    let mut encoder = GzEncoder::new(Vec::new(), flate2::Compression::new(COMPRESSION_LEVEL));
    if let Err(e) = encoder.write_all(content.as_bytes()) {
        return Err(JockeyError::Compression(format!("Failed to compress content: {}", e)));
    }
    match encoder.finish() {
        Ok(v) => Ok(v),
        Err(e) => Err(JockeyError::Compression(format!("Failed to finish compression: {}", e))),
    }
}

/// Relies on flate2's GzDecoder reading into a String: the result is a
/// function of the bytes alone, and the gzip stream of any text decodes
/// back to that text.
#[verifier::external_body]
fn gzip_decompress(bytes: &Vec<u8>) -> (r: Result<String, JockeyError>)
    ensures
        r matches Ok(s) ==> gunzip_of(bytes@) == Option::Some(s@),
        r is Err ==> gunzip_of(bytes@) is None,
        r matches Err(e) ==> e is Compression,
        forall|t: Seq<char>| bytes@ == gzip_of(t) ==> r is Ok && r->Ok_0@ == t,
{
    let mut decoder = GzDecoder::new(&bytes[..]);
    let mut out = String::new();
    match decoder.read_to_string(&mut out) {
        Ok(_) => Ok(out),
        Err(e) => Err(JockeyError::Compression(format!("Failed to decompress content: {}", e))),
    }
}

/// Relies on base64's standard-alphabet engine: encoding is a pure
/// function of the bytes, and its canonical padded output decodes back
/// to the same bytes.
#[verifier::external_body]
fn base64_encode(bytes: &Vec<u8>) -> (r: String)
    ensures
        r@ == b64_of(bytes@),
        b64_decode_of(r@) == Option::Some(bytes@),
{
    base64::engine::general_purpose::STANDARD.encode(bytes)
}

/// Relies on base64's standard-alphabet engine decode: the result is a
/// function of the text alone, and everything the encoder produces is
/// accepted.
#[verifier::external_body]
fn base64_decode(s: &str) -> (r: Result<Vec<u8>, JockeyError>)
    ensures
        r matches Ok(v) ==> b64_decode_of(s@) == Option::Some(v@),
        r is Err ==> b64_decode_of(s@) is None,
        r matches Err(e) ==> e is Compression,
        forall|b: Seq<u8>| s@ == b64_of(b) ==> r is Ok && r->Ok_0@ == b,
{
    match base64::engine::general_purpose::STANDARD.decode(s) {
        Ok(v) => Ok(v),
        Err(e) => Err(JockeyError::Compression(format!("Failed to decode base64: {}", e))),
    }
}

/// Compresses text: gzip at the fixed level, then base64. Both steps run
/// in memory and cannot fail, so every content succeeds; the result is
/// exactly `compress_spec` of the content, and decompressing it recovers
/// the content (the codec is lossless).
pub fn compress_content(content: &str) -> (r: Result<String, JockeyError>)
    ensures
        r is Ok,
        r matches Ok(o) ==> o@ == compress_spec(content@),
        r matches Ok(o) ==> decompress_spec(o@) == Option::Some(content@),
{
    match gzip_compress(content) {
        Err(e) => Err(e),
        Ok(compressed) => {
            let encoded = base64_encode(&compressed);
            Ok(encoded)
        },
    }
}

/// Decompresses base64+gzip text. It succeeds exactly when
/// `decompress_spec` does, returns exactly what it names, and on any
/// input that compression produced it succeeds and compressing the
/// result gives the input back.
pub fn decompress_content(compressed: &str) -> (r: Result<String, JockeyError>)
    ensures
        r matches Ok(o) ==> decompress_spec(compressed@) == Option::Some(o@),
        r is Err ==> decompress_spec(compressed@) is None,
        r matches Err(e) ==> e is Compression,
        (exists|y: Seq<char>| compressed@ == compress_spec(y)) ==> r is Ok && compress_spec(
            r->Ok_0@,
        ) == compressed@,
{
    let decoded = match base64_decode(compressed) {
        Err(e) => {
            proof {
                if exists|y: Seq<char>| compressed@ == compress_spec(y) {
                    let y = choose|y: Seq<char>| compressed@ == compress_spec(y);
                    assert(compressed@ == b64_of(gzip_of(y)));
                }
            }
            return Err(e);
        },
        Ok(v) => v,
    };
    match gzip_decompress(&decoded) {
        Err(e) => {
            proof {
                if exists|y: Seq<char>| compressed@ == compress_spec(y) {
                    let y = choose|y: Seq<char>| compressed@ == compress_spec(y);
                    assert(compressed@ == b64_of(gzip_of(y)));
                    assert(decoded@ == gzip_of(y));
                }
            }
            Err(e)
        },
        Ok(s) => {
            proof {
                if exists|y: Seq<char>| compressed@ == compress_spec(y) {
                    let y = choose|y: Seq<char>| compressed@ == compress_spec(y);
                    assert(compressed@ == b64_of(gzip_of(y)));
                    assert(decoded@ == gzip_of(y));
                    assert(s@ == y);
                }
            }
            Ok(s)
        },
    }
}

/// Handle for compressing many contents at once.
pub struct CompressionPool {
    _private: (),
}

impl CompressionPool {
    /// A fresh pool.
    pub fn new() -> (r: CompressionPool) {
        CompressionPool { _private: () }
    }

    /// Relies on rayon's parallel iterator and its order-preserving
    /// collect: each element is compressed by this library's own
    /// `compress_content`, which always succeeds, so the collected
    /// result does too, and it comes back in input order.
    #[verifier::external_body]
    pub fn compress_parallel(&self, contents: &Vec<String>) -> (r: Result<Vec<String>, JockeyError>)
        ensures
            r is Ok,
            r matches Ok(v) ==> v@.len() == contents@.len() && forall|i: int|
                0 <= i < v@.len() ==> v@[i]@ == compress_spec(contents@[i]@),
    {
        contents.par_iter().map(|c| compress_content(c.as_str())).collect()
    }
}

} // verus!
