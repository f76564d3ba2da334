//! Gzip compression helpers for request bodies: raw byte compression, a
//! base64-wrapped string form, and the heuristic that decides when
//! compressing is worth it.

use vstd::prelude::*;

use std::io::Read;

use crate::crypto::b64_decode;
use crate::crypto::b64_encode;
use crate::crypto::spec_b64_of;
use crate::text::vec_to_string;

verus! {

use vstd::utf8::encode_utf8;
use vstd::utf8::encode_utf8_valid_utf8;
use vstd::utf8::encode_utf8_decode_utf8;

/// Errors of the compression helpers.
#[derive(Debug, Clone)]
pub enum CompressionError {
    /// Compression failed.
    CompressFailed(String),
    /// Decompression failed.
    DecompressFailed(String),
}

/// The gzip stream flate2 produces for a byte sequence: with the library's
/// pure-Rust backend and default header (no timestamp, unknown operating
/// system), a function of the input bytes alone.
pub uninterp spec fn spec_gzip_of(data: Seq<u8>) -> Seq<u8>;

/// A decompression result that returns every produced archive to its
/// content: if the input is the gzip stream of some byte sequence, the
/// result is exactly that sequence.
pub open spec fn spec_unzips_every_archive(data: Seq<u8>, r: Option<Vec<u8>>) -> bool {
    forall|d: Seq<u8>| data == #[trigger] spec_gzip_of(d) ==> (r matches Some(out) && out@ == d)
}

/// Relies on flate2's `GzEncoder` at the default compression level: the
/// stream it produces for these bytes.  Reading an in-memory slice through
/// the encoder cannot fail, so the result is always there.
#[verifier::external_body]
fn gzip_compress(data: &[u8]) -> (r: Option<Vec<u8>>)
    ensures
        r matches Some(c) ==> c@ == spec_gzip_of(data@),
        r is Some,
{
    let mut encoder = flate2::read::GzEncoder::new(data, flate2::Compression::default());
    let mut compressed: Vec<u8> = Vec::new();
    match encoder.read_to_end(&mut compressed) {
        Ok(_) => Some(compressed),
        Err(_) => None,
    }
}

/// Relies on flate2's `GzDecoder`: decompressing the stream produced for
/// any byte sequence gives that sequence back; a malformed stream fails.
#[verifier::external_body]
fn gzip_decompress(data: &[u8]) -> (r: Option<Vec<u8>>)
    ensures
        spec_unzips_every_archive(data@, r),
{
    let mut decoder = flate2::read::GzDecoder::new(data);
    let mut decompressed: Vec<u8> = Vec::new();
    match decoder.read_to_end(&mut decompressed) {
        Ok(_) => Some(decompressed),
        Err(_) => None,
    }
}

/// Compress data using gzip; on an in-memory input this always succeeds.
pub fn compress(data: &[u8]) -> (r: Result<Vec<u8>, CompressionError>)
    ensures
        r matches Ok(c) ==> c@ == spec_gzip_of(data@),
        r is Ok,
{
    match gzip_compress(data) {
        Some(c) => Ok(c),
        None => Err(CompressionError::CompressFailed("gzip stream error".to_owned())),
    }
}

/// Decompress gzip data: the compressed form of any byte sequence comes
/// back as that sequence.
pub fn decompress(data: &[u8]) -> (r: Result<Vec<u8>, CompressionError>)
    ensures
        forall|d: Seq<u8>|
            data@ == #[trigger] spec_gzip_of(d) ==> (r matches Ok(out) && out@ == d),
        r matches Err(e) ==> e is DecompressFailed,
{
    match gzip_decompress(data) {
        Some(d) => Ok(d),
        None => Err(CompressionError::DecompressFailed("gzip stream error".to_owned())),
    }
}

/// Compress a string and return the result in base64.
pub fn compress_string(input: &str) -> (r: Result<String, CompressionError>)
    ensures
        r matches Ok(s) ==> s@ == spec_b64_of(spec_gzip_of(encode_utf8(input@))),
        r is Ok,
{
    let compressed: Vec<u8> = match compress(input.as_bytes()) {
        Ok(c) => c,
        Err(e) => {
            return Err(e);
        },
    };
    Ok(b64_encode(compressed.as_slice()))
}

/// Decompress a base64-encoded gzip string: whatever `compress_string`
/// produced for a string comes back as that string.
pub fn decompress_string(input: &str) -> (r: Result<String, CompressionError>)
    ensures
        forall|orig: Seq<char>|
            input@ == spec_b64_of(#[trigger] spec_gzip_of(encode_utf8(orig))) ==> (r matches Ok(s)
                && s@ == orig),
        r matches Err(e) ==> e is DecompressFailed,
{
    let compressed: Vec<u8> = match b64_decode(input) {
        Some(c) => c,
        None => {
            return Err(CompressionError::DecompressFailed("base64 decoding failed".to_owned()));
        },
    };
    let decompressed: Vec<u8> = match decompress(compressed.as_slice()) {
        Ok(d) => d,
        Err(e) => {
            return Err(e);
        },
    };
    let ghost dv = decompressed@;
    let text: Option<String> = vec_to_string(decompressed);
    match text {
        Some(s) => {
            proof {
                assert forall|orig: Seq<char>|
                    input@ == spec_b64_of(#[trigger] spec_gzip_of(encode_utf8(orig))) implies s@
                    == orig by {
                    encode_utf8_decode_utf8(orig);
                }
            }
            Ok(s)
        },
        None => {
            proof {
                assert forall|orig: Seq<char>|
                    input@ == spec_b64_of(#[trigger] spec_gzip_of(encode_utf8(orig))) implies false by {
                    encode_utf8_valid_utf8(orig);
                }
            }
            Err(CompressionError::DecompressFailed("invalid UTF-8".to_owned()))
        },
    }
}

/// Whether compression would be beneficial: the data is at least 1 KiB and
/// a trial compression shrinks it below 80% of the original size.
pub fn should_compress(data: &[u8]) -> (r: bool)
    ensures
        r == (data@.len() >= 1024 && spec_gzip_of(data@).len() < data@.len() * 80 / 100),
{
    if data.len() < 1024 {
        return false;
    }
    match compress(data) {
        Ok(compressed) => {
            let budget: u128 = (data.len() as u128) * 80 / 100;
            (compressed.len() as u128) < budget
        },
        Err(_) => false,
    }
}

} // verus!
