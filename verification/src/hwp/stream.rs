//! The content of a stream: as it is, or inflated where the document is
//! compressed. HWP compresses with raw deflate, without a zlib header.

use std::io::Read;
use vstd::prelude::*;
use vstd::slice::slice_to_vec;
use crate::error::{Fault, HwpError};

verus! {

/// What inflating the raw deflate stream `data` gives: the bytes, or the
/// text of the error for a stream that cannot be inflated.
pub uninterp spec fn raw_inflated(data: Seq<u8>) -> Result<Seq<u8>, Seq<char>>;

/// `flate2::read::DeflateDecoder::new` on `data`, read with
/// `Read::read_to_end`. The outcome depends on `data` alone: the inflated
/// bytes, or the text of the decoder's error.
#[verifier::external_body]
fn inflate(data: &[u8]) -> (r: Result<Vec<u8>, String>)
    ensures
        match raw_inflated(data@) {
            Ok(bytes) => r matches Ok(v) && v@ == bytes,
            Err(text) => r matches Err(t) && t@ == text,
        },
{
    let mut out = Vec::new();
    match flate2::read::DeflateDecoder::new(data).read_to_end(&mut out) {
        Ok(_) => Ok(out),
        Err(e) => Err(e.to_string()),
    }
}

/// What the compressed stream `data` holds, or why it cannot be inflated.
pub open spec fn decompressed(data: Seq<u8>) -> Result<Seq<u8>, Fault> {
    match raw_inflated(data) {
        Ok(bytes) => Ok(bytes),
        Err(text) => Err(Fault::DecompressFailed(text)),
    }
}

/// Inflates a raw deflate stream.
pub fn decompress(data: &[u8]) -> (r: Result<Vec<u8>, HwpError>)
    ensures
        match decompressed(data@) {
            Ok(bytes) => r matches Ok(v) && v@ == bytes,
            Err(fault) => r matches Err(e) && e@ == fault,
        },
{
    match inflate(data) {
        Ok(bytes) => Ok(bytes),
        Err(text) => Err(HwpError::DecompressFailed(text)),
    }
}

/// Reads a stream that is held in memory to its end.
pub fn read_stream_data(stream: &[u8]) -> (r: Result<Vec<u8>, HwpError>)
    ensures
        r matches Ok(v) && v@ == stream@,
{
    Ok(slice_to_vec(stream))
}

/// What the stream `data` holds: itself, or what inflating it gives where
/// the document is compressed.
pub open spec fn stream_content(data: Seq<u8>, compressed: bool) -> Result<Seq<u8>, Fault> {
    if compressed {
        decompressed(data)
    } else {
        Ok(data)
    }
}

/// Reads a stream that is held in memory to its end, and inflates it where
/// the document is compressed.
pub fn read_and_decompress(stream: &[u8], compressed: bool) -> (r: Result<Vec<u8>, HwpError>)
    ensures
        match stream_content(stream@, compressed) {
            Ok(bytes) => r matches Ok(v) && v@ == bytes,
            Err(fault) => r matches Err(e) && e@ == fault,
        },
{
    let raw = match read_stream_data(stream) {
        Ok(raw) => raw,
        Err(e) => {
            return Err(e);
        },
    };
    if compressed {
        decompress(raw.as_slice())
    } else {
        Ok(raw)
    }
}

} // verus!
