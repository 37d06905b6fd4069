//! The transport form of an encoded document: the bytes of the message,
//! compressed as one gzip stream.

use vstd::prelude::*;
use std::io::Write;
use flate2::write::GzEncoder;
use flate2::Compression;
use crate::error::{WriteError, WriteErrorView};

verus! {

/// What the compressor gives for `data` at its default level: the gzip stream
/// of the data, or nothing where it fails.
pub uninterp spec fn gzip_stream(data: Seq<u8>) -> Option<Seq<u8>>;

/// The number that four bytes stand for, the lowest byte first.
pub open spec fn little_endian(bytes: Seq<u8>) -> int {
    bytes[0] + 256 * bytes[1] + 65536 * bytes[2] + 16777216 * bytes[3]
}

/// `stream` has the frame of a gzip stream of `length` bytes of data: it is
/// long enough for a header and a trailer, begins with the two magic bytes and
/// the number of the deflate method, and ends with the length of the data
/// modulo 2 to the 32.
pub open spec fn is_gzip_frame(stream: Seq<u8>, length: nat) -> bool {
    &&& stream.len() >= 18
    &&& stream[0] == 0x1f
    &&& stream[1] == 0x8b
    &&& stream[2] == 8
    &&& little_endian(stream.subrange(stream.len() - 4, stream.len() as int)) == length
        % 0x1_0000_0000
}

/// The transport form of `data`: the stream that the compressor gives for it,
/// if it gives one and the stream has the frame of a gzip stream of the data.
pub open spec fn compressed(data: Seq<u8>) -> Option<Seq<u8>> {
    match gzip_stream(data) {
        Some(stream) => if is_gzip_frame(stream, data.len()) {
            Some(stream)
        } else {
            None
        },
        None => None,
    }
}

/// Compresses `data` with `flate2::write::GzEncoder` at
/// `flate2::Compression::default()`, writing to a vector. What comes out, a
/// stream or nothing, is what the compressor gives for the data: the encoder
/// writes a fixed header without a time stamp and a vector takes every write,
/// so that the outcome depends on the data alone. Nothing is claimed of which
/// of the two it is.
#[verifier::external_body]
fn gzip(data: &Vec<u8>) -> (out: Option<Vec<u8>>)
    ensures
        match out {
            Some(stream) => gzip_stream(data@) == Some(stream@),
            None => gzip_stream(data@) is None,
        },
{
    let mut encoder = GzEncoder::new(Vec::new(), Compression::default());
    encoder.write_all(data).ok()?;
    encoder.finish().ok()
}

/// Whether `stream` has the frame of a gzip stream of `length` bytes of data.
pub fn has_gzip_frame(stream: &Vec<u8>, length: usize) -> (framed: bool)
    ensures
        framed == is_gzip_frame(stream@, length as nat),
{
    let n = stream.len();
    if n < 18 {
        return false;
    }
    if stream[0] != 0x1f || stream[1] != 0x8b || stream[2] != 8 {
        return false;
    }
    let size: u64 = stream[n - 4] as u64 + 256 * (stream[n - 3] as u64) + 65536 * (stream[n
        - 2] as u64) + 16777216 * (stream[n - 1] as u64);
    proof {
        let tail = stream@.subrange(n - 4, n as int);
        assert(tail[0] == stream@[n - 4]);
        assert(tail[1] == stream@[n - 3]);
        assert(tail[2] == stream@[n - 2]);
        assert(tail[3] == stream@[n - 1]);
    }
    size == (length as u64) % 0x1_0000_0000
}

/// Compresses an encoded document for transport. The result is the transport
/// form of the bytes: the stream that the compressor gives for them, with the
/// frame of a gzip stream of them. Where the compressor gives no stream, or
/// one without that frame, and only there, the compression has failed.
pub fn compress(encoded: &Vec<u8>) -> (result: Result<Vec<u8>, WriteError>)
    ensures
        match result {
            Ok(stream) => compressed(encoded@) == Some(stream@),
            Err(e) => compressed(encoded@) is None && e.deep_view()
                == WriteErrorView::Compression,
        },
{
    match gzip(encoded) {
        Some(stream) => {
            if has_gzip_frame(&stream, encoded.len()) {
                Ok(stream)
            } else {
                Err(WriteError::Compression)
            }
        },
        None => Err(WriteError::Compression),
    }
}

} // verus!
