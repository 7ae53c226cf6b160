//! The two outside codecs the handshake and the object updates lean on: zlib
//! and SHA-1.
use flate2::read::ZlibDecoder;
use flate2::write::ZlibEncoder;
use flate2::Compression;
use sha1::{Digest, Sha1};
use std::io::{ErrorKind, Read, Write};
use vstd::prelude::*;

verus! {

/// How a zlib stream can fail.
#[derive(Debug, Clone, Copy, PartialEq, Eq, Structural)]
pub enum ZlibFault {
    /// The input ended before the stream did.
    Incomplete,
    /// The bytes are not a zlib stream.
    Corrupt,
}

/// What `flate2::read::ZlibDecoder` makes of a run of bytes.
pub uninterp spec fn inflated(data: Seq<u8>) -> Result<Seq<u8>, ZlibFault>;

/// What `flate2::write::ZlibEncoder` makes of a run of bytes at the default
/// compression level.
pub uninterp spec fn deflated(data: Seq<u8>) -> Result<Seq<u8>, ZlibFault>;

/// What `sha1::Sha1` makes of a message.
pub uninterp spec fn sha1_of(message: Seq<u8>) -> Seq<u8>;

/// Expands a zlib stream with `flate2::read::ZlibDecoder`, read to its end.
///
/// The contract claims that the outcome is a function of the bytes alone. The
/// decoder reports exactly two kinds of failure, an input that ends early and
/// an input that is not a zlib stream, and the two are kept apart.
#[verifier::external_body]
pub(crate) fn inflate(data: &[u8]) -> (r: Result<Vec<u8>, ZlibFault>)
    ensures
        match r {
            Ok(plain) => inflated(data@) == Ok::<Seq<u8>, ZlibFault>(plain@),
            Err(fault) => inflated(data@) == Err::<Seq<u8>, ZlibFault>(fault),
        },
{
    let mut plain = Vec::new();
    match ZlibDecoder::new(data).read_to_end(&mut plain) {
        Ok(_) => Ok(plain),
        Err(e) => match e.kind() {
            ErrorKind::UnexpectedEof => Err(ZlibFault::Incomplete),
            _ => Err(ZlibFault::Corrupt),
        },
    }
}

/// Compresses a run of bytes with `flate2::write::ZlibEncoder` at the default
/// level.
///
/// The contract claims that the outcome is a function of the bytes alone, and
/// that what was compressed expands to itself again.
#[verifier::external_body]
pub(crate) fn deflate(data: &[u8]) -> (r: Result<Vec<u8>, ZlibFault>)
    ensures
        match r {
            Ok(packed) => deflated(data@) == Ok::<Seq<u8>, ZlibFault>(packed@) && inflated(packed@)
                == Ok::<Seq<u8>, ZlibFault>(data@),
            Err(fault) => deflated(data@) == Err::<Seq<u8>, ZlibFault>(fault),
        },
{
    let mut encoder = ZlibEncoder::new(Vec::new(), Compression::default());
    match encoder.write_all(data).and_then(|_| encoder.finish()) {
        Ok(packed) => Ok(packed),
        Err(e) => match e.kind() {
            ErrorKind::UnexpectedEof => Err(ZlibFault::Incomplete),
            _ => Err(ZlibFault::Corrupt),
        },
    }
}

/// Hashes a message with `sha1::Sha1`.
///
/// The contract claims that the digest is a function of the message alone.
/// That it is twenty bytes long is in the result's type.
#[verifier::external_body]
pub(crate) fn sha1(message: &[u8]) -> (r: [u8; 20])
    ensures
        r@ == sha1_of(message@),
{
    Sha1::digest(message).into()
}

} // verus!
