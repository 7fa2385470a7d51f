use vstd::prelude::*;
use super::Compression;
use crate::error::PortableAudioLibraryError;
use std::io::Read;

verus! {

/// The Snappy frame stream that the snap crate writes for `data`.
pub uninterp spec fn snappy_encoded(data: Seq<u8>) -> Seq<u8>;

/// What the snap crate decodes from a Snappy frame stream; `None` where it
/// reports an error.
pub uninterp spec fn snappy_decoded(data: Seq<u8>) -> Option<Seq<u8>>;

/// Relies on snap's `read::FrameEncoder`: the stream depends on the input
/// alone, and `read::FrameDecoder` decodes it back to the input. Reading from
/// a slice cannot fail.
#[verifier::external_body]
fn snappy_compress(data: &[u8]) -> (r: Result<Vec<u8>, std::io::Error>)
    ensures
        r is Ok,
        r matches Ok(v) ==> v@ == snappy_encoded(data@) && snappy_decoded(v@) == Some(data@),
{
    let mut encoder = ::snap::read::FrameEncoder::new(data);
    let mut out = Vec::new();
    encoder.read_to_end(&mut out).map(|_| out)
}

/// Relies on snap's `read::FrameDecoder`: it decodes the frame stream in `data`.
#[verifier::external_body]
fn snappy_decompress(data: &[u8]) -> (r: Result<Vec<u8>, std::io::Error>)
    ensures
        match r {
            Ok(v) => snappy_decoded(data@) == Some(v@),
            Err(_) => snappy_decoded(data@) is None,
        },
{
    let mut decoder = ::snap::read::FrameDecoder::new(data);
    let mut out = Vec::new();
    decoder.read_to_end(&mut out).map(|_| out)
}

/// The Snappy frame-format backend; it has no level.
#[derive(Debug, Clone, Copy, PartialEq, Eq, Structural)]
pub struct Snap;

impl Compression for Snap {
    open spec fn encodes(&self, data: Seq<u8>, out: Seq<u8>) -> bool {
        out == snappy_encoded(data) && snappy_decoded(out) == Some(data)
    }

    open spec fn decoded(&self, data: Seq<u8>) -> Option<Seq<u8>> {
        snappy_decoded(data)
    }

    open spec fn accepts(&self) -> bool {
        true
    }

    fn compress(&self, data: &[u8]) -> (r: Result<Vec<u8>, PortableAudioLibraryError>) {
        match snappy_compress(data) {
            Ok(v) => Ok(v),
            Err(_) => Err(PortableAudioLibraryError::Compression),
        }
    }

    fn decompress(&self, data: &[u8]) -> (r: Option<Vec<u8>>) {
        match snappy_decompress(data) {
            Ok(v) => Some(v),
            Err(_) => None,
        }
    }
}

} // verus!
