use vstd::prelude::*;
use super::Compression;
use crate::error::PortableAudioLibraryError;
use std::io::Read;

verus! {

/// The gzip stream that flate2 writes for `data` at a compression level.
pub uninterp spec fn gzip_encoded(level: u32, data: Seq<u8>) -> Seq<u8>;

/// What flate2 decodes from a gzip stream; `None` where it reports an error.
pub uninterp spec fn gzip_decoded(data: Seq<u8>) -> Option<Seq<u8>>;

/// Whether `data` opens with the gzip identification bytes.
pub open spec fn has_gzip_magic(data: Seq<u8>) -> bool {
    data.len() >= 2 && data[0] == 0x1f && data[1] == 0x8b
}

/// The highest gzip level that this backend accepts.
pub const MAX_GZIP_LEVEL: u32 = 9;

/// Relies on flate2's `read::GzEncoder` (default header: no time stamp, no
/// file name, OS byte 255): the stream depends on the level and the input
/// alone, opens with the ten-byte header that starts 0x1f 0x8b, and
/// `read::GzDecoder` decodes it back to the input. Reading from a slice
/// cannot fail.
#[verifier::external_body]
fn gzip_compress(level: u32, data: &[u8]) -> (r: Result<Vec<u8>, std::io::Error>)
    requires
        level <= MAX_GZIP_LEVEL,
    ensures
        r is Ok,
        r matches Ok(v) ==> v@ == gzip_encoded(level, data@) && v@.len() >= 10 && has_gzip_magic(v@)
            && gzip_decoded(v@) == Some(data@),
{
    let mut encoder = flate2::read::GzEncoder::new(data, flate2::Compression::new(level));
    let mut out = Vec::new();
    encoder.read_to_end(&mut out).map(|_| out)
}

/// Relies on flate2's `read::GzDecoder`: it decodes the first gzip member of
/// `data`, and fails where the header does not start with the identification
/// bytes 0x1f 0x8b (`GzHeaderParser::parse`).
#[verifier::external_body]
fn gzip_decompress(data: &[u8]) -> (r: Result<Vec<u8>, std::io::Error>)
    ensures
        match r {
            Ok(v) => has_gzip_magic(data@) && gzip_decoded(data@) == Some(v@),
            Err(_) => !has_gzip_magic(data@) || gzip_decoded(data@) is None,
        },
{
    let mut decoder = flate2::read::GzDecoder::new(data);
    let mut out = Vec::new();
    decoder.read_to_end(&mut out).map(|_| out)
}

/// The gzip backend, with its compression level (0 to 9).
#[derive(Debug, Clone, Copy, PartialEq, Eq, Structural)]
pub struct Gz(pub u32);

impl Compression for Gz {
    open spec fn encodes(&self, data: Seq<u8>, out: Seq<u8>) -> bool {
        &&& out == gzip_encoded(self.0, data)
        &&& out.len() >= 10
        &&& has_gzip_magic(out)
        &&& gzip_decoded(out) == Some(data)
    }

    open spec fn decoded(&self, data: Seq<u8>) -> Option<Seq<u8>> {
        if has_gzip_magic(data) {
            gzip_decoded(data)
        } else {
            None
        }
    }

    open spec fn accepts(&self) -> bool {
        self.0 <= MAX_GZIP_LEVEL
    }

    fn compress(&self, data: &[u8]) -> (r: Result<Vec<u8>, PortableAudioLibraryError>) {
        if self.0 > MAX_GZIP_LEVEL {
            return Err(PortableAudioLibraryError::Compression);
        }
        match gzip_compress(self.0, data) {
            Ok(v) => Ok(v),
            Err(_) => Err(PortableAudioLibraryError::Compression),
        }
    }

    fn decompress(&self, data: &[u8]) -> (r: Option<Vec<u8>>) {
        match gzip_decompress(data) {
            Ok(v) => Some(v),
            Err(_) => None,
        }
    }
}

} // verus!
