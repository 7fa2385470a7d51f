use vstd::prelude::*;
use super::Compression;
use crate::error::PortableAudioLibraryError;
use std::io::{Read, Write};

verus! {

/// What the lz4 crate decodes from an LZ4 frame; `None` where it reports an error.
pub uninterp spec fn lz4_decoded(data: Seq<u8>) -> Option<Seq<u8>>;

/// The magic number that opens every LZ4 frame (0x184D2204, little-endian).
pub open spec fn lz4_magic() -> Seq<u8> {
    seq![0x04u8, 0x22u8, 0x4du8, 0x18u8]
}

/// Relies on lz4's `EncoderBuilder`, `Encoder::write_all` and `Encoder::finish`:
/// `build` writes the frame header, which `LZ4F_compressBegin` opens with the
/// magic number, and `Decoder` decodes the finished frame back to the input.
/// Writing into a `Vec` cannot fail. The rest of the frame may differ between
/// machines (the match finder hashes by word size), so it gets no name.
#[verifier::external_body]
fn lz4_compress(level: u32, data: &[u8]) -> (r: Result<Vec<u8>, std::io::Error>)
    ensures
        r is Ok,
        r matches Ok(v) ==> lz4_magic().is_prefix_of(v@) && lz4_decoded(v@) == Some(data@),
{
    let mut encoder = ::lz4::EncoderBuilder::new().level(level).build(Vec::new())?;
    encoder.write_all(data)?;
    let (out, result) = encoder.finish();
    result.map(|_| out)
}

/// Whether `data` may start an LZ4 stream: it opens with the frame magic
/// number, or with that of a skippable frame (0x184D2A5X, little-endian), or
/// is too short for `LZ4F_decodeHeader` to be reached (seven bytes).
pub open spec fn may_start_lz4(data: Seq<u8>) -> bool {
    data.len() < 7 || data[0] == 0x04 || data[0] / 16 == 5
}

/// Relies on lz4's `Decoder`: it decodes the LZ4 frame held in `data`; once
/// seven bytes are in, `LZ4F_decodeHeader` refuses any magic number but that
/// of a frame or of a skippable frame.
#[verifier::external_body]
fn lz4_decompress(data: &[u8]) -> (r: Result<Vec<u8>, std::io::Error>)
    ensures
        match r {
            Ok(v) => may_start_lz4(data@) && lz4_decoded(data@) == Some(v@),
            Err(_) => !may_start_lz4(data@) || lz4_decoded(data@) is None,
        },
{
    let mut decoder = ::lz4::Decoder::new(data)?;
    let mut out = Vec::new();
    decoder.read_to_end(&mut out).map(|_| out)
}

/// The LZ4 frame backend, with its compression level.
#[derive(Debug, Clone, Copy, PartialEq, Eq, Structural)]
pub struct Lz4(pub u32);

impl Compression for Lz4 {
    open spec fn encodes(&self, data: Seq<u8>, out: Seq<u8>) -> bool {
        lz4_magic().is_prefix_of(out) && lz4_decoded(out) == Some(data)
    }

    open spec fn decoded(&self, data: Seq<u8>) -> Option<Seq<u8>> {
        if may_start_lz4(data) {
            lz4_decoded(data)
        } else {
            None
        }
    }

    open spec fn accepts(&self) -> bool {
        true
    }

    fn compress(&self, data: &[u8]) -> (r: Result<Vec<u8>, PortableAudioLibraryError>) {
        match lz4_compress(self.0, data) {
            Ok(v) => Ok(v),
            Err(_) => Err(PortableAudioLibraryError::Compression),
        }
    }

    fn decompress(&self, data: &[u8]) -> (r: Option<Vec<u8>>) {
        match lz4_decompress(data) {
            Ok(v) => Some(v),
            Err(_) => Option::None,
        }
    }
}

} // verus!
