use vstd::prelude::*;
use vstd::slice::slice_to_vec;
use super::Compression;
use crate::error::PortableAudioLibraryError;

verus! {

/// The identity backend: payloads are stored as they are.
#[derive(Debug, Clone, Copy, PartialEq, Eq, Structural)]
pub struct Uncompressed;

impl Compression for Uncompressed {
    open spec fn encodes(&self, data: Seq<u8>, out: Seq<u8>) -> bool {
        out == data
    }

    open spec fn decoded(&self, data: Seq<u8>) -> Option<Seq<u8>> {
        Some(data)
    }

    open spec fn accepts(&self) -> bool {
        true
    }

    fn compress(&self, data: &[u8]) -> (r: Result<Vec<u8>, PortableAudioLibraryError>) {
        Ok(slice_to_vec(data))
    }

    fn decompress(&self, data: &[u8]) -> (r: Option<Vec<u8>>) {
        Some(slice_to_vec(data))
    }
}

} // verus!
