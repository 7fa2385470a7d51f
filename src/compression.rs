use vstd::prelude::*;
use crate::error::PortableAudioLibraryError;

pub mod gz;
pub mod lz4;
pub mod none;
pub mod snap;

verus! {

/// An I/O error, as the compression crates report it.
#[verifier::external_type_specification]
#[verifier::external_body]
pub struct ExIoError(std::io::Error);

/// Which backend the payloads of a container were compressed with. It is
/// stored in the container, and reading picks the backend by it alone.
#[derive(Debug, Clone, Copy, PartialEq, Eq, Structural)]
pub enum CompressionType {
    Uncompressed,
    Lz4(u32),
    Snap,
    Gz(u32),
}

impl Default for CompressionType {
    fn default() -> (r: CompressionType)
        ensures
            r == CompressionType::Uncompressed,
    {
        CompressionType::Uncompressed
    }
}

/// Compresses and decompresses a payload held in memory.
pub trait Compression {
    /// Whether `out` is a stream that `compress` may produce from `data`.
    spec fn encodes(&self, data: Seq<u8>, out: Seq<u8>) -> bool;

    /// What `decompress` recovers from `data`; `None` where `data` is not a
    /// valid stream of this backend.
    spec fn decoded(&self, data: Seq<u8>) -> Option<Seq<u8>>;

    /// Whether the backend's settings are valid: `compress` succeeds on every
    /// input where they are, and refuses every input where they are not.
    spec fn accepts(&self) -> bool;

    /// Compresses `data`; decompressing the result gives `data` back.
    fn compress(&self, data: &[u8]) -> (r: Result<Vec<u8>, PortableAudioLibraryError>)
        ensures
            match r {
                Ok(v) => self.encodes(data@, v@) && self.decoded(v@) == Some(data@),
                Err(e) => !self.accepts() && e == PortableAudioLibraryError::Compression,
            },
            self.accepts() <==> r is Ok,
    ;

    /// Decompresses `data`, or returns `None` where it is not a valid stream.
    fn decompress(&self, data: &[u8]) -> (r: Option<Vec<u8>>)
        ensures
            match r {
                Some(v) => self.decoded(data@) == Some(v@),
                None => self.decoded(data@) is None,
            },
    ;
}

/// The four backends, one of which a descriptor selects.
#[derive(Debug, Clone, Copy, PartialEq, Eq, Structural)]
pub enum Backend {
    Uncompressed(none::Uncompressed),
    Lz4(lz4::Lz4),
    Snap(snap::Snap),
    Gz(gz::Gz),
}

impl CompressionType {
    /// The backend that this descriptor selects.
    pub open spec fn backend(self) -> Backend {
        match self {
            CompressionType::Uncompressed => Backend::Uncompressed(none::Uncompressed),
            CompressionType::Lz4(level) => Backend::Lz4(lz4::Lz4(level)),
            CompressionType::Snap => Backend::Snap(snap::Snap),
            CompressionType::Gz(level) => Backend::Gz(gz::Gz(level)),
        }
    }
}

/// Returns the backend that `compression_type` selects.
pub fn get_compression(compression_type: &CompressionType) -> (r: Backend)
    ensures
        r == compression_type.backend(),
{
    match compression_type {
        CompressionType::Uncompressed => Backend::Uncompressed(none::Uncompressed),
        CompressionType::Lz4(level) => Backend::Lz4(lz4::Lz4(*level)),
        CompressionType::Snap => Backend::Snap(snap::Snap),
        CompressionType::Gz(level) => Backend::Gz(gz::Gz(*level)),
    }
}

impl Compression for Backend {
    open spec fn encodes(&self, data: Seq<u8>, out: Seq<u8>) -> bool {
        match self {
            Backend::Uncompressed(b) => b.encodes(data, out),
            Backend::Lz4(b) => b.encodes(data, out),
            Backend::Snap(b) => b.encodes(data, out),
            Backend::Gz(b) => b.encodes(data, out),
        }
    }

    open spec fn decoded(&self, data: Seq<u8>) -> Option<Seq<u8>> {
        match self {
            Backend::Uncompressed(b) => b.decoded(data),
            Backend::Lz4(b) => b.decoded(data),
            Backend::Snap(b) => b.decoded(data),
            Backend::Gz(b) => b.decoded(data),
        }
    }

    open spec fn accepts(&self) -> bool {
        match self {
            Backend::Uncompressed(b) => b.accepts(),
            Backend::Lz4(b) => b.accepts(),
            Backend::Snap(b) => b.accepts(),
            Backend::Gz(b) => b.accepts(),
        }
    }

    fn compress(&self, data: &[u8]) -> (r: Result<Vec<u8>, PortableAudioLibraryError>) {
        match self {
            Backend::Uncompressed(b) => b.compress(data),
            Backend::Lz4(b) => b.compress(data),
            Backend::Snap(b) => b.compress(data),
            Backend::Gz(b) => b.compress(data),
        }
    }

    fn decompress(&self, data: &[u8]) -> (r: Option<Vec<u8>>) {
        match self {
            Backend::Uncompressed(b) => b.decompress(data),
            Backend::Lz4(b) => b.decompress(data),
            Backend::Snap(b) => b.decompress(data),
            Backend::Gz(b) => b.decompress(data),
        }
    }
}

/// Every backend decodes what it encoded back to the input, whatever the
/// input (empty or of any length) and whatever the level.
pub proof fn lemma_backend_fidelity(compression_type: CompressionType, data: Seq<u8>, out: Seq<u8>)
    requires
        compression_type.backend().encodes(data, out),
    ensures
        compression_type.backend().decoded(out) == Some(data),
{
}

/// Gzip decoding does not depend on the level: a gzip payload written at
/// one level reads back at any other.
pub proof fn lemma_gzip_level_independent(level: u32, other: u32, data: Seq<u8>, out: Seq<u8>)
    requires
        CompressionType::Gz(level).backend().encodes(data, out),
    ensures
        CompressionType::Gz(other).backend().decoded(out) == Some(data),
{
}

/// A payload that the LZ4 backend produced never passes for gzip: it opens
/// with the LZ4 magic number, and the gzip backend refuses every stream that
/// does not open with the gzip identification bytes.
pub proof fn lemma_gzip_rejects_lz4_payload(lz4_level: u32, gzip_level: u32, data: Seq<u8>, payload: Seq<u8>)
    requires
        CompressionType::Lz4(lz4_level).backend().encodes(data, payload),
    ensures
        CompressionType::Gz(gzip_level).backend().decoded(payload) is None,
{
    assert(payload[0] == lz4::lz4_magic()[0]);
}

/// A payload that the gzip backend produced never passes for LZ4: it opens
/// with the gzip identification bytes and is at least ten bytes long, and
/// the LZ4 backend refuses every stream of seven bytes or more that does not
/// open with an LZ4 frame magic number.
pub proof fn lemma_lz4_rejects_gzip_payload(gzip_level: u32, lz4_level: u32, data: Seq<u8>, payload: Seq<u8>)
    requires
        CompressionType::Gz(gzip_level).backend().encodes(data, payload),
    ensures
        CompressionType::Lz4(lz4_level).backend().decoded(payload) is None,
{
}

} // verus!
