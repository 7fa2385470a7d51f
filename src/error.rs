use vstd::prelude::*;
use vstd::string::*;

verus! {

/// Why an operation of the library failed.
#[derive(Debug, Clone, PartialEq, Eq)]
pub enum PortableAudioLibraryError {
    /// A compression backend could not encode a payload.
    Compression,
    /// The payload of the entry at `index` is not valid for the declared backend.
    Decompression { index: usize },
    /// The container is shorter than its eight-byte length header.
    HeaderTruncated,
    /// The header announces more metadata bytes than the container holds.
    MetadataTruncated,
    /// Fewer bytes remain than the entry at `index` declares as its size.
    PayloadTruncated { index: usize },
    /// The container would not fit in memory.
    ContainerTooLarge,
    /// The path has no final component that could serve as a file name.
    MissingFileName { path: String },
}

pub type PortableAudioLibraryResult<T> = Result<T, PortableAudioLibraryError>;

impl PortableAudioLibraryError {
    /// The description of this error.
    pub open spec fn message_spec(&self) -> Seq<char> {
        match self {
            PortableAudioLibraryError::Compression => "compression failed"@,
            PortableAudioLibraryError::Decompression { .. } => "payload does not decode with the declared compression"@,
            PortableAudioLibraryError::HeaderTruncated => "container is shorter than its length header"@,
            PortableAudioLibraryError::MetadataTruncated => "metadata length exceeds the container size"@,
            PortableAudioLibraryError::PayloadTruncated { .. } => "container ends before a declared payload"@,
            PortableAudioLibraryError::ContainerTooLarge => "container too large"@,
            PortableAudioLibraryError::MissingFileName { path } => "path has no file name: "@ + path@,
        }
    }

    /// A short description for people, in place of `Display`.
    pub fn message(&self) -> (r: String)
        ensures
            r@ == self.message_spec(),
    {
        match self {
            PortableAudioLibraryError::Compression => String::from_str("compression failed"),
            PortableAudioLibraryError::Decompression { .. } => String::from_str(
                "payload does not decode with the declared compression",
            ),
            PortableAudioLibraryError::HeaderTruncated => String::from_str(
                "container is shorter than its length header",
            ),
            PortableAudioLibraryError::MetadataTruncated => String::from_str(
                "metadata length exceeds the container size",
            ),
            PortableAudioLibraryError::PayloadTruncated { .. } => String::from_str(
                "container ends before a declared payload",
            ),
            PortableAudioLibraryError::ContainerTooLarge => String::from_str(
                "container too large",
            ),
            PortableAudioLibraryError::MissingFileName { path } => {
                let mut s = String::from_str("path has no file name: ");
                s.append(path.as_str());
                s
            },
        }
    }
}

} // verus!
