//! Packs a library of audio files, grouped into playlists, into one portable
//! container, and unpacks it again.
//!
//! The verified core holds the container layout (a big-endian length header,
//! the metadata section, then every compressed payload in entry order), the
//! choice of compression backend by descriptor, and the importers' merge of
//! entries by file name. Reading directories, copying files and encoding the
//! metadata section are left to the caller, who hands plain values in and
//! gets plain values back.
pub mod builder;
pub mod compression;
pub mod container;
pub mod error;
pub mod serialization;
