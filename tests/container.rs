use portable_audio_library::compression::{get_compression, Compression, CompressionType};
use portable_audio_library::container::{
    decode_length, encode_length, frame_container, read_metadata_length, HEADER_SIZE,
};
use portable_audio_library::error::PortableAudioLibraryError;
use portable_audio_library::serialization::{AudioMetadata, Metadata};

fn audio(name: &str, size: u64) -> AudioMetadata {
    AudioMetadata { name: name.to_string(), size, playlists: vec!["root".to_string()], path: String::new() }
}

fn library(compression_type: CompressionType, audios: Vec<AudioMetadata>) -> Metadata {
    Metadata { name: "lib".to_string(), compression_type, audios }
}

#[test]
fn length_header_is_big_endian() {
    assert_eq!(encode_length(0x0102_0304_0506_0708), vec![1, 2, 3, 4, 5, 6, 7, 8]);
    assert_eq!(encode_length(5), vec![0, 0, 0, 0, 0, 0, 0, 5]);
    assert_eq!(encode_length(u64::MAX), vec![255; 8]);
    assert_eq!(decode_length(&[0, 0, 0, 0, 0, 0, 1, 0, 99]), 256);
    assert_eq!(decode_length(&encode_length(987_654_321)), 987_654_321);
}

#[test]
fn frame_lays_out_header_metadata_and_payloads() {
    let c = frame_container(b"meta", &vec![b"ab".to_vec(), Vec::new(), b"c".to_vec()]).unwrap();
    assert_eq!(c, vec![0, 0, 0, 0, 0, 0, 0, 4, b'm', b'e', b't', b'a', b'a', b'b', b'c']);
    assert_eq!(read_metadata_length(&c), Ok(4));
}

#[test]
fn empty_library_has_a_well_formed_header() {
    let c = frame_container(&[], &Vec::new()).unwrap();
    assert_eq!(c, vec![0u8; HEADER_SIZE]);
    assert_eq!(read_metadata_length(&c), Ok(0));
    let m = library(CompressionType::Gz(6), Vec::new());
    assert_eq!(m.decompress_audios(&c, HEADER_SIZE), Ok(Vec::new()));
}

#[test]
fn short_container_is_refused() {
    assert_eq!(read_metadata_length(&[0, 0, 0]), Err(PortableAudioLibraryError::HeaderTruncated));
    assert_eq!(
        read_metadata_length(&[0, 0, 0, 0, 0, 0, 0, 9, 1, 2]),
        Err(PortableAudioLibraryError::MetadataTruncated)
    );
}

#[test]
fn compress_audios_records_compressed_sizes() {
    let mut m = library(CompressionType::Gz(9), vec![audio("a.mp3", 1), audio("b.mp3", 2)]);
    let sources = vec![vec![0u8; 5000], b"xyz".to_vec()];
    let payloads = m.compress_audios(&sources).unwrap();
    assert_eq!(payloads.len(), 2);
    assert_eq!(m.audios[0].size, payloads[0].len() as u64);
    assert_eq!(m.audios[1].size, payloads[1].len() as u64);
    assert!(m.audios[0].size < 5000);
    assert_eq!(m.audios[0].name, "a.mp3");
}

#[test]
fn compress_audios_fails_on_an_invalid_gzip_level() {
    let mut m = library(CompressionType::Gz(11), vec![audio("a.mp3", 1)]);
    assert_eq!(m.compress_audios(&vec![b"x".to_vec()]), Err(PortableAudioLibraryError::Compression));
}

#[test]
fn payloads_are_read_at_their_offsets() {
    for t in [CompressionType::Uncompressed, CompressionType::Lz4(1), CompressionType::Snap, CompressionType::Gz(5)] {
        let mut m = library(t, vec![audio("a", 0), audio("b", 0), audio("c", 0)]);
        let sources = vec![b"first".to_vec(), Vec::new(), vec![42u8; 70_000]];
        let payloads = m.compress_audios(&sources).unwrap();
        let c = frame_container(b"header!", &payloads).unwrap();
        let l = read_metadata_length(&c).unwrap();
        assert_eq!(l, 7);
        assert_eq!(&c[HEADER_SIZE..HEADER_SIZE + l], b"header!");
        let start = HEADER_SIZE + l;
        let s0 = m.audios[0].size as usize;
        let s1 = m.audios[1].size as usize;
        assert_eq!(&c[start..start + s0], &payloads[0][..]);
        assert_eq!(&c[start + s0 + s1..], &payloads[2][..]);
        assert_eq!(m.decompress_audios(&c, start), Ok(sources));
    }
}

#[test]
fn truncated_payload_is_reported_with_its_index() {
    let m = library(CompressionType::Uncompressed, vec![audio("a", 2), audio("b", 5)]);
    let c = frame_container(b"m", &vec![b"ab".to_vec(), b"cd".to_vec()]).unwrap();
    assert_eq!(m.decompress_audios(&c, 9), Err(PortableAudioLibraryError::PayloadTruncated { index: 1 }));
}

#[test]
fn payload_of_another_backend_fails_to_decode() {
    let mut written = library(CompressionType::Lz4(2), vec![audio("a", 0), audio("b", 0)]);
    let payloads = written.compress_audios(&vec![b"one".to_vec(), b"two".to_vec()]).unwrap();
    let c = frame_container(b"", &payloads).unwrap();
    let mut read = written.clone();
    read.compression_type = CompressionType::Gz(2);
    assert_eq!(read.decompress_audios(&c, HEADER_SIZE), Err(PortableAudioLibraryError::Decompression { index: 0 }));
    assert_eq!(written.decompress_audios(&c, HEADER_SIZE), Ok(vec![b"one".to_vec(), b"two".to_vec()]));
}

#[test]
fn backend_of_descriptor_decodes_what_it_encoded() {
    let b = get_compression(&CompressionType::Snap);
    let packed = b.compress(b"hello").unwrap();
    assert_eq!(b.decompress(&packed), Some(b"hello".to_vec()));
}

#[test]
fn error_messages_are_not_empty() {
    assert!(!PortableAudioLibraryError::HeaderTruncated.message().is_empty());
    let e = PortableAudioLibraryError::MissingFileName { path: "/".to_string() };
    assert!(e.message().ends_with("/"));
}

#[test]
fn nothing_to_compress_always_succeeds() {
    let mut m = library(CompressionType::Gz(11), Vec::new());
    assert_eq!(m.compress_audios(&Vec::new()), Ok(Vec::new()));
}

#[test]
fn error_messages_are_exact() {
    assert_eq!(PortableAudioLibraryError::Compression.message(), "compression failed");
    let e = PortableAudioLibraryError::MissingFileName { path: "a/..".to_string() };
    assert_eq!(e.message(), "path has no file name: a/..");
}
