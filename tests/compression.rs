use portable_audio_library::compression::gz::Gz;
use portable_audio_library::compression::lz4::Lz4;
use portable_audio_library::compression::none::Uncompressed;
use portable_audio_library::compression::snap::Snap;
use portable_audio_library::compression::{get_compression, Backend, Compression, CompressionType};
use portable_audio_library::error::PortableAudioLibraryError;

fn sample(len: usize) -> Vec<u8> {
    let mut v = Vec::with_capacity(len);
    let mut x: u32 = 12345;
    for i in 0..len {
        x = x.wrapping_mul(1103515245).wrapping_add(12345);
        v.push(if i % 7 == 0 { (x >> 16) as u8 } else { (i % 13) as u8 });
    }
    v
}

fn all_types() -> Vec<CompressionType> {
    vec![
        CompressionType::Uncompressed,
        CompressionType::Lz4(0),
        CompressionType::Lz4(9),
        CompressionType::Snap,
        CompressionType::Gz(0),
        CompressionType::Gz(6),
        CompressionType::Gz(9),
    ]
}

#[test]
fn every_backend_round_trips_small_input() {
    let data = b"some audio bytes, some audio bytes, some audio bytes".to_vec();
    for t in all_types() {
        let b = get_compression(&t);
        let packed = b.compress(&data).unwrap();
        assert_eq!(b.decompress(&packed).unwrap(), data, "{:?}", t);
    }
}

#[test]
fn every_backend_round_trips_empty_input() {
    for t in all_types() {
        let b = get_compression(&t);
        let packed = b.compress(&[]).unwrap();
        assert_eq!(b.decompress(&packed).unwrap(), Vec::<u8>::new(), "{:?}", t);
    }
}

#[test]
fn every_backend_round_trips_large_input() {
    let data = sample(3 * 1024 * 1024 + 17);
    for t in all_types() {
        let b = get_compression(&t);
        let packed = b.compress(&data).unwrap();
        assert_eq!(b.decompress(&packed).unwrap(), data, "{:?}", t);
    }
}

#[test]
fn uncompressed_is_identity() {
    let data = vec![1u8, 2, 3, 0, 255];
    assert_eq!(Uncompressed.compress(&data).unwrap(), data);
    assert_eq!(Uncompressed.decompress(&data).unwrap(), data);
}

#[test]
fn compressing_changes_the_bytes() {
    let data = vec![7u8; 4096];
    assert_ne!(Gz(6).compress(&data).unwrap(), data);
    assert_ne!(Lz4(1).compress(&data).unwrap(), data);
    assert_ne!(Snap.compress(&data).unwrap(), data);
    assert!(Gz(9).compress(&data).unwrap().len() < data.len());
}

#[test]
fn get_compression_maps_each_descriptor() {
    assert_eq!(get_compression(&CompressionType::Uncompressed), Backend::Uncompressed(Uncompressed));
    assert_eq!(get_compression(&CompressionType::Lz4(4)), Backend::Lz4(Lz4(4)));
    assert_eq!(get_compression(&CompressionType::Snap), Backend::Snap(Snap));
    assert_eq!(get_compression(&CompressionType::Gz(3)), Backend::Gz(Gz(3)));
    assert_eq!(CompressionType::default(), CompressionType::Uncompressed);
}

#[test]
fn gzip_level_above_nine_is_refused() {
    assert_eq!(Gz(10).compress(b"abc"), Err(PortableAudioLibraryError::Compression));
}

#[test]
fn gzip_stream_opens_with_its_magic() {
    let packed = Gz(1).compress(b"abc").unwrap();
    assert_eq!(&packed[..2], &[0x1f, 0x8b]);
}

#[test]
fn lz4_stream_opens_with_its_magic() {
    let packed = Lz4(1).compress(b"abc").unwrap();
    assert_eq!(&packed[..4], &[0x04, 0x22, 0x4d, 0x18]);
}

#[test]
fn gzip_refuses_an_lz4_payload() {
    let packed = Lz4(3).compress(&sample(10_000)).unwrap();
    assert_eq!(Gz(3).decompress(&packed), None);
    assert_eq!(Gz(3).decompress(&packed), None);
}

#[test]
fn corrupt_streams_are_refused() {
    assert_eq!(Gz(1).decompress(b"not a gzip stream"), None);
    assert_eq!(Lz4(1).decompress(b"not an lz4 frame"), None);
    assert_eq!(Snap.decompress(b"not a snappy stream"), None);
    let mut packed = Gz(1).compress(&sample(1000)).unwrap();
    packed.truncate(packed.len() - 4);
    assert_eq!(Gz(1).decompress(&packed), None);
}

#[test]
fn lz4_refuses_a_gzip_payload() {
    let packed = Gz(6).compress(&sample(5000)).unwrap();
    assert_eq!(Lz4(1).decompress(&packed), None);
    let empty = Gz(6).compress(&[]).unwrap();
    assert_eq!(Lz4(1).decompress(&empty), None);
}

#[test]
fn gzip_decoding_ignores_the_level() {
    let data = sample(20_000);
    let packed = Gz(1).compress(&data).unwrap();
    assert_eq!(Gz(9).decompress(&packed), Some(data));
}

#[test]
fn gzip_level_six_round_trips_empty_input() {
    let packed = Gz(6).compress(b"").unwrap();
    assert_eq!(Gz(6).decompress(&packed), Some(Vec::new()));
}
