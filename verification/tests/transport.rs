use std::io::Read;

use flate2::read::GzDecoder;
use interchange_device::error::WriteError;
use interchange_device::transport;

fn unpack(stream: &[u8]) -> Vec<u8> {
    let mut data = Vec::new();
    GzDecoder::new(stream).read_to_end(&mut data).unwrap();
    data
}

#[test]
fn compressed_document_unpacks_to_the_same_bytes() {
    let mut encoded = Vec::new();
    for i in 0..5000u32 {
        encoded.extend_from_slice(&(i % 97).to_le_bytes());
    }
    let stream = transport::compress(&encoded).unwrap();
    assert_ne!(stream, encoded);
    assert!(stream.len() < encoded.len());
    assert_eq!(&stream[..3], &[0x1f, 0x8b, 8]);
    assert_eq!(&stream[stream.len() - 4..], &20000u32.to_le_bytes());
    assert_eq!(unpack(&stream), encoded);
    assert!(transport::has_gzip_frame(&stream, encoded.len()));
    assert!(!transport::has_gzip_frame(&stream, encoded.len() + 1));
}

#[test]
fn compressing_nothing_still_gives_a_frame() {
    let stream = transport::compress(&Vec::new()).unwrap();
    assert!(stream.len() >= 18);
    assert!(transport::has_gzip_frame(&stream, 0));
    assert_eq!(unpack(&stream), Vec::<u8>::new());
}

#[test]
fn compression_depends_on_the_data_alone() {
    let encoded = b"device resources".to_vec();
    let first = transport::compress(&encoded).unwrap();
    let second = transport::compress(&encoded).unwrap();
    assert_eq!(first, second);
    assert_ne!(first, transport::compress(&b"device resource".to_vec()).unwrap());
}

#[test]
fn frame_needs_magic_method_and_length() {
    let mut stream = vec![0u8; 18];
    stream[0] = 0x1f;
    stream[1] = 0x8b;
    stream[2] = 8;
    stream[14] = 0x34;
    stream[15] = 0x12;
    assert!(transport::has_gzip_frame(&stream, 0x1234));
    assert!(transport::has_gzip_frame(&stream, 0x1_0000_1234));
    assert!(!transport::has_gzip_frame(&stream, 0x1235));
    assert!(!transport::has_gzip_frame(&stream[..17].to_vec(), 0x1234));
    for (at, value) in [(0usize, 0x1eu8), (1, 0x8c), (2, 9)] {
        let mut broken = stream.clone();
        broken[at] = value;
        assert!(!transport::has_gzip_frame(&broken, 0x1234));
    }
    stream[17] = 0x80;
    assert!(transport::has_gzip_frame(&stream, 0x8000_1234));
    assert_eq!(WriteError::Compression.message(), "the document could not be compressed");
}
