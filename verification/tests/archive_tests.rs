use gitka::archive::{archive_extension, compression_method_byte, Archive, ArchiveHeader, COMPRESSION_ZSTD};
use gitka::config::CompressionBackend;
use gitka::error::GitkaError;

#[test]
fn test_header_roundtrip() {
    let header = ArchiveHeader::new_zstd();
    let bytes = header.to_bytes();
    let parsed = ArchiveHeader::from_bytes(&bytes).unwrap();

    assert_eq!(header.magic, parsed.magic);
    assert_eq!(header.version, parsed.version);
    assert_eq!(header.compression_method, parsed.compression_method);
    assert_eq!(header.reserved, parsed.reserved);
}

#[test]
fn test_header_validation() {
    let header = ArchiveHeader::new_zstd();
    assert!(header.validate().is_ok());

    let mut bad_header = header.clone();
    bad_header.magic = [0; 5];
    assert!(bad_header.validate().is_err());
}

#[test]
fn header_bytes_layout() {
    let bytes = ArchiveHeader::new_zstd().to_bytes();
    assert_eq!(bytes, [0x47, 0x49, 0x54, 0x4b, 0x41, 1, 1, 0, 0, 0, 0, 0]);
}

#[test]
fn header_rejects_bad_magic() {
    let bytes = [0u8; 12];
    match ArchiveHeader::from_bytes(&bytes) {
        Err(GitkaError::Compression(m)) => assert_eq!(m, "Invalid archive: bad magic bytes"),
        _ => panic!("expected a compression error"),
    }
}

#[test]
fn header_rejects_newer_version() {
    let mut header = ArchiveHeader::new_zstd();
    header.version = 2;
    match header.validate() {
        Err(GitkaError::Compression(m)) => assert_eq!(m, "Unsupported archive version: 2"),
        _ => panic!("expected a version error"),
    }
}

#[test]
fn header_rejects_unknown_method() {
    let header = ArchiveHeader::new(0xAB);
    match header.validate() {
        Err(GitkaError::Compression(m)) => assert_eq!(m, "Unsupported compression method: 0xAB"),
        _ => panic!("expected a method error"),
    }
    assert!(header.compression_backend().is_err());
}

#[test]
fn archive_from_header_bytes() {
    let bytes = ArchiveHeader::new_zstd().to_bytes();
    let a = Archive::from_header_bytes("x.gitka.zst".to_string(), &bytes).unwrap();
    assert!(a.is_compatible());
    assert_eq!(a.path, "x.gitka.zst");
    let created = Archive::create_zstd("y".to_string());
    assert_eq!(created.header.compression_method, COMPRESSION_ZSTD);
}

#[test]
fn extension_and_method_byte() {
    assert_eq!(archive_extension(COMPRESSION_ZSTD), ".gitka.zst");
    assert_eq!(archive_extension(7), ".gitka");
    assert_eq!(compression_method_byte(&CompressionBackend::Zstd), 1);
}
