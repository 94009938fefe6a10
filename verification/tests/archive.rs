use fleurs::asset::packet::{PacketReader, PacketWriter};
use fleurs::asset::AssetReader;
use fleurs::asset::SBType;
use fleurs::error::AssetError;

fn sample_metadata() -> SBType {
    SBType::Object(vec![
        ("version".to_string(), SBType::Int(6)),
        ("name".to_string(), SBType::String("demo".to_string())),
    ])
}

fn sample_archive() -> Vec<u8> {
    let mut writer = PacketWriter::new();
    writer.add("/a.txt".to_string(), b"hi");
    writer.add("/sub/b.txt".to_string(), b"yo");
    writer.finish(&sample_metadata())
}

#[test]
fn archive_starts_with_the_magic() {
    let bytes = sample_archive();
    assert_eq!(&bytes[0..8], b"SBAsset6");
}

#[test]
fn written_archive_opens() {
    let bytes = sample_archive();
    let reader = PacketReader::new(bytes).unwrap();
    assert_eq!(reader.paths().len(), 2);
}

#[test]
fn bad_magic_fails_open() {
    let mut bytes = sample_archive();
    bytes[0] = b'X';
    let err = PacketReader::new(bytes).unwrap_err();
    assert_eq!(err, AssetError::InvalidHeader);
    assert_eq!(err.message(), "Invalid packed file header");

    let err = PacketReader::new(b"NOTANARCHIVE....".to_vec()).unwrap_err();
    assert_eq!(err, AssetError::InvalidHeader);
}

#[test]
fn bad_index_marker_fails_open() {
    let mut bytes = sample_archive();
    let mut off_bytes = [0u8; 8];
    off_bytes.copy_from_slice(&bytes[8..16]);
    let index_offset = u64::from_be_bytes(off_bytes) as usize;
    bytes[index_offset] = b'X';
    let err = PacketReader::new(bytes).unwrap_err();
    assert_eq!(err, AssetError::InvalidIndexHeader);
    assert_eq!(err.message(), "Invalid index header");
}

#[test]
fn short_file_fails_open() {
    let err = PacketReader::new(b"SBAs".to_vec()).unwrap_err();
    assert_eq!(err, AssetError::UnexpectedEof);
}

#[test]
fn existence_checks() {
    let reader = PacketReader::new(sample_archive()).unwrap();
    assert!(reader.exist("/a.txt"));
    assert!(reader.exist("/sub/b.txt"));
    assert!(!reader.exist("/missing"));
    assert!(!reader.exist("a.txt"));
}

#[test]
fn read_returns_exactly_the_recorded_bytes() {
    let reader = PacketReader::new(sample_archive()).unwrap();
    let file = reader.file("/a.txt").unwrap();
    assert_eq!(file.bytes, b"hi".to_vec());
    assert_eq!(file.bytes.len(), 2);
    assert_eq!(file.path, "/a.txt");
    let file = reader.file("/sub/b.txt").unwrap();
    assert_eq!(file.bytes, b"yo".to_vec());
}

#[test]
fn read_of_unindexed_path_fails_not_found() {
    let reader = PacketReader::new(sample_archive()).unwrap();
    let err = reader.file("/missing").unwrap_err();
    assert_eq!(err, AssetError::FileNotFound);
    assert_eq!(err.message(), "File is not exist");
}

#[test]
fn paths_lists_every_entry() {
    let reader = PacketReader::new(sample_archive()).unwrap();
    let mut paths = reader.paths();
    paths.sort();
    assert_eq!(paths, vec!["/a.txt".to_string(), "/sub/b.txt".to_string()]);
}

#[test]
fn metadata_lookup() {
    let reader = PacketReader::new(sample_archive()).unwrap();
    assert_eq!(reader.meta("version".to_string()).unwrap(), SBType::Int(6));
    assert_eq!(
        reader.meta("name".to_string()).unwrap(),
        SBType::String("demo".to_string())
    );
    let err = reader.meta("missing_key".to_string()).unwrap_err();
    assert_eq!(err, AssetError::KeyNotFound);
}

#[test]
fn metadata_that_is_not_an_object_fails_lookup() {
    let mut writer = PacketWriter::new();
    writer.add("/only".to_string(), b"x");
    let bytes = writer.finish(&SBType::Nil);
    let reader = PacketReader::new(bytes).unwrap();
    let err = reader.meta("anything".to_string()).unwrap_err();
    assert_eq!(err, AssetError::MetadataNotObject);
    assert_eq!(err.message(), "Metadata is not an object");
}

#[test]
fn empty_archive_round_trips() {
    let writer = PacketWriter::new();
    let bytes = writer.finish(&SBType::Object(vec![]));
    let reader = PacketReader::new(bytes).unwrap();
    assert_eq!(reader.paths().len(), 0);
    assert!(!reader.exist("/anything"));
}

#[test]
fn uniform_interface_on_packed_archive() {
    let reader = PacketReader::new(sample_archive()).unwrap();
    assert!(AssetReader::exist(&reader, "/a.txt"));
    assert_eq!(AssetReader::paths(&reader).len(), 2);
    assert_eq!(
        AssetReader::meta(&reader, "version".to_string()).unwrap(),
        SBType::Int(6)
    );
}

#[test]
fn payload_region_is_addressed_by_the_index() {
    // the two payloads land back to back after the sixteen header bytes
    let bytes = sample_archive();
    assert_eq!(&bytes[16..18], b"hi");
    assert_eq!(&bytes[18..20], b"yo");
}
