use fleurs::asset::directory::DirectoryReader;
use fleurs::asset::AssetReader;
use fleurs::asset::SBType;
use fleurs::error::AssetError;

fn sample_reader() -> DirectoryReader {
    DirectoryReader::new(
        "base".to_string(),
        Some("/_metadata".to_string()),
        SBType::Object(vec![("version".to_string(), SBType::Int(6))]),
        vec!["/a.txt".to_string(), "/sub/b.txt".to_string()],
    )
    .unwrap()
}

#[test]
fn directory_backend_parity() {
    let reader = sample_reader();
    let mut paths = reader.paths();
    paths.sort();
    assert_eq!(paths, vec!["/a.txt".to_string(), "/sub/b.txt".to_string()]);
    assert!(reader.exist("/a.txt"));
    assert!(reader.exist("/sub/b.txt"));
    assert!(!reader.exist("/missing"));
}

#[test]
fn non_absolute_path_is_never_contained() {
    let reader = sample_reader();
    assert!(!reader.exist("a.txt"));
    assert!(!reader.exist(""));
    let err = reader.to_filesystem("a.txt").unwrap_err();
    assert_eq!(err, AssetError::PathNotAbsolute);
    assert_eq!(err.message(), "Asset path must be absolute");
}

#[test]
fn non_absolute_walk_entry_is_rejected_at_open() {
    let err = DirectoryReader::new(
        "base".to_string(),
        None,
        SBType::Nil,
        vec!["/ok".to_string(), "bad".to_string()],
    )
    .unwrap_err();
    assert_eq!(err, AssetError::PathNotAbsolute);
}

#[test]
fn repeated_walk_entry_is_kept_once() {
    let reader = DirectoryReader::new(
        "base".to_string(),
        None,
        SBType::Nil,
        vec!["/a".to_string(), "/a".to_string(), "/b".to_string()],
    )
    .unwrap();
    assert_eq!(reader.paths().len(), 2);
}

#[test]
fn virtual_paths_resolve_under_the_base() {
    let reader = sample_reader();
    assert_eq!(reader.to_filesystem("/a.txt").unwrap(), "base/a.txt");
    assert_eq!(reader.to_filesystem("/sub/b.txt").unwrap(), "base/sub/b.txt");
    // extra leading slashes collapse
    assert_eq!(reader.to_filesystem("//x").unwrap(), "base/x");
}

#[test]
fn file_path_requires_a_contained_path() {
    let reader = sample_reader();
    assert_eq!(reader.file_path("/a.txt").unwrap(), "base/a.txt");
    let err = reader.file_path("/missing").unwrap_err();
    assert_eq!(err, AssetError::FileNotFound);
    let err = reader.file_path("a.txt").unwrap_err();
    assert_eq!(err, AssetError::FileNotFound);
}

#[test]
fn sidecar_metadata_lookup() {
    let reader = sample_reader();
    assert_eq!(reader.meta("version".to_string()).unwrap(), SBType::Int(6));
    let err = reader.meta("missing_key".to_string()).unwrap_err();
    assert_eq!(err, AssetError::KeyNotFound);
}

#[test]
fn metadata_defaults_to_nil_without_a_sidecar() {
    let reader = DirectoryReader::new(
        "base".to_string(),
        None,
        SBType::Nil,
        vec!["/a".to_string()],
    )
    .unwrap();
    let err = reader.meta("version".to_string()).unwrap_err();
    assert_eq!(err, AssetError::MetadataNotObject);
}

#[test]
fn uniform_interface_on_directory_backend() {
    let reader = sample_reader();
    assert!(AssetReader::exist(&reader, "/a.txt"));
    assert!(!AssetReader::exist(&reader, "a.txt"));
    assert_eq!(AssetReader::paths(&reader).len(), 2);
    assert_eq!(
        AssetReader::meta(&reader, "version".to_string()).unwrap(),
        SBType::Int(6)
    );
}
