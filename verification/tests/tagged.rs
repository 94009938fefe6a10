use fleurs::asset::file::AssetFile;
use fleurs::asset::reader::{read_array, read_map, read_object, read_string};
use fleurs::asset::writer::{write_array, write_map, write_object, write_string};
use fleurs::asset::SBType;
use fleurs::error::AssetError;

fn sample_value() -> SBType {
    SBType::Object(vec![
        ("name".to_string(), SBType::String("tree".to_string())),
        ("count".to_string(), SBType::Int(-42)),
        ("visible".to_string(), SBType::Boolean(true)),
        ("nothing".to_string(), SBType::Nil),
        ("scale".to_string(), SBType::Float(1.5f64.to_bits())),
        (
            "tags".to_string(),
            SBType::Array(vec![
                SBType::String("a".to_string()),
                SBType::Int(7),
                SBType::Array(vec![SBType::Boolean(false)]),
            ]),
        ),
        (
            "inner".to_string(),
            SBType::Object(vec![("k".to_string(), SBType::String("v".to_string()))]),
        ),
    ])
}

#[test]
fn tagged_value_round_trip() {
    let value = sample_value();
    let mut buf: Vec<u8> = Vec::new();
    write_object(&mut buf, &value);
    let (back, end) = read_object(&buf, 0).unwrap();
    assert_eq!(end, buf.len());
    assert_eq!(back, value);
}

#[test]
fn every_kind_round_trips_alone() {
    for value in [
        SBType::Nil,
        SBType::Float(0.0f64.to_bits()),
        SBType::Float((-3.75f64).to_bits()),
        SBType::Boolean(false),
        SBType::Int(i64::MIN),
        SBType::String(String::new()),
        SBType::String("hello".to_string()),
        SBType::Array(vec![]),
        SBType::Object(vec![]),
    ] {
        let mut buf: Vec<u8> = Vec::new();
        write_object(&mut buf, &value);
        let (back, end) = read_object(&buf, 0).unwrap();
        assert_eq!(end, buf.len());
        assert_eq!(back, value);
    }
}

#[test]
fn tag_bytes_announce_each_kind() {
    let cases: Vec<(SBType, u8)> = vec![
        (SBType::Nil, 1),
        (SBType::Float(0), 2),
        (SBType::Boolean(true), 3),
        (SBType::Int(0), 4),
        (SBType::String(String::new()), 5),
        (SBType::Array(vec![]), 6),
        (SBType::Object(vec![]), 7),
    ];
    for (value, tag) in cases {
        assert_eq!(value.tag(), tag);
        let mut buf: Vec<u8> = Vec::new();
        write_object(&mut buf, &value);
        assert_eq!(buf[0], tag);
    }
}

#[test]
fn unsupported_tag_fails() {
    let err = read_object(&[0u8], 0).unwrap_err();
    assert_eq!(err, AssetError::UnsupportedType);
    let err = read_object(&[8u8], 0).unwrap_err();
    assert_eq!(err, AssetError::UnsupportedType);
    assert_eq!(err.message(), "Unsupport type");
}

#[test]
fn concrete_encodings() {
    // nil is one tag byte
    let mut buf: Vec<u8> = Vec::new();
    write_object(&mut buf, &SBType::Nil);
    assert_eq!(buf, vec![1]);

    // integer one: tag, then zig-zag varint 2
    let mut buf: Vec<u8> = Vec::new();
    write_object(&mut buf, &SBType::Int(1));
    assert_eq!(buf, vec![4, 0x02]);

    // a two-character string: tag, length, bytes
    let mut buf: Vec<u8> = Vec::new();
    write_object(&mut buf, &SBType::String("hi".to_string()));
    assert_eq!(buf, vec![5, 2, b'h', b'i']);

    // a float is eight big-endian bytes of its bit pattern
    let mut buf: Vec<u8> = Vec::new();
    write_object(&mut buf, &SBType::Float(1.0f64.to_bits()));
    assert_eq!(buf, vec![2, 0x3f, 0xf0, 0, 0, 0, 0, 0, 0]);

    // booleans are one payload byte
    let mut buf: Vec<u8> = Vec::new();
    write_object(&mut buf, &SBType::Boolean(true));
    assert_eq!(buf, vec![3, 1]);
}

#[test]
fn nonzero_boolean_byte_reads_true() {
    let (value, _) = read_object(&[3u8, 7u8], 0).unwrap();
    assert_eq!(value, SBType::Boolean(true));
}

#[test]
fn invalid_utf8_string_fails() {
    let err = read_object(&[5u8, 1, 0xff], 0).unwrap_err();
    assert_eq!(err, AssetError::InvalidUtf8);
    let err = read_string(&[1u8, 0xff], 0).unwrap_err();
    assert_eq!(err, AssetError::InvalidUtf8);
}

#[test]
fn truncated_value_fails() {
    let err = read_object(&[], 0).unwrap_err();
    assert_eq!(err, AssetError::UnexpectedEof);
    // a string whose length prefix promises more bytes than remain
    let err = read_object(&[5u8, 5, b'h'], 0).unwrap_err();
    assert_eq!(err, AssetError::UnexpectedEof);
    // a float with too few payload bytes
    let err = read_object(&[2u8, 1, 2, 3], 0).unwrap_err();
    assert_eq!(err, AssetError::UnexpectedEof);
}

#[test]
fn repeated_object_key_keeps_the_later_value() {
    // an object of two pairs that share a key
    let mut buf: Vec<u8> = vec![7, 2];
    write_string(&mut buf, "k");
    write_object(&mut buf, &SBType::Int(1));
    write_string(&mut buf, "k");
    write_object(&mut buf, &SBType::Int(2));
    let (value, end) = read_object(&buf, 0).unwrap();
    assert_eq!(end, buf.len());
    assert_eq!(value, SBType::Object(vec![("k".to_string(), SBType::Int(2))]));
}

#[test]
fn bare_array_and_map_payloads_round_trip() {
    let items = vec![SBType::Int(1), SBType::String("x".to_string())];
    let mut buf: Vec<u8> = Vec::new();
    write_array(&mut buf, &items);
    let (back, end) = read_array(&buf, 0).unwrap();
    assert_eq!(end, buf.len());
    assert_eq!(back, items);

    let pairs = vec![("a".to_string(), SBType::Int(1)), ("b".to_string(), SBType::Nil)];
    let mut buf: Vec<u8> = Vec::new();
    write_map(&mut buf, &pairs);
    let (back, end) = read_map(&buf, 0).unwrap();
    assert_eq!(end, buf.len());
    assert_eq!(back, pairs);
}

#[test]
fn duplicate_copies_structurally() {
    let value = sample_value();
    let copy = value.duplicate();
    assert_eq!(copy, value);
}

#[test]
fn asset_file_as_string() {
    let file = AssetFile { path: "/a.txt".to_string(), bytes: b"hi".to_vec() };
    assert_eq!(file.as_string().unwrap(), "hi");
    let raw = AssetFile { path: "/b".to_string(), bytes: vec![0x68, 0xff] };
    // each byte becomes the character at its code point
    assert_eq!(raw.as_string().unwrap(), "h\u{ff}");
}
