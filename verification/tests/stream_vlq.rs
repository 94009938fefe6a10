use fleurs::error::AssetError;
use fleurs::stream::vlq::{VLQi64, VLQu64};

#[test]
fn little_endian_round_trip() {
    for n in [0u64, 1, 127, 128, 129, 300, 16383, 16384, 1 << 40, u64::MAX] {
        let mut buf: Vec<u8> = Vec::new();
        let written = VLQu64(n).encode(&mut buf);
        assert_eq!(written, buf.len());
        let (value, end) = VLQu64::decode(&buf, 0).unwrap();
        assert_eq!(value, VLQu64(n));
        assert_eq!(end, buf.len());
    }
}

#[test]
fn little_endian_signed_round_trip() {
    for n in [0i64, 1, -1, 500, -500, i64::MAX, i64::MIN] {
        let mut buf: Vec<u8> = Vec::new();
        VLQi64(n).encode(&mut buf);
        let (value, _) = VLQi64::decode(&buf, 0).unwrap();
        assert_eq!(value, VLQi64(n));
    }
}

#[test]
fn little_endian_group_order() {
    // the low seven bits come first in this codec
    let mut buf: Vec<u8> = Vec::new();
    VLQu64(128).encode(&mut buf);
    assert_eq!(buf, vec![0x80, 0x01]);

    let mut buf: Vec<u8> = Vec::new();
    VLQu64(127).encode(&mut buf);
    assert_eq!(buf, vec![0x7f]);
}

#[test]
fn little_endian_oversized_fails() {
    let stream = vec![0xffu8; 11];
    let err = VLQu64::decode(&stream, 0).unwrap_err();
    assert_eq!(err, AssetError::OversizedVarint);
}

#[test]
fn little_endian_truncated_fails() {
    let err = VLQu64::decode(&[0x80], 0).unwrap_err();
    assert_eq!(err, AssetError::UnexpectedEof);
}
