use fleurs::asset::vlq::{VLQi64, VLQu64};
use fleurs::error::AssetError;

fn round_trip_u64(n: u64) {
    let mut buf: Vec<u8> = Vec::new();
    let written = VLQu64(n).encode(&mut buf);
    assert_eq!(written, buf.len());
    let (value, end) = VLQu64::decode(&buf, 0).unwrap();
    assert_eq!(value, VLQu64(n));
    assert_eq!(end, buf.len());
}

fn round_trip_i64(n: i64) {
    let mut buf: Vec<u8> = Vec::new();
    let written = VLQi64(n).encode(&mut buf);
    assert_eq!(written, buf.len());
    let (value, end) = VLQi64::decode(&buf, 0).unwrap();
    assert_eq!(value, VLQi64(n));
    assert_eq!(end, buf.len());
}

#[test]
fn unsigned_round_trip() {
    for n in [
        0u64,
        1,
        2,
        127,
        128,
        129,
        255,
        300,
        16383,
        16384,
        1 << 20,
        (1 << 35) + 17,
        u64::MAX - 1,
        u64::MAX,
    ] {
        round_trip_u64(n);
    }
}

#[test]
fn signed_round_trip() {
    for n in [0i64, 1, -1, 2, -2, 63, 64, -64, -65, 1 << 40, -(1 << 40), i64::MAX, i64::MIN] {
        round_trip_i64(n);
    }
}

#[test]
fn encode_is_minimal_length() {
    let mut buf: Vec<u8> = Vec::new();
    VLQu64(0).encode(&mut buf);
    assert_eq!(buf, vec![0x00]);

    let mut buf: Vec<u8> = Vec::new();
    VLQu64(127).encode(&mut buf);
    assert_eq!(buf, vec![0x7f]);

    let mut buf: Vec<u8> = Vec::new();
    VLQu64(128).encode(&mut buf);
    assert_eq!(buf, vec![0x81, 0x00]);

    let mut buf: Vec<u8> = Vec::new();
    VLQu64(16384).encode(&mut buf);
    assert_eq!(buf, vec![0x81, 0x80, 0x00]);
}

#[test]
fn zigzag_examples() {
    let mut buf: Vec<u8> = Vec::new();
    VLQi64(1).encode(&mut buf);
    assert_eq!(buf, vec![0x02]);

    let mut buf: Vec<u8> = Vec::new();
    VLQi64(-1).encode(&mut buf);
    assert_eq!(buf, vec![0x01]);

    let mut buf: Vec<u8> = Vec::new();
    VLQi64(-64).encode(&mut buf);
    assert_eq!(buf, vec![0x7f]);
}

#[test]
fn oversized_varint_fails() {
    let stream = vec![0xffu8; 10];
    let err = VLQu64::decode(&stream, 0).unwrap_err();
    assert_eq!(err, AssetError::OversizedVarint);
    assert_eq!(err.message(), "OversizedVLQ");

    let err = VLQi64::decode(&stream, 0).unwrap_err();
    assert_eq!(err, AssetError::OversizedVarint);
}

#[test]
fn truncated_varint_fails() {
    let stream = vec![0x80u8, 0x80];
    let err = VLQu64::decode(&stream, 0).unwrap_err();
    assert_eq!(err, AssetError::UnexpectedEof);

    let err = VLQu64::decode(&[], 0).unwrap_err();
    assert_eq!(err, AssetError::UnexpectedEof);
}

#[test]
fn nine_continuations_then_terminal_still_decodes() {
    let mut stream = vec![0x80u8; 9];
    stream.push(0x01);
    let (value, end) = VLQu64::decode(&stream, 0).unwrap();
    assert_eq!(value, VLQu64(1));
    assert_eq!(end, 10);
}

#[test]
fn non_minimal_encodings_still_decode() {
    // a padded leading zero group is accepted on the way in
    let (value, end) = VLQu64::decode(&[0x80, 0x01], 0).unwrap();
    assert_eq!(value, VLQu64(1));
    assert_eq!(end, 2);
    let (value, _) = VLQu64::decode(&[0x80, 0x80, 0x7f], 0).unwrap();
    assert_eq!(value, VLQu64(127));
}

#[test]
fn decode_starts_at_position() {
    let stream = vec![0xaa, 0xbb, 0x07];
    let (value, end) = VLQu64::decode(&stream, 2).unwrap();
    assert_eq!(value, VLQu64(7));
    assert_eq!(end, 3);
}
