use minigit::codec::{hash_object, kind_from_bytes, object_id_of, parse_object, serialize_object,
    ObjectKind};
use minigit::hexid::{hex_decode, hex_encode};
use minigit::num::{all_digits_check, decode_size, format_dec, parse_dec};
use minigit::GitError;

#[test]
fn serialize_blob_canonical_bytes() {
    let bytes = serialize_object(ObjectKind::Blob, b"hello\n");
    assert_eq!(bytes, b"blob 6\x00hello\n".to_vec());
}

#[test]
fn parse_inverts_serialize() {
    for (kind, payload) in [
        (ObjectKind::Blob, b"hello\n".to_vec()),
        (ObjectKind::Commit, b"tree abc\n".to_vec()),
        (ObjectKind::Tree, vec![0u8, 1, 2, 255]),
        (ObjectKind::Tag, Vec::new()),
    ] {
        let bytes = serialize_object(kind, &payload);
        let (k, p) = parse_object(&bytes).unwrap();
        assert_eq!(k, kind);
        assert_eq!(p, payload);
    }
}

#[test]
fn empty_blob_identity() {
    let (_, id) = hash_object(ObjectKind::Blob, b"");
    let hex = hex_encode(&id);
    assert_eq!(hex, b"e69de29bb2d1d6434b8b29ae775ad8c2e48c5391".to_vec());
}

#[test]
fn parse_rejects_unknown_kind() {
    assert_eq!(parse_object(b"blub 3\x00abc"), Err(GitError::UnsupportedKind));
}

#[test]
fn parse_rejects_bad_length_digits() {
    assert_eq!(parse_object(b"blob x\x00abc"), Err(GitError::MalformedObjectHeader));
    assert_eq!(parse_object(b"blob \x00abc"), Err(GitError::MalformedObjectHeader));
    assert_eq!(parse_object(b"blob3abc"), Err(GitError::MalformedObjectHeader));
}

#[test]
fn parse_rejects_length_mismatch() {
    assert_eq!(parse_object(b"blob 4\x00abc"), Err(GitError::CorruptPack));
    assert_eq!(parse_object(b"blob 2\x00abc"), Err(GitError::CorruptPack));
    // A declared length far beyond the byte count is the same failure.
    assert_eq!(
        parse_object(b"blob 99999999999999999999999\x00abc"),
        Err(GitError::CorruptPack)
    );
}

#[test]
fn kind_names_round_trip() {
    assert_eq!(kind_from_bytes(b"commit"), Some(ObjectKind::Commit));
    assert_eq!(kind_from_bytes(b"tree"), Some(ObjectKind::Tree));
    assert_eq!(kind_from_bytes(b"blob"), Some(ObjectKind::Blob));
    assert_eq!(kind_from_bytes(b"tag"), Some(ObjectKind::Tag));
    assert_eq!(kind_from_bytes(b"Blob"), None);
}

#[test]
fn identity_is_stable() {
    let a = object_id_of(ObjectKind::Blob, b"hello\n");
    let b = object_id_of(ObjectKind::Blob, b"hello\n");
    assert_eq!(a, b);
    assert_eq!(a.len(), 20);
}

#[test]
fn decimal_formatting() {
    assert_eq!(format_dec(0), b"0".to_vec());
    assert_eq!(format_dec(6), b"6".to_vec());
    assert_eq!(format_dec(1234567890), b"1234567890".to_vec());
    assert_eq!(format_dec(u64::MAX), b"18446744073709551615".to_vec());
}

#[test]
fn decimal_parsing() {
    assert_eq!(parse_dec(b"0"), Some(0));
    assert_eq!(parse_dec(b"123"), Some(123));
    assert_eq!(parse_dec(b"007"), Some(7));
    assert_eq!(parse_dec(b""), None);
    assert_eq!(parse_dec(b"12a"), None);
    assert_eq!(parse_dec(b"18446744073709551615"), Some(u64::MAX));
    assert_eq!(parse_dec(b"18446744073709551616"), None);
    assert!(all_digits_check(b"0123456789"));
    assert!(!all_digits_check(b"12 3"));
}

#[test]
fn entry_header_varint() {
    // Low four bits then seven bits per continuation byte.
    let buf = [0x95u8, 0x03];
    let mut i = 0usize;
    let size = decode_size(&buf, &mut i, false);
    assert_eq!(size, Some(5 + 3 * 16));
    assert_eq!(i, 2);
    // A single byte without the continuation bit.
    let buf1 = [0x17u8];
    let mut j = 0usize;
    assert_eq!(decode_size(&buf1, &mut j, false), Some(7));
    assert_eq!(j, 1);
}

#[test]
fn delta_size_varint() {
    // Seven bits in the first byte for the delta dialect.
    let buf = [0x93u8, 0x01];
    let mut i = 0usize;
    assert_eq!(decode_size(&buf, &mut i, true), Some(0x13 + 128));
    assert_eq!(i, 2);
    // Running off the end of the buffer fails.
    let buf2 = [0x80u8];
    let mut j = 0usize;
    assert_eq!(decode_size(&buf2, &mut j, true), None);
}

#[test]
fn hex_round_trip() {
    assert_eq!(hex_encode(&[0xde, 0xad, 0x00, 0x0f]), b"dead000f".to_vec());
    assert_eq!(hex_decode(b"dead000f"), Some(vec![0xde, 0xad, 0x00, 0x0f]));
    assert_eq!(hex_decode(b"DEAD000F"), Some(vec![0xde, 0xad, 0x00, 0x0f]));
    assert_eq!(hex_decode(b"abc"), None);
    assert_eq!(hex_decode(b"zz"), None);
}
