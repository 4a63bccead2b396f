use minigit::codec::{hash_object, ObjectKind};
use minigit::hexid::hex_encode;
use minigit::pack::receive_pack;
use minigit::store::disk_entries;
use minigit::GitError;
use sha1::Digest;
use std::io::Read;

fn compress(data: &[u8]) -> Vec<u8> {
    let mut e = flate2::read::ZlibEncoder::new(data, flate2::Compression::fast());
    let mut out = Vec::new();
    e.read_to_end(&mut out).unwrap();
    out
}

fn sha(data: &[u8]) -> Vec<u8> {
    sha1::Sha1::digest(data).to_vec()
}

fn entry_header(kind: u8, mut size: usize) -> Vec<u8> {
    let mut out = Vec::new();
    let mut first = (kind << 4) | ((size & 0x0f) as u8);
    size >>= 4;
    if size > 0 {
        first |= 0x80;
    }
    out.push(first);
    while size > 0 {
        let mut b = (size & 0x7f) as u8;
        size >>= 7;
        if size > 0 {
            b |= 0x80;
        }
        out.push(b);
    }
    out
}

enum Entry {
    Whole(u8, Vec<u8>),
    RefDelta(Vec<u8>, Vec<u8>),
}

fn build_pack(entries: &[Entry]) -> Vec<u8> {
    let mut pack = b"PACK".to_vec();
    pack.extend_from_slice(&[0, 0, 0, 2]);
    pack.extend_from_slice(&(entries.len() as u32).to_be_bytes());
    for e in entries {
        match e {
            Entry::Whole(kind, payload) => {
                pack.extend_from_slice(&entry_header(*kind, payload.len()));
                pack.extend_from_slice(&compress(payload));
            }
            Entry::RefDelta(base_id, delta) => {
                pack.extend_from_slice(&entry_header(7, delta.len()));
                pack.extend_from_slice(base_id);
                pack.extend_from_slice(&compress(delta));
            }
        }
    }
    let trailer = sha(&pack);
    pack.extend_from_slice(&trailer);
    pack
}

#[test]
fn receive_single_blob() {
    let pack = build_pack(&[Entry::Whole(3, b"hello\n".to_vec())]);
    let idx = receive_pack(&pack).unwrap();
    assert_eq!(idx.len(), 1);
    let (_, id) = hash_object(ObjectKind::Blob, b"hello\n");
    let got = idx.get(&id).unwrap();
    assert!(matches!(got.0, ObjectKind::Blob));
    assert_eq!(got.1, &b"hello\n".to_vec());
}

#[test]
fn receive_ref_delta_keeps_base_kind() {
    let base = b"the quick brown fox".to_vec();
    let (_, base_id) = hash_object(ObjectKind::Blob, &base);
    let mut delta = vec![19u8, 16u8];
    delta.extend_from_slice(&[0x90, 9]);
    delta.extend_from_slice(&[4, b'r', b'e', b'd', b' ']);
    delta.extend_from_slice(&[0x91, 16, 3]);
    let pack = build_pack(&[
        Entry::Whole(3, base.clone()),
        Entry::RefDelta(base_id.clone(), delta),
    ]);
    let idx = receive_pack(&pack).unwrap();
    assert_eq!(idx.len(), 2);
    let (_, target_id) = hash_object(ObjectKind::Blob, b"the quickred fox");
    let got = idx.get(&target_id).unwrap();
    assert!(matches!(got.0, ObjectKind::Blob));
    assert_eq!(got.1, &b"the quickred fox".to_vec());
}

#[test]
fn receive_delta_against_reconstructed_base() {
    // The second delta names the first reconstruction as its base.
    let base = b"aaaa".to_vec();
    let (_, base_id) = hash_object(ObjectKind::Blob, &base);
    // "aaaa" -> "aaaabb"
    let d1 = vec![4u8, 6u8, 0x91, 0, 4, 2, b'b', b'b'];
    let (_, mid_id) = hash_object(ObjectKind::Blob, b"aaaabb");
    // "aaaabb" -> "bb"
    let d2 = vec![6u8, 2u8, 0x91, 4, 2];
    let pack = build_pack(&[
        Entry::Whole(3, base),
        Entry::RefDelta(base_id, d1),
        Entry::RefDelta(mid_id, d2),
    ]);
    let idx = receive_pack(&pack).unwrap();
    assert_eq!(idx.len(), 3);
    let (_, final_id) = hash_object(ObjectKind::Blob, b"bb");
    let got = idx.get(&final_id).unwrap();
    assert_eq!(got.1, &b"bb".to_vec());
}

#[test]
fn receive_stores_tag_entries() {
    let tag = b"object 0000\ntype commit\n".to_vec();
    let pack = build_pack(&[Entry::Whole(4, tag.clone())]);
    let idx = receive_pack(&pack).unwrap();
    let (_, id) = hash_object(ObjectKind::Tag, &tag);
    let got = idx.get(&id).unwrap();
    assert!(matches!(got.0, ObjectKind::Tag));
    assert_eq!(got.1, &tag);
}

#[test]
fn trailer_bit_flip_is_corrupt() {
    let mut pack = build_pack(&[Entry::Whole(3, b"hello\n".to_vec())]);
    let last = pack.len() - 1;
    pack[last] ^= 0x01;
    assert!(matches!(receive_pack(&pack), Err(GitError::CorruptPack)));
}

#[test]
fn body_bit_flip_is_detected() {
    let mut pack = build_pack(&[Entry::Whole(3, b"hello\n".to_vec())]);
    pack[13] ^= 0x80;
    assert!(receive_pack(&pack).is_err());
}

#[test]
fn bad_signature_is_corrupt() {
    let mut pack = build_pack(&[Entry::Whole(3, b"x".to_vec())]);
    pack[0] = b'Q';
    // The checksum still matches, so recompute it over the broken header.
    let body_len = pack.len() - 20;
    let trailer = sha(&pack[..body_len]);
    pack.truncate(body_len);
    pack.extend_from_slice(&trailer);
    assert!(matches!(receive_pack(&pack), Err(GitError::CorruptPack)));
}

#[test]
fn bad_version_is_corrupt() {
    let mut pack = build_pack(&[Entry::Whole(3, b"x".to_vec())]);
    pack[7] = 3;
    let body_len = pack.len() - 20;
    let trailer = sha(&pack[..body_len]);
    pack.truncate(body_len);
    pack.extend_from_slice(&trailer);
    assert!(matches!(receive_pack(&pack), Err(GitError::CorruptPack)));
}

#[test]
fn missing_base_is_reported() {
    let delta = vec![3u8, 3u8, 0x91, 0, 3];
    let pack = build_pack(&[Entry::RefDelta(vec![0xabu8; 20], delta)]);
    assert!(matches!(receive_pack(&pack), Err(GitError::MissingBase)));
}

#[test]
fn offset_delta_is_unsupported() {
    let mut pack = b"PACK".to_vec();
    pack.extend_from_slice(&[0, 0, 0, 2]);
    pack.extend_from_slice(&[0, 0, 0, 1]);
    pack.extend_from_slice(&entry_header(6, 3));
    pack.extend_from_slice(&[1, 2, 3]);
    let trailer = sha(&pack);
    pack.extend_from_slice(&trailer);
    assert!(matches!(receive_pack(&pack), Err(GitError::UnsupportedKind)));
}

#[test]
fn truncated_pack_is_corrupt() {
    let pack = build_pack(&[Entry::Whole(3, b"hello\n".to_vec())]);
    assert!(matches!(receive_pack(&pack[..10]), Err(GitError::CorruptPack)));
}

#[test]
fn leftover_bytes_are_corrupt() {
    // Declare zero entries but leave compressed bytes before the trailer.
    let mut pack = b"PACK".to_vec();
    pack.extend_from_slice(&[0, 0, 0, 2]);
    pack.extend_from_slice(&[0, 0, 0, 0]);
    pack.extend_from_slice(&compress(b"stray"));
    let trailer = sha(&pack);
    pack.extend_from_slice(&trailer);
    assert!(matches!(receive_pack(&pack), Err(GitError::CorruptPack)));
}

#[test]
fn receive_is_deterministic() {
    let pack = build_pack(&[
        Entry::Whole(3, b"hello\n".to_vec()),
        Entry::Whole(2, Vec::new()),
    ]);
    let idx1 = receive_pack(&pack).unwrap();
    let idx2 = receive_pack(&pack).unwrap();
    let d1 = disk_entries(&idx1);
    let d2 = disk_entries(&idx2);
    assert_eq!(d1.len(), d2.len());
    for (a, b) in d1.iter().zip(d2.iter()) {
        assert_eq!(a.path, b.path);
        assert_eq!(a.data, b.data);
    }
}

#[test]
fn disk_entry_decompresses_to_canonical_bytes() {
    let pack = build_pack(&[Entry::Whole(3, b"hello\n".to_vec())]);
    let idx = receive_pack(&pack).unwrap();
    let writes = disk_entries(&idx);
    assert_eq!(writes.len(), 1);
    let (_, id) = hash_object(ObjectKind::Blob, b"hello\n");
    let hex = hex_encode(&id);
    let mut expect_path = b".git/objects/".to_vec();
    expect_path.extend_from_slice(&hex[..2]);
    expect_path.push(b'/');
    expect_path.extend_from_slice(&hex[2..]);
    assert_eq!(writes[0].path, expect_path);
    let mut d = flate2::read::ZlibDecoder::new(&writes[0].data[..]);
    let mut out = Vec::new();
    d.read_to_end(&mut out).unwrap();
    assert_eq!(out, b"blob 6\x00hello\n".to_vec());
}
