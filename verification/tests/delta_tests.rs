use minigit::delta::apply_delta;
use minigit::GitError;

#[test]
fn delta_copy_insert_copy() {
    // Copy [0, 9), insert "red ", copy [16, 19): "the quick" + "red " + "fox".
    let base = b"the quick brown fox";
    let mut d = vec![19u8, 16u8];
    d.extend_from_slice(&[0x90, 9]);
    d.extend_from_slice(&[4, b'r', b'e', b'd', b' ']);
    d.extend_from_slice(&[0x91, 16, 3]);
    let out = apply_delta(base, &d).unwrap();
    assert_eq!(out, b"the quickred fox".to_vec());
    assert_eq!(out.len(), 16);
}

#[test]
fn delta_wrong_target_size_is_malformed() {
    let base = b"the quick brown fox";
    let mut d = vec![19u8, 17u8];
    d.extend_from_slice(&[0x90, 9]);
    d.extend_from_slice(&[4, b'r', b'e', b'd', b' ']);
    d.extend_from_slice(&[0x91, 16, 3]);
    assert_eq!(apply_delta(base, &d), Err(GitError::MalformedDelta));
}

#[test]
fn delta_copy_whole_base_is_identity() {
    let base = b"some base bytes";
    // Sizes 15 and 15, one copy of offset zero and size fifteen.
    let d = vec![15u8, 15u8, 0x91, 0, 15];
    assert_eq!(apply_delta(base, &d).unwrap(), base.to_vec());
}

#[test]
fn delta_wrong_base_size_is_malformed() {
    let base = b"abc";
    let d = vec![4u8, 3u8, 0x91, 0, 3];
    assert_eq!(apply_delta(base, &d), Err(GitError::MalformedDelta));
}

#[test]
fn delta_reserved_opcode_is_malformed() {
    let base = b"abc";
    let d = vec![3u8, 1u8, 0x00];
    assert_eq!(apply_delta(base, &d), Err(GitError::MalformedDelta));
}

#[test]
fn delta_copy_beyond_base_is_malformed() {
    let base = b"abc";
    let d = vec![3u8, 4u8, 0x91, 1, 4];
    assert_eq!(apply_delta(base, &d), Err(GitError::MalformedDelta));
}

#[test]
fn delta_insert_beyond_end_is_malformed() {
    let base = b"abc";
    let d = vec![3u8, 2u8, 5, b'x', b'y'];
    assert_eq!(apply_delta(base, &d), Err(GitError::MalformedDelta));
}

#[test]
fn delta_insert_only() {
    let base = b"";
    let d = vec![0u8, 2u8, 2, b'h', b'i'];
    assert_eq!(apply_delta(base, &d).unwrap(), b"hi".to_vec());
}

#[test]
fn delta_size_zero_copy_means_64k() {
    // A copy with no size bytes copies 0x10000 bytes.
    let base = vec![7u8; 0x10000];
    // Base size 0x10000 = varint [0x80, 0x80, 0x04]; same target size.
    let d = vec![0x80, 0x80, 0x04, 0x80, 0x80, 0x04, 0x80];
    assert_eq!(apply_delta(&base, &d).unwrap(), base);
}

#[test]
fn delta_truncated_header_is_malformed() {
    assert_eq!(apply_delta(b"abc", &[0x83]), Err(GitError::MalformedDelta));
    assert_eq!(apply_delta(b"abc", &[]), Err(GitError::MalformedDelta));
}
