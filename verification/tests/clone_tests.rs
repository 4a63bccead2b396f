use minigit::checkout::checkout_plan;
use minigit::codec::{hash_object, ObjectKind};
use minigit::commit::{build_commit, tree_from_commit};
use minigit::hexid::hex_encode;
use minigit::pack::receive_pack;
use minigit::pktline::create_pkt_line;
use minigit::protocol::{find_head, strip_nak};
use minigit::store::head_file_contents;
use minigit::tree::{build_tree, TreeItem, TreeItemKind};
use sha1::Digest;
use std::io::Read;

fn compress(data: &[u8]) -> Vec<u8> {
    let mut e = flate2::read::ZlibEncoder::new(data, flate2::Compression::fast());
    let mut out = Vec::new();
    e.read_to_end(&mut out).unwrap();
    out
}

fn sha(data: &[u8]) -> Vec<u8> {
    sha1::Sha1::digest(data).to_vec()
}

fn entry_header(kind: u8, mut size: usize) -> Vec<u8> {
    let mut out = Vec::new();
    let mut first = (kind << 4) | ((size & 0x0f) as u8);
    size >>= 4;
    if size > 0 {
        first |= 0x80;
    }
    out.push(first);
    while size > 0 {
        let mut b = (size & 0x7f) as u8;
        size >>= 7;
        if size > 0 {
            b |= 0x80;
        }
        out.push(b);
    }
    out
}

/// A recorded fetch response for a one-file repository: the NAK line, then
/// a pack holding the commit, its tree, and one blob.
fn fixture() -> (Vec<u8>, Vec<u8>, Vec<u8>) {
    let blob = b"hi\n".to_vec();
    let (_, blob_id) = hash_object(ObjectKind::Blob, &blob);
    let items = vec![TreeItem { name: b"a.txt".to_vec(), kind: TreeItemKind::File, id: blob_id }];
    let (tree_payload, tree_id) = build_tree(&items);
    let tree_hex = hex_encode(&tree_id);
    let (commit_payload, commit_id) = build_commit(
        &tree_hex,
        None,
        b"ada",
        b"ada@example.org",
        1700000000,
        b"+0000",
        b"first",
    );
    let commit_hex = hex_encode(&commit_id);

    let mut pack = b"PACK".to_vec();
    pack.extend_from_slice(&[0, 0, 0, 2]);
    pack.extend_from_slice(&[0, 0, 0, 3]);
    pack.extend_from_slice(&entry_header(1, commit_payload.len()));
    pack.extend_from_slice(&compress(&commit_payload));
    pack.extend_from_slice(&entry_header(2, tree_payload.len()));
    pack.extend_from_slice(&compress(&tree_payload));
    pack.extend_from_slice(&entry_header(3, blob.len()));
    pack.extend_from_slice(&compress(&blob));
    let trailer = sha(&pack);
    pack.extend_from_slice(&trailer);

    let mut response = create_pkt_line(b"NAK\n");
    response.extend_from_slice(&pack);
    (response, commit_hex, tree_hex)
}

#[test]
fn clone_fixture_end_to_end() {
    let (response, commit_hex, tree_hex) = fixture();

    // Reference discovery names the commit as HEAD.
    let mut adv = create_pkt_line(b"# service=git-upload-pack\n");
    adv.extend_from_slice(b"0000");
    let mut line = commit_hex.clone();
    line.extend_from_slice(b" HEAD\x00agent=fixture\n");
    adv.extend_from_slice(&create_pkt_line(&line));
    adv.extend_from_slice(b"0000");
    let head = find_head(&adv).unwrap();
    assert_eq!(head, commit_hex);

    // The pack behind the NAK line carries exactly the three objects.
    let off = strip_nak(&response).unwrap();
    let idx = receive_pack(&response[off..]).unwrap();
    assert_eq!(idx.len(), 3);

    // The commit resolves to the tree it names.
    assert_eq!(tree_from_commit(&idx, &head).unwrap(), tree_hex);

    // The working tree materializes as the single file.
    let plan = checkout_plan(&idx, &head).unwrap();
    assert_eq!(plan.len(), 1);
    assert!(!plan[0].is_dir);
    assert_eq!(plan[0].path, b"a.txt".to_vec());
    assert_eq!(plan[0].data, b"hi\n".to_vec());
    assert!(!plan[0].executable);

    // Re-serializing the materialized tree recomputes the commit's tree
    // identity, as a fresh write-tree would.
    let blob_id = hash_object(ObjectKind::Blob, b"hi\n").1;
    let items = vec![TreeItem { name: b"a.txt".to_vec(), kind: TreeItemKind::File, id: blob_id }];
    let (_, rebuilt) = build_tree(&items);
    assert_eq!(hex_encode(&rebuilt), tree_hex);
}

#[test]
fn clone_fixture_is_deterministic() {
    let (response, _, _) = fixture();
    let off = strip_nak(&response).unwrap();
    let idx1 = receive_pack(&response[off..]).unwrap();
    let idx2 = receive_pack(&response[off..]).unwrap();
    let d1 = minigit::store::disk_entries(&idx1);
    let d2 = minigit::store::disk_entries(&idx2);
    assert_eq!(d1.len(), d2.len());
    for (a, b) in d1.iter().zip(d2.iter()) {
        assert_eq!(a.path, b.path);
        assert_eq!(a.data, b.data);
    }
}

#[test]
fn head_file_is_symbolic_ref() {
    assert_eq!(head_file_contents(), b"ref: refs/heads/main\n".to_vec());
}

#[test]
fn ref_file_ends_with_newline() {
    let head = b"1234567890abcdef1234567890abcdef12345678";
    let mut expect = head.to_vec();
    expect.push(b'\n');
    assert_eq!(minigit::store::ref_file_contents(head), expect);
}
