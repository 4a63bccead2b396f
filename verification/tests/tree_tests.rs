use minigit::checkout::checkout_plan;
use minigit::codec::{hash_object, ObjectKind};
use minigit::commit::build_commit_payload;
use minigit::hexid::hex_encode;
use minigit::store::{decode_object_file, put_disk_write, ObjectIndex};
use minigit::tree::{build_tree, build_tree_payload, ls_tree_lines, parse_tree, sort_items,
    TreeItem, TreeItemKind};
use minigit::GitError;
use sha1::Digest;

fn sha(data: &[u8]) -> Vec<u8> {
    sha1::Sha1::digest(data).to_vec()
}

#[test]
fn tree_of_one_file_matches_manual_payload() {
    let (_, blob_id) = hash_object(ObjectKind::Blob, b"hi\n");
    let items = vec![TreeItem { name: b"a.txt".to_vec(), kind: TreeItemKind::File, id: blob_id.clone() }];
    let (payload, id) = build_tree(&items);
    let mut expect = b"100644 a.txt\x00".to_vec();
    expect.extend_from_slice(&blob_id);
    assert_eq!(payload, expect);
    let mut canon = format!("tree {}\x00", expect.len()).into_bytes();
    canon.extend_from_slice(&expect);
    assert_eq!(id, sha(&canon));
}

#[test]
fn tree_sorts_directories_with_trailing_slash() {
    // "foo" the directory sorts as "foo/", after the file "foo.txt".
    let (_, id) = hash_object(ObjectKind::Blob, b"x");
    let items = vec![
        TreeItem { name: b"foo".to_vec(), kind: TreeItemKind::Dir, id: id.clone() },
        TreeItem { name: b"foo.txt".to_vec(), kind: TreeItemKind::File, id: id.clone() },
    ];
    let sorted = sort_items(&items);
    assert_eq!(sorted[0].name, b"foo.txt".to_vec());
    assert_eq!(sorted[1].name, b"foo".to_vec());
}

#[test]
fn tree_bytes_ignore_listing_order() {
    let (_, id1) = hash_object(ObjectKind::Blob, b"1");
    let (_, id2) = hash_object(ObjectKind::Blob, b"2");
    let a = TreeItem { name: b"a".to_vec(), kind: TreeItemKind::File, id: id1.clone() };
    let b = TreeItem { name: b"b".to_vec(), kind: TreeItemKind::Exec, id: id2.clone() };
    let fwd = build_tree_payload(&vec![
        TreeItem { name: a.name.clone(), kind: a.kind, id: a.id.clone() },
        TreeItem { name: b.name.clone(), kind: b.kind, id: b.id.clone() },
    ]);
    let rev = build_tree_payload(&vec![b, a]);
    assert_eq!(fwd, rev);
}

#[test]
fn tree_parse_inverts_build() {
    let (_, id1) = hash_object(ObjectKind::Blob, b"1");
    let (_, id2) = hash_object(ObjectKind::Tree, b"");
    let items = vec![
        TreeItem { name: b"sub".to_vec(), kind: TreeItemKind::Dir, id: id2.clone() },
        TreeItem { name: b"main.rs".to_vec(), kind: TreeItemKind::File, id: id1.clone() },
    ];
    let payload = build_tree_payload(&items);
    let entries = parse_tree(&payload).unwrap();
    assert_eq!(entries.len(), 2);
    assert_eq!(entries[0].mode, b"100644".to_vec());
    assert_eq!(entries[0].name, b"main.rs".to_vec());
    assert_eq!(entries[0].id, id1);
    assert_eq!(entries[1].mode, b"40000".to_vec());
    assert_eq!(entries[1].name, b"sub".to_vec());
    assert_eq!(entries[1].id, id2);
}

#[test]
fn tree_parse_rejects_truncated_entry() {
    assert!(matches!(parse_tree(b"100644 a\x00short"), Err(GitError::MalformedObjectHeader)));
    assert!(matches!(parse_tree(b"100644 noterminator"), Err(GitError::MalformedObjectHeader)));
}

#[test]
fn ls_tree_listing_format() {
    let (_, blob_id) = hash_object(ObjectKind::Blob, b"hi\n");
    let items = vec![TreeItem { name: b"a.txt".to_vec(), kind: TreeItemKind::File, id: blob_id.clone() }];
    let payload = build_tree_payload(&items);
    let entries = parse_tree(&payload).unwrap();
    let kinds = vec![ObjectKind::Blob];
    let lines = ls_tree_lines(&entries, &kinds, false);
    let mut expect = b"100644 blob ".to_vec();
    expect.extend_from_slice(&hex_encode(&blob_id));
    expect.extend_from_slice(b"\ta.txt\n");
    assert_eq!(lines, expect);
    let names = ls_tree_lines(&entries, &kinds, true);
    assert_eq!(names, b"a.txt\n".to_vec());
}

#[test]
fn store_put_is_idempotent() {
    let w1 = put_disk_write(ObjectKind::Blob, b"hello\n", &hash_object(ObjectKind::Blob, b"hello\n").1);
    let w2 = put_disk_write(ObjectKind::Blob, b"hello\n", &hash_object(ObjectKind::Blob, b"hello\n").1);
    assert_eq!(w1.path, w2.path);
    assert_eq!(w1.data, w2.data);
}

#[test]
fn stored_blob_reads_back() {
    let (_, id) = hash_object(ObjectKind::Blob, b"hello\n");
    let w = put_disk_write(ObjectKind::Blob, b"hello\n", &id);
    let (kind, payload) = decode_object_file(&w.data).unwrap();
    assert!(matches!(kind, ObjectKind::Blob));
    assert_eq!(payload, b"hello\n".to_vec());
}

#[test]
fn commit_payload_layout() {
    let tree_hex = b"aaaaaaaaaaaaaaaaaaaaaaaaaaaaaaaaaaaaaaaa";
    let parent = b"bbbbbbbbbbbbbbbbbbbbbbbbbbbbbbbbbbbbbbbb".to_vec();
    let payload = build_commit_payload(
        tree_hex,
        Some(&parent),
        b"ada",
        b"ada@example.org",
        1700000000,
        b"+0800",
        b"hello commit",
    );
    let expect = format!(
        "tree {}\nparent {}\nauthor ada <ada@example.org> 1700000000 +0800\ncommitter ada <ada@example.org> 1700000000 +0800\n\nhello commit\n",
        String::from_utf8(tree_hex.to_vec()).unwrap(),
        String::from_utf8(parent.clone()).unwrap(),
    );
    assert_eq!(payload, expect.into_bytes());
}

#[test]
fn checkout_plans_nested_directories() {
    let blob = b"content\n".to_vec();
    let (_canon, blob_id) = hash_object(ObjectKind::Blob, &blob);
    let inner_items = vec![TreeItem { name: b"f".to_vec(), kind: TreeItemKind::Exec, id: blob_id.clone() }];
    let (inner_payload, inner_id) = build_tree(&inner_items);
    let outer_items = vec![TreeItem { name: b"d".to_vec(), kind: TreeItemKind::Dir, id: inner_id.clone() }];
    let (outer_payload, outer_id) = build_tree(&outer_items);
    let tree_hex = hex_encode(&outer_id);
    let commit = build_commit_payload(&tree_hex, None, b"n", b"m@e", 0, b"+0000", b"msg");
    let commit_id = hash_object(ObjectKind::Commit, &commit).1;

    let mut idx = ObjectIndex::new();
    idx.insert(blob_id.clone(), ObjectKind::Blob, blob.clone());
    idx.insert(inner_id.clone(), ObjectKind::Tree, inner_payload);
    idx.insert(outer_id.clone(), ObjectKind::Tree, outer_payload);
    idx.insert(commit_id.clone(), ObjectKind::Commit, commit);

    let head_hex = hex_encode(&commit_id);
    let plan = checkout_plan(&idx, &head_hex).unwrap();
    assert_eq!(plan.len(), 2);
    assert!(plan[0].is_dir);
    assert_eq!(plan[0].path, b"d".to_vec());
    assert!(!plan[1].is_dir);
    assert_eq!(plan[1].path, b"d/f".to_vec());
    assert_eq!(plan[1].data, blob);
    assert!(plan[1].executable);
}

#[test]
fn checkout_rejects_symlink_mode() {
    let blob = b"target".to_vec();
    let (_, blob_id) = hash_object(ObjectKind::Blob, &blob);
    let items = vec![TreeItem { name: b"l".to_vec(), kind: TreeItemKind::Symlink, id: blob_id.clone() }];
    let (tree_payload, tree_id) = build_tree(&items);
    let tree_hex = hex_encode(&tree_id);
    let commit = build_commit_payload(&tree_hex, None, b"n", b"m@e", 0, b"+0000", b"msg");
    let commit_id = hash_object(ObjectKind::Commit, &commit).1;

    let mut idx = ObjectIndex::new();
    idx.insert(blob_id, ObjectKind::Blob, blob);
    idx.insert(tree_id, ObjectKind::Tree, tree_payload);
    idx.insert(commit_id.clone(), ObjectKind::Commit, commit);
    let head_hex = hex_encode(&commit_id);
    assert!(matches!(checkout_plan(&idx, &head_hex), Err(GitError::UnsupportedKind)));
}

#[test]
fn checkout_missing_object_is_reported() {
    let idx = ObjectIndex::new();
    let head_hex = b"cccccccccccccccccccccccccccccccccccccccc";
    assert!(matches!(checkout_plan(&idx, head_hex), Err(GitError::MissingBase)));
}
