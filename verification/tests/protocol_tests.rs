use minigit::pktline::{create_pkt_line, read_pkt_line};
use minigit::protocol::{build_want_request, find_head, strip_nak};
use minigit::GitError;

#[test]
fn pkt_line_empty_is_flush() {
    assert_eq!(create_pkt_line(b""), b"0000".to_vec());
}

#[test]
fn pkt_line_framing() {
    assert_eq!(create_pkt_line(b"hello"), b"0009hello".to_vec());
    assert_eq!(create_pkt_line(b"done\n"), b"0009done\n".to_vec());
}

#[test]
fn pkt_line_read_inverts_write() {
    let framed = create_pkt_line(b"want abc\n");
    let mut off = 0usize;
    let line = read_pkt_line(&framed, &mut off).unwrap();
    assert_eq!(line, b"want abc\n".to_vec());
    assert_eq!(off, framed.len());
}

#[test]
fn pkt_line_read_flush() {
    let mut off = 0usize;
    let line = read_pkt_line(b"0000tail", &mut off).unwrap();
    assert_eq!(line, Vec::<u8>::new());
    assert_eq!(off, 4);
}

#[test]
fn pkt_line_read_failures() {
    let mut off = 0usize;
    assert_eq!(read_pkt_line(b"00", &mut off), Err(GitError::TransportError));
    let mut off2 = 0usize;
    assert_eq!(read_pkt_line(b"zzzzabcd", &mut off2), Err(GitError::TransportError));
    // A length of one to three cannot cover its own prefix.
    let mut off3 = 0usize;
    assert_eq!(read_pkt_line(b"0003abcd", &mut off3), Err(GitError::TransportError));
    // A length pointing past the end is a short buffer.
    let mut off4 = 0usize;
    assert_eq!(read_pkt_line(b"00ffabcd", &mut off4), Err(GitError::TransportError));
}

fn advertisement(head_hex: &[u8]) -> Vec<u8> {
    let mut body = create_pkt_line(b"# service=git-upload-pack\n");
    body.extend_from_slice(b"0000");
    let mut line = head_hex.to_vec();
    line.extend_from_slice(b" HEAD\x00multi_ack side-band-64k\n");
    body.extend_from_slice(&create_pkt_line(&line));
    let mut other = head_hex.to_vec();
    other.extend_from_slice(b" refs/heads/main\n");
    body.extend_from_slice(&create_pkt_line(&other));
    body.extend_from_slice(b"0000");
    body
}

#[test]
fn find_head_scans_advertisement() {
    let head = b"1234567890abcdef1234567890abcdef12345678";
    let body = advertisement(head);
    assert_eq!(find_head(&body).unwrap(), head.to_vec());
}

#[test]
fn find_head_missing_is_transport_error() {
    let mut body = create_pkt_line(b"# service=git-upload-pack\n");
    body.extend_from_slice(b"0000");
    assert_eq!(find_head(&body), Err(GitError::TransportError));
}

#[test]
fn find_head_short_identity_is_transport_error() {
    let body = create_pkt_line(b"abcdef HEAD\n");
    assert_eq!(find_head(&body), Err(GitError::TransportError));
}

#[test]
fn want_request_bytes() {
    let head = b"aaaaaaaaaaaaaaaaaaaaaaaaaaaaaaaaaaaaaaaa";
    let body = build_want_request(head);
    let mut expect = Vec::new();
    expect.extend_from_slice(b"0032want ");
    expect.extend_from_slice(head);
    expect.extend_from_slice(b"\n");
    expect.extend_from_slice(b"0000");
    expect.extend_from_slice(b"0009done\n");
    assert_eq!(body, expect);
}

#[test]
fn strip_nak_accepts_only_nak() {
    let mut body = create_pkt_line(b"NAK\n");
    let at = body.len();
    body.extend_from_slice(b"PACKrest");
    assert_eq!(strip_nak(&body), Ok(at));
    let other = create_pkt_line(b"ACK\n");
    assert_eq!(strip_nak(&other), Err(GitError::TransportError));
    assert_eq!(strip_nak(b""), Err(GitError::TransportError));
}
