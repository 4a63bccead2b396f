//! The pkt-line codec of the smart protocol: payloads framed by a four-hex-
//! digit big-endian length that counts the prefix itself; `0000` is the
//! flush marker.
use vstd::prelude::*;
use crate::GitError;
use crate::hexid::{hex_digit, hex_val, is_hex, hex_digit_byte, hex_val_byte, is_hex_byte};

verus! {

/// The four-hex-digit rendering of a length below 0x10000.
pub open spec fn hex4(n: nat) -> Seq<u8> {
    seq![
        hex_digit((n / 4096 % 16) as u8),
        hex_digit((n / 256 % 16) as u8),
        hex_digit((n / 16 % 16) as u8),
        hex_digit((n % 16) as u8),
    ]
}

/// The framed form of a payload: `0000` for an empty one, else the length
/// including its own four prefix bytes, then the payload.
pub open spec fn spec_pkt_write(payload: Seq<u8>) -> Seq<u8> {
    if payload.len() == 0 {
        seq![48u8, 48u8, 48u8, 48u8]
    } else {
        hex4((payload.len() + 4) as nat) + payload
    }
}

/// Frame a payload as one pkt-line. A frame length must fit its four hex
/// digits.
pub fn create_pkt_line(s: &[u8]) -> (r: Vec<u8>)
    requires
        s@.len() + 4 <= 0xffff,
    ensures
        r@ == spec_pkt_write(s@),
{
    let mut v: Vec<u8> = Vec::new();
    if s.len() == 0 {
        v.push(48);
        v.push(48);
        v.push(48);
        v.push(48);
        assert(v@ =~= spec_pkt_write(s@));
        return v;
    }
    let n: usize = s.len() + 4;
    v.push(hex_digit_byte(((n / 4096) % 16) as u8));
    v.push(hex_digit_byte(((n / 256) % 16) as u8));
    v.push(hex_digit_byte(((n / 16) % 16) as u8));
    v.push(hex_digit_byte((n % 16) as u8));
    v.extend_from_slice(s);
    assert(v@ =~= spec_pkt_write(s@));
    v
}

/// What reading one pkt-line at `offset` yields: the payload and the offset
/// past the frame. A flush yields an empty payload. Failures: a buffer too
/// short for the prefix or the framed payload, a non-hex prefix, or a length
/// of one to three, which cannot cover its own prefix.
pub open spec fn spec_pkt_read(buf: Seq<u8>, offset: int) -> Result<(Seq<u8>, int), GitError> {
    if offset < 0 || offset + 4 > buf.len() {
        Err(GitError::TransportError)
    } else if !(is_hex(buf[offset]) && is_hex(buf[offset + 1]) && is_hex(buf[offset + 2])
        && is_hex(buf[offset + 3])) {
        Err(GitError::TransportError)
    } else {
        let len = hex_val(buf[offset]) * 4096 + hex_val(buf[offset + 1]) * 256 + hex_val(
            buf[offset + 2],
        ) * 16 + hex_val(buf[offset + 3]);
        if len == 0 {
            Ok((Seq::empty(), offset + 4))
        } else if len < 4 {
            Err(GitError::TransportError)
        } else if offset + len > buf.len() {
            Err(GitError::TransportError)
        } else {
            Ok((buf.subrange(offset + 4, offset + len), offset + len))
        }
    }
}

/// Read one pkt-line at `*offset`, advancing past it on success.
pub fn read_pkt_line(buf: &[u8], offset: &mut usize) -> (r: Result<Vec<u8>, GitError>)
    ensures
        match r {
            Ok(line) => spec_pkt_read(buf@, *old(offset) as int) == Ok::<(Seq<u8>, int), GitError>(
                (line@, *final(offset) as int),
            ) && *old(offset) < *final(offset) <= buf@.len(),
            Err(e) => spec_pkt_read(buf@, *old(offset) as int) == Err::<(Seq<u8>, int), GitError>(
                e,
            ) && *final(offset) == *old(offset),
        },
{
    if buf.len() < 4 || *offset > buf.len() - 4 {
        return Err(GitError::TransportError);
    }
    let b0 = buf[*offset];
    let b1 = buf[*offset + 1];
    let b2 = buf[*offset + 2];
    let b3 = buf[*offset + 3];
    if !(is_hex_byte(b0) && is_hex_byte(b1) && is_hex_byte(b2) && is_hex_byte(b3)) {
        return Err(GitError::TransportError);
    }
    let len: usize = (hex_val_byte(b0) as usize) * 4096 + (hex_val_byte(b1) as usize) * 256
        + (hex_val_byte(b2) as usize) * 16 + (hex_val_byte(b3) as usize);
    if len == 0 {
        *offset += 4;
        return Ok(Vec::new());
    }
    if len < 4 {
        return Err(GitError::TransportError);
    }
    if len > buf.len() - *offset {
        return Err(GitError::TransportError);
    }
    let line = crate::util::subrange_to_vec(buf, *offset + 4, *offset + len);
    *offset += len;
    Ok(line)
}

} // verus!
