//! Hexadecimal form of object identities: lowercase encoding of raw bytes and
//! the inverse, as used in filesystem paths and on the wire.
use vstd::prelude::*;

verus! {

/// Lowercase hex digit for a value below 16 (0-9 then a-f).
pub open spec fn hex_digit(n: u8) -> u8 {
    if n < 10 {
        (48 + n) as u8
    } else {
        (87 + n) as u8
    }
}

/// True when `b` is a hex digit, either case.
pub open spec fn is_hex(b: u8) -> bool {
    (48 <= b <= 57) || (97 <= b <= 102) || (65 <= b <= 70)
}

/// Value of one hex digit of either case.
pub open spec fn hex_val(b: u8) -> u8 {
    if 48 <= b <= 57 {
        (b - 48) as u8
    } else if 97 <= b <= 102 {
        (b - 87) as u8
    } else {
        (b - 55) as u8
    }
}

/// True when every byte of `s` is a hex digit.
pub open spec fn all_hex(s: Seq<u8>) -> bool {
    forall|i: int| 0 <= i < s.len() ==> is_hex(#[trigger] s[i])
}

/// Lowercase hex rendering of a byte string, two digits per byte, high
/// nibble first.
pub open spec fn spec_hex_encode(s: Seq<u8>) -> Seq<u8> {
    Seq::new(s.len() * 2, |i: int|
        if i % 2 == 0 {
            hex_digit(s[i / 2] / 16)
        } else {
            hex_digit((s[i / 2] % 16) as u8)
        })
}

/// Bytes denoted by a hex string of even length.
pub open spec fn spec_hex_decode(s: Seq<u8>) -> Seq<u8> {
    Seq::new(s.len() / 2, |i: int| (hex_val(s[2 * i]) * 16 + hex_val(s[2 * i + 1])) as u8)
}

/// Whether a byte is a hex digit, executable form.
pub fn is_hex_byte(b: u8) -> (r: bool)
    ensures
        r == is_hex(b),
{
    (48 <= b && b <= 57) || (97 <= b && b <= 102) || (65 <= b && b <= 70)
}

/// Value of a hex digit, executable form.
pub fn hex_val_byte(b: u8) -> (r: u8)
    requires
        is_hex(b),
    ensures
        r == hex_val(b),
        r < 16,
{
    if 48 <= b && b <= 57 {
        b - 48
    } else if 97 <= b && b <= 102 {
        b - 87
    } else {
        b - 55
    }
}

/// Lowercase hex digit of a value below 16, executable form.
pub fn hex_digit_byte(n: u8) -> (r: u8)
    requires
        n < 16,
    ensures
        r == hex_digit(n),
{
    if n < 10 {
        48 + n
    } else {
        87 + n
    }
}

/// Relies on hex::encode: lowercase hexadecimal of the input bytes, two
/// digits per byte, high nibble first.
#[verifier::external_body]
pub fn hex_encode(data: &[u8]) -> (r: Vec<u8>)
    ensures
        r@ == spec_hex_encode(data@),
{
    hex::encode(data).into_bytes()
}

/// Relies on hex::decode: accepts digits of either case, fails exactly on an
/// odd length or a byte that is not a hex digit.
#[verifier::external_body]
pub fn hex_decode(data: &[u8]) -> (r: Option<Vec<u8>>)
    ensures
        match r {
            Some(v) => data@.len() % 2 == 0 && all_hex(data@) && v@ == spec_hex_decode(data@),
            None => data@.len() % 2 != 0 || !all_hex(data@),
        },
{
    hex::decode(data).ok()
}

/// Hex digits are hex, and encoding then decoding gives the bytes back.
pub proof fn lemma_hex_round_trip(s: Seq<u8>)
    ensures
        spec_hex_encode(s).len() == s.len() * 2,
        all_hex(spec_hex_encode(s)),
        spec_hex_encode(s).len() % 2 == 0,
        spec_hex_decode(spec_hex_encode(s)) == s,
{
    let e = spec_hex_encode(s);
    assert forall|i: int| 0 <= i < e.len() implies is_hex(#[trigger] e[i]) by {
        if i % 2 == 0 {
            assert(e[i] == hex_digit(s[i / 2] / 16));
        } else {
            assert(e[i] == hex_digit((s[i / 2] % 16) as u8));
        }
    }
    assert forall|i: int| 0 <= i < s.len() implies spec_hex_decode(e)[i] == s[i] by {
        assert(e[2 * i] == hex_digit(s[i] / 16));
        assert(e[2 * i + 1] == hex_digit((s[i] % 16) as u8));
        assert(hex_val(hex_digit(s[i] / 16)) == s[i] / 16);
        assert(hex_val(hex_digit((s[i] % 16) as u8)) == s[i] % 16);
    }
    assert(spec_hex_decode(e) =~= s);
}

} // verus!
