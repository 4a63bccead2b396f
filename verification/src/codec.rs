//! The object codec: the canonical "kind, space, decimal length, NUL,
//! payload" byte form that is both hashed for identity and stored on disk,
//! and its inverse.
use vstd::prelude::*;
use crate::GitError;
use crate::digest::{sha1_of, sha1_digest};
use crate::num::{all_digits, all_digits_check, dec_val, format_dec, parse_dec, spec_dec,
    lemma_spec_dec_digits, lemma_dec_val_spec_dec};
use crate::util::{bytes_eq, find_byte, find_byte_from, lemma_find_byte_exact, subrange_to_vec};

verus! {

/// The closed set of object kinds. Commit, tree and blob are interpreted;
/// tag is stored but never walked.
#[derive(Clone, Copy, Debug, PartialEq, Eq, Structural)]
pub enum ObjectKind {
    Commit,
    Tree,
    Blob,
    Tag,
}

/// The ASCII name of a kind, as it appears in the canonical header.
pub open spec fn kind_name(k: ObjectKind) -> Seq<u8> {
    match k {
        ObjectKind::Commit => seq![99u8, 111u8, 109u8, 109u8, 105u8, 116u8],
        ObjectKind::Tree => seq![116u8, 114u8, 101u8, 101u8],
        ObjectKind::Blob => seq![98u8, 108u8, 111u8, 98u8],
        ObjectKind::Tag => seq![116u8, 97u8, 103u8],
    }
}

/// The kind a name denotes, if any.
pub open spec fn kind_of_name(s: Seq<u8>) -> Option<ObjectKind> {
    if s == kind_name(ObjectKind::Commit) {
        Some(ObjectKind::Commit)
    } else if s == kind_name(ObjectKind::Tree) {
        Some(ObjectKind::Tree)
    } else if s == kind_name(ObjectKind::Blob) {
        Some(ObjectKind::Blob)
    } else if s == kind_name(ObjectKind::Tag) {
        Some(ObjectKind::Tag)
    } else {
        None
    }
}

/// Canonical object bytes: kind name, space, decimal payload length, NUL,
/// payload. Identity is the SHA-1 of exactly this sequence.
pub open spec fn canonical(k: ObjectKind, payload: Seq<u8>) -> Seq<u8> {
    kind_name(k) + seq![32u8] + spec_dec(payload.len()) + seq![0u8] + payload
}

/// The identity of an object: the digest of its canonical bytes.
pub open spec fn id_of(k: ObjectKind, payload: Seq<u8>) -> Seq<u8> {
    sha1_of(canonical(k, payload))
}

proof fn lemma_kind_name_facts(k: ObjectKind)
    ensures
        3 <= kind_name(k).len() <= 6,
        forall|j: int| 0 <= j < kind_name(k).len() ==> kind_name(k)[j] != 32
            && kind_name(k)[j] != 0,
        kind_of_name(kind_name(k)) == Some(k),
{
    let n = kind_name(k);
    match k {
        ObjectKind::Commit => {
            assert(forall|j: int| 0 <= j < n.len() ==> n[j] != 32 && n[j] != 0);
        },
        ObjectKind::Tree => {
            assert(forall|j: int| 0 <= j < n.len() ==> n[j] != 32 && n[j] != 0);
            assert(n != kind_name(ObjectKind::Commit));
            assert(n[0] != kind_name(ObjectKind::Blob)[0]);
            assert(n != kind_name(ObjectKind::Blob));
        },
        ObjectKind::Blob => {
            assert(forall|j: int| 0 <= j < n.len() ==> n[j] != 32 && n[j] != 0);
            assert(n != kind_name(ObjectKind::Commit));
            assert(n[0] != kind_name(ObjectKind::Tree)[0]);
            assert(n != kind_name(ObjectKind::Tree));
        },
        ObjectKind::Tag => {
            assert(forall|j: int| 0 <= j < n.len() ==> n[j] != 32 && n[j] != 0);
            assert(n != kind_name(ObjectKind::Commit));
            assert(n != kind_name(ObjectKind::Tree));
            assert(n != kind_name(ObjectKind::Blob));
        },
    }
}

/// The ASCII name of a kind, executable form.
pub fn kind_name_bytes(k: ObjectKind) -> (r: Vec<u8>)
    ensures
        r@ == kind_name(k),
{
    let mut v: Vec<u8> = Vec::new();
    match k {
        ObjectKind::Commit => {
            v.push(99);
            v.push(111);
            v.push(109);
            v.push(109);
            v.push(105);
            v.push(116);
        },
        ObjectKind::Tree => {
            v.push(116);
            v.push(114);
            v.push(101);
            v.push(101);
        },
        ObjectKind::Blob => {
            v.push(98);
            v.push(108);
            v.push(111);
            v.push(98);
        },
        ObjectKind::Tag => {
            v.push(116);
            v.push(97);
            v.push(103);
        },
    }
    assert(v@ =~= kind_name(k));
    v
}

/// The kind a name denotes, executable form.
pub fn kind_from_bytes(s: &[u8]) -> (r: Option<ObjectKind>)
    ensures
        r == kind_of_name(s@),
{
    let commit = kind_name_bytes(ObjectKind::Commit);
    if bytes_eq(s, commit.as_slice()) {
        return Some(ObjectKind::Commit);
    }
    let tree = kind_name_bytes(ObjectKind::Tree);
    if bytes_eq(s, tree.as_slice()) {
        return Some(ObjectKind::Tree);
    }
    let blob = kind_name_bytes(ObjectKind::Blob);
    if bytes_eq(s, blob.as_slice()) {
        return Some(ObjectKind::Blob);
    }
    let tag = kind_name_bytes(ObjectKind::Tag);
    if bytes_eq(s, tag.as_slice()) {
        return Some(ObjectKind::Tag);
    }
    None
}

/// Build the canonical byte form of an object.
pub fn serialize_object(k: ObjectKind, payload: &[u8]) -> (r: Vec<u8>)
    ensures
        r@ == canonical(k, payload@),
{
    let mut v = kind_name_bytes(k);
    v.push(32);
    let mut dec = format_dec(payload.len() as u64);
    v.append(&mut dec);
    v.push(0);
    v.extend_from_slice(payload);
    assert(v@ =~= canonical(k, payload@));
    v
}

/// Canonical bytes together with the identity they hash to.
pub fn hash_object(k: ObjectKind, payload: &[u8]) -> (r: (Vec<u8>, Vec<u8>))
    ensures
        r.0@ == canonical(k, payload@),
        r.1@ == id_of(k, payload@),
        r.1@.len() == 20,
{
    let canon = serialize_object(k, payload);
    let id = sha1_digest(canon.as_slice());
    (canon, id)
}

/// The identity of an object, computed from its canonical bytes.
pub fn object_id_of(k: ObjectKind, payload: &[u8]) -> (r: Vec<u8>)
    ensures
        r@ == id_of(k, payload@),
        r@.len() == 20,
{
    let canon = serialize_object(k, payload);
    sha1_digest(canon.as_slice())
}

/// What parsing canonical object bytes yields. Failures: no space or NUL
/// delimiter or a non-decimal length (the header is unparsable), a kind name
/// outside the closed set, or a declared length that disagrees with the
/// remaining byte count (the decompressed stream was short or long).
pub open spec fn spec_parse_object(s: Seq<u8>) -> Result<(ObjectKind, Seq<u8>), GitError> {
    let sp = find_byte(s, 32, 0);
    if sp < 0 {
        Err(GitError::MalformedObjectHeader)
    } else {
        match kind_of_name(s.take(sp)) {
            None => Err(GitError::UnsupportedKind),
            Some(k) => {
                let nul = find_byte(s, 0, sp + 1);
                if nul < 0 {
                    Err(GitError::MalformedObjectHeader)
                } else {
                    let digits = s.subrange(sp + 1, nul);
                    if digits.len() == 0 || !all_digits(digits) {
                        Err(GitError::MalformedObjectHeader)
                    } else if dec_val(digits) != s.len() - nul - 1 {
                        Err(GitError::CorruptPack)
                    } else {
                        Ok((k, s.subrange(nul + 1, s.len() as int)))
                    }
                }
            },
        }
    }
}

/// Parse canonical object bytes back into kind and payload.
pub fn parse_object(s: &[u8]) -> (r: Result<(ObjectKind, Vec<u8>), GitError>)
    ensures
        match r {
            Ok(p) => spec_parse_object(s@) == Ok::<(ObjectKind, Seq<u8>), GitError>((p.0, p.1@)),
            Err(e) => spec_parse_object(s@) == Err::<(ObjectKind, Seq<u8>), GitError>(e),
        },
{
    let sp = match find_byte_from(s, 32, 0) {
        None => {
            return Err(GitError::MalformedObjectHeader);
        },
        Some(j) => j,
    };
    let tok: &[u8] = &s[0..sp];
    assert(tok@ =~= s@.take(sp as int));
    let k = match kind_from_bytes(tok) {
        None => {
            return Err(GitError::UnsupportedKind);
        },
        Some(k) => k,
    };
    let nul = match find_byte_from(s, 0, sp + 1) {
        None => {
            return Err(GitError::MalformedObjectHeader);
        },
        Some(j) => j,
    };
    let digits: &[u8] = &s[sp + 1..nul];
    assert(digits@ =~= s@.subrange(sp + 1, nul as int));
    if digits.len() == 0 {
        return Err(GitError::MalformedObjectHeader);
    }
    if !all_digits_check(digits) {
        return Err(GitError::MalformedObjectHeader);
    }
    let rest_len: usize = s.len() - nul - 1;
    match parse_dec(digits) {
        None => {
            // All digits but above u64::MAX: cannot match the remaining count.
            proof {
                crate::num::lemma_dec_val_nonneg(digits@);
            }
            Err(GitError::CorruptPack)
        },
        Some(v) => {
            if v != rest_len as u64 {
                Err(GitError::CorruptPack)
            } else {
                let payload = subrange_to_vec(s, nul + 1, s.len());
                Ok((k, payload))
            }
        },
    }
}

/// Canonicalization round-trips: parsing what serialize built gives back
/// exactly the kind and payload, so a recovered object keeps its identity.
pub proof fn lemma_parse_canonical(k: ObjectKind, payload: Seq<u8>)
    ensures
        spec_parse_object(canonical(k, payload)) == Ok::<(ObjectKind, Seq<u8>), GitError>(
            (k, payload),
        ),
{
    let s = canonical(k, payload);
    let n = kind_name(k);
    let d = spec_dec(payload.len());
    lemma_kind_name_facts(k);
    lemma_spec_dec_digits(payload.len());
    lemma_dec_val_spec_dec(payload.len());
    let nl = n.len() as int;
    let dl = d.len() as int;
    assert(s.len() == nl + 1 + dl + 1 + payload.len());
    assert(forall|j: int| 0 <= j < nl ==> s[j] == n[j]);
    assert(s[nl] == 32);
    assert(forall|j: int| 0 <= j < dl ==> s[nl + 1 + j] == d[j]);
    assert(s[nl + 1 + dl] == 0);
    assert(forall|j: int| 0 <= j < payload.len() ==> s[nl + 1 + dl + 1 + j] == payload[j]);
    // The first space ends the kind name.
    assert(forall|j: int| 0 <= j < nl ==> s[j] != 32);
    lemma_find_byte_exact(s, 32, 0, nl);
    assert(s.take(nl) =~= n);
    // The first NUL after the space ends the digits.
    assert(forall|j: int| nl + 1 <= j < nl + 1 + dl ==> s[j] == d[j - nl - 1] && s[j] != 0);
    lemma_find_byte_exact(s, 0, nl + 1, nl + 1 + dl);
    assert(s.subrange(nl + 1, nl + 1 + dl) =~= d);
    assert(dec_val(d) == payload.len());
    assert(s.len() - (nl + 1 + dl) - 1 == payload.len());
    assert(s.subrange(nl + 1 + dl + 1, s.len() as int) =~= payload);
}

} // verus!
