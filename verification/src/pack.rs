//! The pack-stream receiver: parses the pack container, walks its entries in
//! stream order, decompresses each one, reconstructs reference-deltas
//! against bases already received, and fills the in-memory object index.
//! The trailing checksum covers every byte before itself.
use vstd::prelude::*;
use crate::GitError;
use crate::codec::{id_of, object_id_of, ObjectKind};
use crate::delta::{apply_delta, spec_apply_delta};
use crate::digest::{sha1_digest, sha1_of};
use crate::num::{decode_size, spec_decode_size};
use crate::store::ObjectIndex;
use crate::util::{bytes_eq, subrange_to_vec};
use crate::zlib::{inflate_of, zlib_decompress};

verus! {

/// The mapping an index holds: raw identity to kind and payload.
pub type ObjectMap = Map<Seq<u8>, (ObjectKind, Seq<u8>)>;

/// The object kind a pack entry code denotes, for the four whole-object
/// codes.
pub open spec fn kind_of_code(code: u8) -> ObjectKind {
    if code == 1 {
        ObjectKind::Commit
    } else if code == 2 {
        ObjectKind::Tree
    } else if code == 3 {
        ObjectKind::Blob
    } else {
        ObjectKind::Tag
    }
}

/// What receiving one pack entry at `pos` does to the index. The entry
/// header carries the kind in bits 4-6 of its first byte and the
/// decompressed size in a variable-length integer. Whole objects (codes one
/// to four) are one zlib stream; a reference-delta (code seven) is a raw
/// twenty-byte base identity, then a zlib stream holding the delta. The
/// offset-delta code six is recognized and refused; other codes are
/// corrupt. A reconstructed object keeps its base's kind.
pub open spec fn spec_pack_entry(m: ObjectMap, buf: Seq<u8>, pos: int) -> Result<
    (ObjectMap, int),
    GitError,
> {
    match spec_decode_size(buf, pos, false) {
        None => Err(GitError::CorruptPack),
        Some((size, hpos)) => if size > u64::MAX {
            Err(GitError::CorruptPack)
        } else {
            let code = buf[pos] / 16 % 8;
            if 1 <= code <= 4 {
                match inflate_of(buf.skip(hpos)) {
                    None => Err(GitError::CorruptPack),
                    Some((out, used)) => if out.len() != size {
                        Err(GitError::CorruptPack)
                    } else {
                        let kind = kind_of_code(code);
                        Ok((m.insert(id_of(kind, out), (kind, out)), hpos + used))
                    },
                }
            } else if code == 7 {
                if hpos + 20 > buf.len() {
                    Err(GitError::CorruptPack)
                } else {
                    let base_id = buf.subrange(hpos, hpos + 20);
                    if !m.dom().contains(base_id) {
                        Err(GitError::MissingBase)
                    } else {
                        let (bkind, bdata) = m[base_id];
                        match inflate_of(buf.skip(hpos + 20)) {
                            None => Err(GitError::CorruptPack),
                            Some((delta, used)) => if delta.len() != size {
                                Err(GitError::CorruptPack)
                            } else {
                                match spec_apply_delta(bdata, delta) {
                                    Err(e) => Err(e),
                                    Ok(rec) => Ok(
                                        (m.insert(id_of(bkind, rec), (bkind, rec)), hpos + 20
                                            + used),
                                    ),
                                }
                            },
                        }
                    }
                }
            } else if code == 6 {
                Err(GitError::UnsupportedKind)
            } else {
                Err(GitError::CorruptPack)
            }
        },
    }
}

/// Receiving `n` entries in stream order, from `pos`.
pub open spec fn spec_pack_entries(m: ObjectMap, buf: Seq<u8>, pos: int, n: nat) -> Result<
    (ObjectMap, int),
    GitError,
>
    decreases n,
{
    if n == 0 {
        Ok((m, pos))
    } else {
        match spec_pack_entry(m, buf, pos) {
            Err(e) => Err(e),
            Ok((m2, p2)) => spec_pack_entries(m2, buf, p2, (n - 1) as nat),
        }
    }
}

/// Big-endian value of four bytes.
pub open spec fn be32(s: Seq<u8>) -> nat {
    (s[0] * 0x1000000 + s[1] * 0x10000 + s[2] * 0x100 + s[3]) as nat
}

/// The `PACK` signature and the version-two word.
pub open spec fn pack_sig() -> Seq<u8> {
    seq![80u8, 65u8, 67u8, 75u8]
}

pub open spec fn pack_version2() -> Seq<u8> {
    seq![0u8, 0u8, 0u8, 2u8]
}

/// What receiving a whole pack stream yields: the objects it carries, keyed
/// by identity. The stream must open with `PACK` and version two, its
/// trailing twenty bytes must equal the SHA-1 of everything before them,
/// its declared entry count must consume the bytes between header and
/// trailer exactly.
pub open spec fn spec_receive_pack(buf: Seq<u8>) -> Result<ObjectMap, GitError> {
    if buf.len() < 32 {
        Err(GitError::CorruptPack)
    } else if buf.subrange(0, 4) != pack_sig() {
        Err(GitError::CorruptPack)
    } else if buf.subrange(4, 8) != pack_version2() {
        Err(GitError::CorruptPack)
    } else if sha1_of(buf.take(buf.len() - 20)) != buf.skip(buf.len() - 20) {
        Err(GitError::CorruptPack)
    } else {
        match spec_pack_entries(Map::empty(), buf, 12, be32(buf.subrange(8, 12))) {
            Err(e) => Err(e),
            Ok((m, pos)) => if pos != buf.len() - 20 {
                Err(GitError::CorruptPack)
            } else {
                Ok(m)
            },
        }
    }
}

/// Receive one pack entry at `pos`, advancing the index.
#[verifier::rlimit(100)]
#[verifier::spinoff_prover]
fn pack_entry(idx: &mut ObjectIndex, buf: &[u8], pos: usize) -> (r: Result<usize, GitError>)
    requires
        old(idx).wf(),
    ensures
        final(idx).wf(),
        match r {
            Ok(np) => spec_pack_entry(old(idx)@, buf@, pos as int) == Ok::<(ObjectMap, int),
                GitError>((final(idx)@, np as int)) && pos < np <= buf@.len(),
            Err(e) => spec_pack_entry(old(idx)@, buf@, pos as int) == Err::<(ObjectMap, int),
                GitError>(e) && final(idx)@ == old(idx)@,
        },
{
    let mut i: usize = pos;
    let size = match decode_size(buf, &mut i, false) {
        None => {
            return Err(GitError::CorruptPack);
        },
        Some(v) => v,
    };
    let code = buf[pos] / 16 % 8;
    if 1 <= code && code <= 4 {
        let rem: &[u8] = &buf[i..buf.len()];
        assert(rem@ =~= buf@.skip(i as int));
        let (out, used) = match zlib_decompress(rem) {
            None => {
                return Err(GitError::CorruptPack);
            },
            Some(p) => p,
        };
        if out.len() as u64 != size {
            return Err(GitError::CorruptPack);
        }
        let kind = if code == 1 {
            ObjectKind::Commit
        } else if code == 2 {
            ObjectKind::Tree
        } else if code == 3 {
            ObjectKind::Blob
        } else {
            ObjectKind::Tag
        };
        assert(kind == kind_of_code(code));
        let id = object_id_of(kind, out.as_slice());
        idx.insert(id, kind, out);
        Ok(i + used)
    } else if code == 7 {
        if buf.len() - i < 20 {
            return Err(GitError::CorruptPack);
        }
        let base_id = subrange_to_vec(buf, i, i + 20);
        let (bkind, bdata) = match idx.get(base_id.as_slice()) {
            None => {
                return Err(GitError::MissingBase);
            },
            Some(p) => {
                let data = crate::util::slice_to_vec(p.1.as_slice());
                (p.0, data)
            },
        };
        let rem: &[u8] = &buf[i + 20..buf.len()];
        assert(rem@ =~= buf@.skip(i + 20));
        let (delta, used) = match zlib_decompress(rem) {
            None => {
                return Err(GitError::CorruptPack);
            },
            Some(p) => p,
        };
        if delta.len() as u64 != size {
            return Err(GitError::CorruptPack);
        }
        let rec = match apply_delta(bdata.as_slice(), delta.as_slice()) {
            Err(e) => {
                return Err(e);
            },
            Ok(rec) => rec,
        };
        let id = object_id_of(bkind, rec.as_slice());
        idx.insert(id, bkind, rec);
        Ok(i + 20 + used)
    } else if code == 6 {
        Err(GitError::UnsupportedKind)
    } else {
        Err(GitError::CorruptPack)
    }
}

/// Receive a whole pack stream: verify its framing and trailing checksum,
/// then fill an index with the objects of its entries, reconstructing
/// deltas against bases from the same stream.
#[verifier::loop_isolation(false)]
#[verifier::rlimit(100)]
#[verifier::spinoff_prover]
pub fn receive_pack(buf: &[u8]) -> (r: Result<ObjectIndex, GitError>)
    ensures
        match r {
            Ok(idx) => idx.wf() && spec_receive_pack(buf@) == Ok::<ObjectMap, GitError>(idx@),
            Err(e) => spec_receive_pack(buf@) == Err::<ObjectMap, GitError>(e),
        },
{
    if buf.len() < 32 {
        return Err(GitError::CorruptPack);
    }
    let sig: &[u8] = &buf[0..4];
    assert(sig@ =~= buf@.subrange(0, 4));
    let mut sig_lit: Vec<u8> = Vec::new();
    sig_lit.push(80);
    sig_lit.push(65);
    sig_lit.push(67);
    sig_lit.push(75);
    assert(sig_lit@ =~= pack_sig());
    if !bytes_eq(sig, sig_lit.as_slice()) {
        return Err(GitError::CorruptPack);
    }
    let ver: &[u8] = &buf[4..8];
    assert(ver@ =~= buf@.subrange(4, 8));
    let mut ver_lit: Vec<u8> = Vec::new();
    ver_lit.push(0);
    ver_lit.push(0);
    ver_lit.push(0);
    ver_lit.push(2);
    assert(ver_lit@ =~= pack_version2());
    if !bytes_eq(ver, ver_lit.as_slice()) {
        return Err(GitError::CorruptPack);
    }
    let body: &[u8] = &buf[0..buf.len() - 20];
    assert(body@ =~= buf@.take(buf@.len() - 20));
    let digest = sha1_digest(body);
    let trailer: &[u8] = &buf[buf.len() - 20..buf.len()];
    assert(trailer@ =~= buf@.skip(buf@.len() - 20));
    if !bytes_eq(digest.as_slice(), trailer) {
        return Err(GitError::CorruptPack);
    }
    let n: u32 = (buf[8] as u32) * 0x1000000 + (buf[9] as u32) * 0x10000 + (buf[10] as u32) * 0x100
        + (buf[11] as u32);
    assert(n as nat == be32(buf@.subrange(8, 12)));
    let mut idx = ObjectIndex::new();
    let mut pos: usize = 12;
    let mut k: u32 = 0;
    while k < n
        invariant
            k <= n,
            idx.wf(),
            spec_pack_entries(Map::empty(), buf@, 12, n as nat) == spec_pack_entries(
                idx@,
                buf@,
                pos as int,
                (n - k) as nat,
            ),
        decreases n - k,
    {
        match pack_entry(&mut idx, buf, pos) {
            Err(e) => {
                return Err(e);
            },
            Ok(np) => {
                pos = np;
            },
        }
        k += 1;
    }
    if pos != buf.len() - 20 {
        return Err(GitError::CorruptPack);
    }
    Ok(idx)
}

/// Every held object sits under the digest of its own canonical bytes.
pub open spec fn content_addressed(m: ObjectMap) -> bool {
    forall|id: Seq<u8>| #[trigger] m.dom().contains(id) ==> id == id_of(m[id].0, m[id].1)
}

proof fn lemma_pack_entries_content_addressed(m: ObjectMap, buf: Seq<u8>, pos: int, n: nat)
    requires
        content_addressed(m),
        spec_pack_entries(m, buf, pos, n) is Ok,
    ensures
        content_addressed(spec_pack_entries(m, buf, pos, n)->Ok_0.0),
    decreases n,
{
    if n > 0 {
        let (m2, p2) = spec_pack_entry(m, buf, pos)->Ok_0;
        assert(content_addressed(m2)) by {
            assert forall|id: Seq<u8>| #[trigger] m2.dom().contains(id) implies id == id_of(
                m2[id].0,
                m2[id].1,
            ) by {
                if !m.dom().contains(id) || m2[id] != m[id] {
                } else {
                    assert(id == id_of(m[id].0, m[id].1));
                }
            }
        }
        lemma_pack_entries_content_addressed(m2, buf, p2, (n - 1) as nat);
    }
}

/// A received pack's store is content-addressed: whatever it holds under an
/// identity hashes back to that identity, whole objects and reconstructed
/// deltas alike.
pub proof fn lemma_receive_pack_content_addressed(buf: Seq<u8>, m: ObjectMap)
    requires
        spec_receive_pack(buf) == Ok::<ObjectMap, GitError>(m),
    ensures
        content_addressed(m),
{
    let n = be32(buf.subrange(8, 12));
    assert(content_addressed(Map::empty())) by {
        assert(forall|id: Seq<u8>| !(#[trigger] Map::<Seq<u8>, (ObjectKind, Seq<u8>)>::empty()
            .dom().contains(id)));
    }
    lemma_pack_entries_content_addressed(Map::empty(), buf, 12, n);
}

/// A trailer that does not match the checksum of what precedes it — a
/// single flipped bit suffices — makes the whole receive fail as corrupt.
pub proof fn lemma_trailer_alteration(b1: Seq<u8>, b2: Seq<u8>)
    requires
        spec_receive_pack(b1) is Ok,
        b2.len() == b1.len(),
        b2.take(b1.len() - 20) == b1.take(b1.len() - 20),
        b2.skip(b1.len() - 20) != b1.skip(b1.len() - 20),
    ensures
        spec_receive_pack(b2) == Err::<ObjectMap, GitError>(GitError::CorruptPack),
{
    assert(b1.len() >= 32);
    assert forall|j: int| 0 <= j < b1.len() - 20 implies b2[j] == b1[j] by {
        assert(b2.take(b1.len() - 20) == b1.take(b1.len() - 20));
        assert(b2.take(b1.len() - 20)[j] == b2[j]);
        assert(b1.take(b1.len() - 20)[j] == b1[j]);
    }
    assert(b2.subrange(0, 4) =~= b1.subrange(0, 4));
    assert(b2.subrange(4, 8) =~= b1.subrange(4, 8));
    assert(b2.take(b2.len() - 20) == b1.take(b1.len() - 20));
    assert(sha1_of(b1.take(b1.len() - 20)) == b1.skip(b1.len() - 20));
    assert(sha1_of(b2.take(b2.len() - 20)) != b2.skip(b2.len() - 20));
}

/// Two receives of one recorded pack body yield the same objects, so two
/// independent clones of a fixed response leave byte-identical object
/// stores: every piece of the on-disk form is a function of the map alone.
pub proof fn lemma_clone_determinism(body: Seq<u8>, m1: ObjectMap, m2: ObjectMap)
    requires
        spec_receive_pack(body) == Ok::<ObjectMap, GitError>(m1),
        spec_receive_pack(body) == Ok::<ObjectMap, GitError>(m2),
    ensures
        m1 == m2,
        forall|id: Seq<u8>| m1.dom().contains(id) ==> crate::store::spec_disk_bytes(
            m1[id].0,
            m1[id].1,
        ) == crate::store::spec_disk_bytes(m2[id].0, m2[id].1),
{
}

} // verus!
