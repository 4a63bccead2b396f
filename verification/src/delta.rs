//! The delta reconstructor: interprets the copy/insert instruction stream of
//! a reference-delta entry against its base and produces the reconstructed
//! object bytes.
use vstd::prelude::*;
use crate::GitError;
use crate::num::{decode_size, spec_decode_size};

verus! {

/// Decode the field bytes of a copy instruction whose opcode sits at `j`.
/// The low four opcode bits select offset bytes (weights 1, 2^8, 2^16,
/// 2^24), the next three select size bytes (weights 1, 2^8, 2^16); missing
/// bytes contribute zero. Yields offset, raw size and the position past the
/// fields, or nothing when the fields would leave the delta.
#[verifier::opaque]
pub open spec fn spec_copy_args(d: Seq<u8>, j: int) -> Option<(nat, nat, int)> {
    let b = d[j];
    let c1: int = if b % 2 == 1 { 1 } else { 0 };
    let c2: int = if b / 2 % 2 == 1 { 1 } else { 0 };
    let c3: int = if b / 4 % 2 == 1 { 1 } else { 0 };
    let c4: int = if b / 8 % 2 == 1 { 1 } else { 0 };
    let c5: int = if b / 16 % 2 == 1 { 1 } else { 0 };
    let c6: int = if b / 32 % 2 == 1 { 1 } else { 0 };
    let c7: int = if b / 64 % 2 == 1 { 1 } else { 0 };
    let next = j + 1 + c1 + c2 + c3 + c4 + c5 + c6 + c7;
    if j < 0 || next > d.len() {
        None
    } else {
        let off = (if c1 == 1 { d[j + 1] as int } else { 0 })
            + (if c2 == 1 { 256 * (d[j + 1 + c1] as int) } else { 0 })
            + (if c3 == 1 { 65536 * (d[j + 1 + c1 + c2] as int) } else { 0 })
            + (if c4 == 1 { 16777216 * (d[j + 1 + c1 + c2 + c3] as int) } else { 0 });
        let sz = (if c5 == 1 { d[j + 1 + c1 + c2 + c3 + c4] as int } else { 0 })
            + (if c6 == 1 { 256 * (d[j + 1 + c1 + c2 + c3 + c4 + c5] as int) } else { 0 })
            + (if c7 == 1 { 65536 * (d[j + 1 + c1 + c2 + c3 + c4 + c5 + c6] as int) } else { 0 });
        Some((off as nat, sz as nat, next))
    }
}

/// Run the instruction stream of a delta from position `j` with the bytes
/// rebuilt so far. A copy with a raw size of zero means 2^16 bytes. A copy
/// must stay inside the base; an insert must stay inside the delta; a zero
/// opcode is reserved; the stream ends exactly at the end of the delta.
pub open spec fn spec_delta_run(base: Seq<u8>, d: Seq<u8>, j: int, acc: Seq<u8>) -> Result<
    Seq<u8>,
    GitError,
>
    decreases d.len() - j,
{
    if j < 0 {
        Err(GitError::MalformedDelta)
    } else if j >= d.len() {
        Ok(acc)
    } else {
        let b = d[j];
        if b >= 128 {
            match spec_copy_args(d, j) {
                None => Err(GitError::MalformedDelta),
                Some((off, raw_sz, next)) => {
                    let sz: nat = if raw_sz == 0 {
                        65536
                    } else {
                        raw_sz
                    };
                    if next <= j || next > d.len() {
                        Err(GitError::MalformedDelta)
                    } else if off + sz > base.len() {
                        Err(GitError::MalformedDelta)
                    } else {
                        spec_delta_run(base, d, next, acc + base.subrange(
                            off as int,
                            (off + sz) as int,
                        ))
                    }
                },
            }
        } else if b == 0 {
            Err(GitError::MalformedDelta)
        } else {
            if j + 1 + b > d.len() {
                Err(GitError::MalformedDelta)
            } else {
                spec_delta_run(base, d, j + 1 + b, acc + d.subrange(j + 1, j + 1 + b))
            }
        }
    }
}

/// Decode the two size headers of a delta: the expected base size, which
/// must match the base, and the expected size of the reconstruction. A size
/// beyond the machine's integer range is malformed.
pub open spec fn spec_delta_header(base: Seq<u8>, d: Seq<u8>) -> Result<(nat, int), GitError> {
    match spec_decode_size(d, 0, true) {
        None => Err(GitError::MalformedDelta),
        Some((src, p1)) => if src != base.len() {
            Err(GitError::MalformedDelta)
        } else {
            match spec_decode_size(d, p1, true) {
                None => Err(GitError::MalformedDelta),
                Some((dst, p2)) => if dst > u64::MAX {
                    Err(GitError::MalformedDelta)
                } else {
                    Ok((dst, p2))
                },
            }
        },
    }
}

/// What reconstructing from a base and a delta yields: the header must
/// accept the base, the instruction stream must run to the end, and the
/// result must have exactly the declared size.
pub open spec fn spec_apply_delta(base: Seq<u8>, d: Seq<u8>) -> Result<Seq<u8>, GitError> {
    match spec_delta_header(base, d) {
        Err(e) => Err(e),
        Ok((dst, pos)) => match spec_delta_run(base, d, pos, Seq::empty()) {
            Err(e) => Err(e),
            Ok(r) => if r.len() == dst {
                Ok(r)
            } else {
                Err(GitError::MalformedDelta)
            },
        },
    }
}

/// The number of field bytes the copy opcode `b` calls for.
pub open spec fn copy_field_count(b: u8) -> int {
    (if b % 2 == 1 { 1int } else { 0int }) + (if b / 2 % 2 == 1 { 1int } else { 0int })
        + (if b / 4 % 2 == 1 { 1int } else { 0int }) + (if b / 8 % 2 == 1 { 1int } else { 0int })
        + (if b / 16 % 2 == 1 { 1int } else { 0int }) + (if b / 32 % 2 == 1 { 1int } else { 0int })
        + (if b / 64 % 2 == 1 { 1int } else { 0int })
}

proof fn lemma_copy_args_none(d: Seq<u8>, j: int)
    requires
        0 <= j < d.len(),
        j + 1 + copy_field_count(d[j]) > d.len(),
    ensures
        spec_copy_args(d, j) is None,
{
    reveal(spec_copy_args);
}

proof fn lemma_copy_args_some(d: Seq<u8>, j: int, off: int, sz: int, next: int)
    requires
        0 <= j < d.len(),
        next == j + 1 + copy_field_count(d[j]),
        next <= d.len(),
        ({
            let b = d[j];
            let c1: int = if b % 2 == 1 { 1 } else { 0 };
            let c2: int = if b / 2 % 2 == 1 { 1 } else { 0 };
            let c3: int = if b / 4 % 2 == 1 { 1 } else { 0 };
            let c4: int = if b / 8 % 2 == 1 { 1 } else { 0 };
            let c5: int = if b / 16 % 2 == 1 { 1 } else { 0 };
            let c6: int = if b / 32 % 2 == 1 { 1 } else { 0 };
            &&& off == (if c1 == 1 { d[j + 1] as int } else { 0int }) + (if c2 == 1 {
                256 * (d[j + 1 + c1] as int)
            } else {
                0int
            }) + (if c3 == 1 {
                65536 * (d[j + 1 + c1 + c2] as int)
            } else {
                0int
            }) + (if c4 == 1 {
                16777216 * (d[j + 1 + c1 + c2 + c3] as int)
            } else {
                0int
            })
            &&& sz == (if c5 == 1 {
                d[j + 1 + c1 + c2 + c3 + c4] as int
            } else {
                0int
            }) + (if c6 == 1 {
                256 * (d[j + 1 + c1 + c2 + c3 + c4 + c5] as int)
            } else {
                0int
            }) + (if d[j] / 64 % 2 == 1 {
                65536 * (d[j + 1 + c1 + c2 + c3 + c4 + c5 + c6] as int)
            } else {
                0int
            })
        }),
    ensures
        spec_copy_args(d, j) == Some((off as nat, sz as nat, next)),
        0 <= off < 0x100000000,
        0 <= sz < 0x1000000,
{
    reveal(spec_copy_args);
}

/// Decode the field bytes of the copy instruction at `j`.
#[verifier::rlimit(100)]
#[verifier::spinoff_prover]
fn copy_args(d: &[u8], j: usize) -> (r: Option<(u64, u64, usize)>)
    requires
        j < d@.len(),
    ensures
        match r {
            Some(t) => spec_copy_args(d@, j as int) == Some(
                ((t.0 as nat, t.1 as nat, t.2 as int)),
            ) && j < t.2 <= d@.len() && t.0 < 0x100000000 && t.1 < 0x1000000,
            None => spec_copy_args(d@, j as int) is None,
        },
{
    let b = d[j];
    let c1: usize = if b % 2 == 1 { 1 } else { 0 };
    let c2: usize = if b / 2 % 2 == 1 { 1 } else { 0 };
    let c3: usize = if b / 4 % 2 == 1 { 1 } else { 0 };
    let c4: usize = if b / 8 % 2 == 1 { 1 } else { 0 };
    let c5: usize = if b / 16 % 2 == 1 { 1 } else { 0 };
    let c6: usize = if b / 32 % 2 == 1 { 1 } else { 0 };
    let c7: usize = if b / 64 % 2 == 1 { 1 } else { 0 };
    let need: usize = c1 + c2 + c3 + c4 + c5 + c6 + c7;
    if need > d.len() - j - 1 {
        proof {
            lemma_copy_args_none(d@, j as int);
        }
        return None;
    }
    let f1: u64 = if c1 == 1 { d[j + 1] as u64 } else { 0 };
    let f2: u64 = if c2 == 1 { d[j + 1 + c1] as u64 } else { 0 };
    let f3: u64 = if c3 == 1 { d[j + 1 + c1 + c2] as u64 } else { 0 };
    let f4: u64 = if c4 == 1 { d[j + 1 + c1 + c2 + c3] as u64 } else { 0 };
    let f5: u64 = if c5 == 1 { d[j + 1 + c1 + c2 + c3 + c4] as u64 } else { 0 };
    let f6: u64 = if c6 == 1 { d[j + 1 + c1 + c2 + c3 + c4 + c5] as u64 } else { 0 };
    let f7: u64 = if c7 == 1 { d[j + 1 + c1 + c2 + c3 + c4 + c5 + c6] as u64 } else { 0 };
    let off: u64 = f1 + 256 * f2 + 65536 * f3 + 16777216 * f4;
    let sz: u64 = f5 + 256 * f6 + 65536 * f7;
    let next: usize = j + 1 + need;
    proof {
        lemma_copy_args_some(d@, j as int, off as int, sz as int, next as int);
    }
    Some((off, sz, next))
}

/// Reconstruct an object from its base and a reference-delta payload.
#[verifier::rlimit(100)]
#[verifier::spinoff_prover]
pub fn apply_delta(base: &[u8], d: &[u8]) -> (r: Result<Vec<u8>, GitError>)
    ensures
        match r {
            Ok(out) => spec_apply_delta(base@, d@) == Ok::<Seq<u8>, GitError>(out@),
            Err(e) => spec_apply_delta(base@, d@) == Err::<Seq<u8>, GitError>(e),
        },
{
    let bl: usize = base.len();
    let mut j: usize = 0;
    let src = match decode_size(d, &mut j, true) {
        None => {
            return Err(GitError::MalformedDelta);
        },
        Some(v) => v,
    };
    if src != bl as u64 {
        return Err(GitError::MalformedDelta);
    }
    let dst = match decode_size(d, &mut j, true) {
        None => {
            return Err(GitError::MalformedDelta);
        },
        Some(v) => v,
    };
    let ghost pos0: int = j as int;
    let mut out: Vec<u8> = Vec::new();
    while j < d.len()
        invariant
            j <= d@.len(),
            spec_delta_header(base@, d@) == Ok::<(nat, int), GitError>((dst as nat, pos0)),
            spec_delta_run(base@, d@, pos0, Seq::empty()) == spec_delta_run(
                base@,
                d@,
                j as int,
                out@,
            ),
        decreases d@.len() - j,
    {
        let b = d[j];
        if b >= 128 {
            let (off, raw_sz, next) = match copy_args(d, j) {
                None => {
                    return Err(GitError::MalformedDelta);
                },
                Some(t) => t,
            };
            let sz: u64 = if raw_sz == 0 {
                65536
            } else {
                raw_sz
            };
            if off > base.len() as u64 || sz > base.len() as u64 - off {
                return Err(GitError::MalformedDelta);
            }
            let start: usize = off as usize;
            let end: usize = (off + sz) as usize;
            let ghost old_out = out@;
            out.extend_from_slice(&base[start..end]);
            assert(out@ =~= old_out + base@.subrange(off as int, off + sz));
            j = next;
        } else if b == 0 {
            return Err(GitError::MalformedDelta);
        } else {
            let n: usize = b as usize;
            if n > d.len() - j - 1 {
                return Err(GitError::MalformedDelta);
            }
            let ghost old_out = out@;
            out.extend_from_slice(&d[j + 1..j + 1 + n]);
            assert(out@ =~= old_out + d@.subrange(j + 1, j + 1 + n));
            j = j + 1 + n;
        }
    }
    if out.len() as u64 == dst {
        Ok(out)
    } else {
        Err(GitError::MalformedDelta)
    }
}

/// Reconstruction yields exactly the size the delta declared for it.
pub proof fn lemma_delta_target_size(base: Seq<u8>, d: Seq<u8>)
    requires
        spec_apply_delta(base, d) is Ok,
    ensures
        spec_delta_header(base, d) is Ok,
        spec_apply_delta(base, d)->Ok_0.len() == spec_delta_header(base, d)->Ok_0.0,
{
}

/// A delta that is one copy of the whole base, and nothing else,
/// reconstructs the base itself.
pub proof fn lemma_delta_copy_whole(base: Seq<u8>, d: Seq<u8>, p2: int)
    requires
        spec_delta_header(base, d) == Ok::<(nat, int), GitError>((base.len(), p2)),
        0 <= p2 < d.len(),
        d[p2] >= 128,
        spec_copy_args(d, p2) is Some,
        ({
            let (off, raw_sz, next) = spec_copy_args(d, p2)->Some_0;
            off == 0 && next == d.len() && ((raw_sz == base.len() && raw_sz != 0) || (raw_sz == 0
                && base.len() == 65536))
        }),
    ensures
        spec_apply_delta(base, d) == Ok::<Seq<u8>, GitError>(base),
{
    let (off, raw_sz, next) = spec_copy_args(d, p2)->Some_0;
    let sz: nat = if raw_sz == 0 {
        65536
    } else {
        raw_sz
    };
    assert(sz == base.len());
    assert(Seq::<u8>::empty() + base.subrange(0, base.len() as int) =~= base);
    assert(spec_delta_run(base, d, p2, Seq::empty()) == spec_delta_run(base, d, next, base));
    assert(spec_delta_run(base, d, next, base) == Ok::<Seq<u8>, GitError>(base));
}

} // verus!
