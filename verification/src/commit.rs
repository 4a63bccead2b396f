//! Commit objects: building the textual commit payload, and reading the
//! root tree identity out of a stored commit.
use vstd::prelude::*;
use crate::GitError;
use crate::codec::{id_of, object_id_of, ObjectKind};
use crate::hexid::{all_hex, hex_decode, spec_hex_decode};
use crate::num::{format_dec, spec_dec};
use crate::pack::ObjectMap;
use crate::store::ObjectIndex;
use crate::util::{bytes_eq, find_byte, find_byte_from, slice_to_vec, subrange_to_vec};

verus! {

/// The ASCII pieces of the commit text.
pub open spec fn tree_prefix() -> Seq<u8> {
    // "tree "
    seq![116u8, 114u8, 101u8, 101u8, 32u8]
}

pub open spec fn parent_prefix() -> Seq<u8> {
    // "parent "
    seq![112u8, 97u8, 114u8, 101u8, 110u8, 116u8, 32u8]
}

pub open spec fn author_prefix() -> Seq<u8> {
    // "author "
    seq![97u8, 117u8, 116u8, 104u8, 111u8, 114u8, 32u8]
}

pub open spec fn committer_prefix() -> Seq<u8> {
    // "committer "
    seq![99u8, 111u8, 109u8, 109u8, 105u8, 116u8, 116u8, 101u8, 114u8, 32u8]
}

/// One identity line of a person: name, bracketed mail, seconds since the
/// epoch, timezone.
pub open spec fn person_line(name: Seq<u8>, mail: Seq<u8>, ts: nat, tz: Seq<u8>) -> Seq<u8> {
    name + seq![32u8, 60u8] + mail + seq![62u8, 32u8] + spec_dec(ts) + seq![32u8] + tz + seq![
        10u8,
    ]
}

/// The full commit payload: the tree line, parent lines for the given
/// parents, author and committer, a blank line, the message, a final
/// newline.
pub open spec fn spec_commit_payload(
    tree_hex: Seq<u8>,
    parent_hex: Option<Seq<u8>>,
    name: Seq<u8>,
    mail: Seq<u8>,
    ts: nat,
    tz: Seq<u8>,
    message: Seq<u8>,
) -> Seq<u8> {
    tree_prefix() + tree_hex + seq![10u8] + (match parent_hex {
        Some(p) => parent_prefix() + p + seq![10u8],
        None => Seq::empty(),
    }) + author_prefix() + person_line(name, mail, ts, tz) + committer_prefix() + person_line(
        name,
        mail,
        ts,
        tz,
    ) + seq![10u8] + message + seq![10u8]
}

fn push_person_line(out: &mut Vec<u8>, name: &[u8], mail: &[u8], ts: u64, tz: &[u8])
    ensures
        final(out)@ == old(out)@ + person_line(name@, mail@, ts as nat, tz@),
{
    let ghost pre = out@;
    out.extend_from_slice(name);
    out.push(32);
    out.push(60);
    out.extend_from_slice(mail);
    out.push(62);
    out.push(32);
    let mut dec = format_dec(ts);
    out.append(&mut dec);
    out.push(32);
    out.extend_from_slice(tz);
    out.push(10);
    assert(out@ =~= pre + person_line(name@, mail@, ts as nat, tz@));
}

/// Build a commit payload naming a tree, at most one parent, one person as
/// author and committer, and a message.
pub fn build_commit_payload(
    tree_hex: &[u8],
    parent_hex: Option<&Vec<u8>>,
    name: &[u8],
    mail: &[u8],
    ts: u64,
    tz: &[u8],
    message: &[u8],
) -> (r: Vec<u8>)
    ensures
        r@ == spec_commit_payload(
            tree_hex@,
            match parent_hex {
                Some(p) => Some(p@),
                None => None,
            },
            name@,
            mail@,
            ts as nat,
            tz@,
            message@,
        ),
{
    let mut out: Vec<u8> = Vec::new();
    // "tree "
    out.push(116);
    out.push(114);
    out.push(101);
    out.push(101);
    out.push(32);
    assert(out@ =~= tree_prefix());
    out.extend_from_slice(tree_hex);
    out.push(10);
    let ghost after_tree = out@;
    match parent_hex {
        Some(p) => {
            // "parent "
            out.push(112);
            out.push(97);
            out.push(114);
            out.push(101);
            out.push(110);
            out.push(116);
            out.push(32);
            out.extend_from_slice(p.as_slice());
            out.push(10);
            assert(out@ =~= after_tree + parent_prefix() + p@ + seq![10u8]);
        },
        None => {},
    }
    let ghost after_parent = out@;
    // "author "
    out.push(97);
    out.push(117);
    out.push(116);
    out.push(104);
    out.push(111);
    out.push(114);
    out.push(32);
    assert(out@ =~= after_parent + author_prefix());
    push_person_line(&mut out, name, mail, ts, tz);
    let ghost after_author = out@;
    // "committer "
    out.push(99);
    out.push(111);
    out.push(109);
    out.push(109);
    out.push(105);
    out.push(116);
    out.push(116);
    out.push(101);
    out.push(114);
    out.push(32);
    assert(out@ =~= after_author + committer_prefix());
    push_person_line(&mut out, name, mail, ts, tz);
    out.push(10);
    out.extend_from_slice(message);
    out.push(10);
    assert(out@ =~= spec_commit_payload(
        tree_hex@,
        match parent_hex {
            Some(p) => Some(p@),
            None => None,
        },
        name@,
        mail@,
        ts as nat,
        tz@,
        message@,
    ));
    out
}

/// Build a commit payload together with the identity it hashes to.
pub fn build_commit(
    tree_hex: &[u8],
    parent_hex: Option<&Vec<u8>>,
    name: &[u8],
    mail: &[u8],
    ts: u64,
    tz: &[u8],
    message: &[u8],
) -> (r: (Vec<u8>, Vec<u8>))
    ensures
        r.0@ == spec_commit_payload(
            tree_hex@,
            match parent_hex {
                Some(p) => Some(p@),
                None => None,
            },
            name@,
            mail@,
            ts as nat,
            tz@,
            message@,
        ),
        r.1@ == id_of(ObjectKind::Commit, r.0@),
        r.1@.len() == 20,
{
    let payload = build_commit_payload(tree_hex, parent_hex, name, mail, ts, tz, message);
    let id = object_id_of(ObjectKind::Commit, payload.as_slice());
    (payload, id)
}

/// What reading the root tree of the commit under a forty-character hex
/// identity yields: the hex identity its `tree` line names. The identity
/// must be hex of the right length, must be held, must be a commit, and
/// its first line must open with `tree `.
pub open spec fn spec_tree_from_commit(m: ObjectMap, head: Seq<u8>) -> Result<Seq<u8>, GitError> {
    if head.len() != 40 || !all_hex(head) {
        Err(GitError::TransportError)
    } else {
        let raw = spec_hex_decode(head);
        if !m.dom().contains(raw) {
            Err(GitError::MissingBase)
        } else {
            let (kind, data) = m[raw];
            if kind != ObjectKind::Commit {
                Err(GitError::UnsupportedKind)
            } else {
                let nl = find_byte(data, 10, 0);
                let line = if nl < 0 {
                    data
                } else {
                    data.take(nl)
                };
                if line.len() < 5 || line.take(5) != tree_prefix() {
                    Err(GitError::MalformedObjectHeader)
                } else {
                    Ok(line.skip(5))
                }
            }
        }
    }
}

/// Read the hex identity of the root tree out of the commit stored under
/// the given head identity.
pub fn tree_from_commit(idx: &ObjectIndex, head: &[u8]) -> (r: Result<Vec<u8>, GitError>)
    requires
        idx.wf(),
    ensures
        match r {
            Ok(t) => spec_tree_from_commit(idx@, head@) == Ok::<Seq<u8>, GitError>(t@),
            Err(e) => spec_tree_from_commit(idx@, head@) == Err::<Seq<u8>, GitError>(e),
        },
{
    if head.len() != 40 {
        return Err(GitError::TransportError);
    }
    let raw = match hex_decode(head) {
        None => {
            return Err(GitError::TransportError);
        },
        Some(v) => v,
    };
    let (kind, data) = match idx.get(raw.as_slice()) {
        None => {
            return Err(GitError::MissingBase);
        },
        Some(p) => (p.0, slice_to_vec(p.1.as_slice())),
    };
    if kind != ObjectKind::Commit {
        return Err(GitError::UnsupportedKind);
    }
    let line_end: usize = match find_byte_from(data.as_slice(), 10, 0) {
        None => data.len(),
        Some(j) => j,
    };
    let ghost nl = find_byte(data@, 10, 0);
    assert(data@.take(line_end as int) == (if nl < 0 { data@ } else { data@.take(nl) })) by {
        if nl < 0 {
            assert(data@.take(data@.len() as int) =~= data@);
        }
    }
    if line_end < 5 {
        return Err(GitError::MalformedObjectHeader);
    }
    let prefix = subrange_to_vec(data.as_slice(), 0, 5);
    let mut lit: Vec<u8> = Vec::new();
    lit.push(116);
    lit.push(114);
    lit.push(101);
    lit.push(101);
    lit.push(32);
    assert(lit@ =~= tree_prefix());
    assert(prefix@ =~= data@.take(line_end as int).take(5));
    if !bytes_eq(prefix.as_slice(), lit.as_slice()) {
        return Err(GitError::MalformedObjectHeader);
    }
    let t = subrange_to_vec(data.as_slice(), 5, line_end);
    assert(t@ =~= data@.take(line_end as int).skip(5));
    Ok(t)
}

} // verus!
