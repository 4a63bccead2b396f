//! The working-tree materializer: from a commit identity, walk the tree it
//! names through the in-memory store and plan the directory creations and
//! file writes that produce the working tree. Performing the writes is the
//! caller's part; the plan is pure.
use vstd::prelude::*;
use crate::GitError;
use crate::codec::ObjectKind;
use crate::commit::{spec_tree_from_commit, tree_from_commit};
use crate::hexid::hex_decode;
use crate::pack::ObjectMap;
use crate::store::ObjectIndex;
use crate::tree::{entry_views, parse_tree, spec_parse_tree, TreeEntry, TreeEntryV};
use crate::util::{bytes_eq, slice_to_vec};

verus! {

/// One planned write: a directory to create or a file to fill.
pub struct CheckoutItem {
    pub path: Vec<u8>,
    pub is_dir: bool,
    pub data: Vec<u8>,
    pub executable: bool,
}

/// The mathematical form of a planned write.
pub ghost struct CheckoutItemV {
    pub path: Seq<u8>,
    pub is_dir: bool,
    pub data: Seq<u8>,
    pub executable: bool,
}

impl View for CheckoutItem {
    type V = CheckoutItemV;

    open spec fn view(&self) -> CheckoutItemV {
        CheckoutItemV {
            path: self.path@,
            is_dir: self.is_dir,
            data: self.data@,
            executable: self.executable,
        }
    }
}

pub open spec fn checkout_views(s: Seq<CheckoutItem>) -> Seq<CheckoutItemV> {
    s.map_values(|e: CheckoutItem| e@)
}

/// The symlink, gitlink and executable modes.
pub open spec fn mode_symlink() -> Seq<u8> {
    seq![49u8, 50u8, 48u8, 48u8, 48u8, 48u8]
}

pub open spec fn mode_gitlink() -> Seq<u8> {
    seq![49u8, 54u8, 48u8, 48u8, 48u8, 48u8]
}

pub open spec fn mode_exec() -> Seq<u8> {
    seq![49u8, 48u8, 48u8, 55u8, 53u8, 53u8]
}

/// The path of a child under a prefix; at the root the name stands alone.
pub open spec fn child_path(prefix: Seq<u8>, name: Seq<u8>) -> Seq<u8> {
    if prefix.len() == 0 {
        name
    } else {
        prefix + seq![47u8] + name
    }
}

/// What materializing the object under `id` at `path` plans. A blob
/// becomes one file write; a tree becomes its directory and, behind it,
/// its children's plans. A missing object, a commit or tag in a tree, and
/// fuel running out — only possible if the store's trees form a cycle,
/// which no honest digest allows — are errors.
pub open spec fn spec_checkout_obj(
    m: ObjectMap,
    id: Seq<u8>,
    path: Seq<u8>,
    executable: bool,
    fuel: nat,
) -> Result<Seq<CheckoutItemV>, GitError>
    decreases fuel, 0int,
{
    if !m.dom().contains(id) {
        Err(GitError::MissingBase)
    } else {
        let (kind, data) = m[id];
        if kind == ObjectKind::Blob {
            Ok(
                seq![
                    CheckoutItemV { path: path, is_dir: false, data: data, executable: executable },
                ],
            )
        } else if kind == ObjectKind::Tree {
            if fuel == 0 {
                Err(GitError::CorruptPack)
            } else {
                match spec_parse_tree(data, 0) {
                    Err(e) => Err(e),
                    Ok(entries) => match spec_checkout_entries(
                        m,
                        entries,
                        path,
                        (fuel - 1) as nat,
                    ) {
                        Err(e) => Err(e),
                        Ok(rest) => Ok(
                            seq![
                                CheckoutItemV {
                                    path: path,
                                    is_dir: true,
                                    data: Seq::empty(),
                                    executable: false,
                                },
                            ] + rest,
                        ),
                    },
                }
            }
        } else {
            Err(GitError::UnsupportedKind)
        }
    }
}

/// The plans of a run of tree entries under one directory, in order.
/// Symlink and gitlink modes are out of scope.
pub open spec fn spec_checkout_entries(
    m: ObjectMap,
    entries: Seq<TreeEntryV>,
    prefix: Seq<u8>,
    fuel: nat,
) -> Result<Seq<CheckoutItemV>, GitError>
    decreases fuel, entries.len() + 1,
{
    if entries.len() == 0 {
        Ok(Seq::empty())
    } else {
        let e = entries[0];
        if e.mode == mode_symlink() || e.mode == mode_gitlink() {
            Err(GitError::UnsupportedKind)
        } else {
            match spec_checkout_obj(m, e.id, child_path(prefix, e.name), e.mode == mode_exec(),
                fuel) {
                Err(err) => Err(err),
                Ok(first) => match spec_checkout_entries(m, entries.drop_first(), prefix, fuel) {
                    Err(err) => Err(err),
                    Ok(rest) => Ok(first + rest),
                },
            }
        }
    }
}

/// Compare a parsed mode against a six-byte constant.
fn mode_is(mode: &Vec<u8>, a: u8, b: u8, c: u8, d: u8, e: u8, f: u8) -> (r: bool)
    ensures
        r == (mode@ == seq![a, b, c, d, e, f]),
{
    let mut lit: Vec<u8> = Vec::new();
    lit.push(a);
    lit.push(b);
    lit.push(c);
    lit.push(d);
    lit.push(e);
    lit.push(f);
    assert(lit@ =~= seq![a, b, c, d, e, f]);
    bytes_eq(mode.as_slice(), lit.as_slice())
}

/// Materialize the object under `id` at `path`, executable form.
fn checkout_obj(
    idx: &ObjectIndex,
    id: &[u8],
    path: Vec<u8>,
    executable: bool,
    fuel: usize,
) -> (r: Result<Vec<CheckoutItem>, GitError>)
    requires
        idx.wf(),
    ensures
        match r {
            Ok(items) => spec_checkout_obj(idx@, id@, path@, executable, fuel as nat) == Ok::<
                Seq<CheckoutItemV>,
                GitError,
            >(checkout_views(items@)),
            Err(e) => spec_checkout_obj(idx@, id@, path@, executable, fuel as nat) == Err::<
                Seq<CheckoutItemV>,
                GitError,
            >(e),
        },
    decreases fuel, 0int,
{
    let (kind, data) = match idx.get(id) {
        None => {
            return Err(GitError::MissingBase);
        },
        Some(p) => (p.0, slice_to_vec(p.1.as_slice())),
    };
    if kind == ObjectKind::Blob {
        let item = CheckoutItem { path, is_dir: false, data, executable };
        let mut items: Vec<CheckoutItem> = Vec::new();
        items.push(item);
        assert(checkout_views(items@) =~= seq![items@[0]@]);
        Ok(items)
    } else if kind == ObjectKind::Tree {
        if fuel == 0 {
            return Err(GitError::CorruptPack);
        }
        let entries = match parse_tree(data.as_slice()) {
            Err(e) => {
                return Err(e);
            },
            Ok(es) => es,
        };
        proof {
            assert(entry_views(entries@).skip(0) =~= entry_views(entries@));
        }
        let rest = match checkout_entries(idx, &entries, 0, path.as_slice(), fuel - 1) {
            Err(e) => {
                return Err(e);
            },
            Ok(items) => items,
        };
        let ghost restv = checkout_views(rest@);
        let dir = CheckoutItem { path, is_dir: true, data: Vec::new(), executable: false };
        let mut items: Vec<CheckoutItem> = Vec::new();
        items.push(dir);
        let ghost dirv = items@[0]@;
        let mut rest_mut = rest;
        items.append(&mut rest_mut);
        proof {
            assert(checkout_views(items@) =~= seq![dirv] + restv);
        }
        Ok(items)
    } else {
        Err(GitError::UnsupportedKind)
    }
}

/// Materialize the entries of one directory, from position `k` on,
/// executable form.
fn checkout_entries(
    idx: &ObjectIndex,
    entries: &Vec<TreeEntry>,
    k: usize,
    prefix: &[u8],
    fuel: usize,
) -> (r: Result<Vec<CheckoutItem>, GitError>)
    requires
        idx.wf(),
        k <= entries@.len(),
    ensures
        match r {
            Ok(items) => spec_checkout_entries(
                idx@,
                entry_views(entries@).skip(k as int),
                prefix@,
                fuel as nat,
            ) == Ok::<Seq<CheckoutItemV>, GitError>(checkout_views(items@)),
            Err(e) => spec_checkout_entries(
                idx@,
                entry_views(entries@).skip(k as int),
                prefix@,
                fuel as nat,
            ) == Err::<Seq<CheckoutItemV>, GitError>(e),
        },
    decreases fuel, entries@.len() - k + 1,
{
    let ghost evs = entry_views(entries@).skip(k as int);
    if k == entries.len() {
        assert(evs.len() == 0);
        let items: Vec<CheckoutItem> = Vec::new();
        assert(checkout_views(items@) =~= Seq::<CheckoutItemV>::empty());
        return Ok(items);
    }
    assert(evs[0] == entries@[k as int]@);
    let e = &entries[k];
    if mode_is(&e.mode, 49, 50, 48, 48, 48, 48) || mode_is(&e.mode, 49, 54, 48, 48, 48, 48) {
        return Err(GitError::UnsupportedKind);
    }
    let executable = mode_is(&e.mode, 49, 48, 48, 55, 53, 53);
    let mut path = slice_to_vec(prefix);
    if path.len() != 0 {
        path.push(47);
    }
    path.extend_from_slice(e.name.as_slice());
    assert(path@ =~= child_path(prefix@, e.name@));
    let mut first = match checkout_obj(idx, e.id.as_slice(), path, executable, fuel) {
        Err(err) => {
            return Err(err);
        },
        Ok(items) => items,
    };
    let ghost firstv = checkout_views(first@);
    let mut rest = match checkout_entries(idx, entries, k + 1, prefix, fuel) {
        Err(err) => {
            proof {
                assert(entry_views(entries@).skip(k + 1) =~= evs.drop_first());
            }
            return Err(err);
        },
        Ok(items) => items,
    };
    let ghost restv = checkout_views(rest@);
    first.append(&mut rest);
    proof {
        assert(entry_views(entries@).skip(k + 1) =~= evs.drop_first());
        assert(checkout_views(first@) =~= firstv + restv);
    }
    Ok(first)
}

/// What planning a whole checkout from a head commit yields: the plans of
/// the root tree's entries, in order. The root object must be a tree.
pub open spec fn spec_checkout_plan(m: ObjectMap, head: Seq<u8>, fuel: nat) -> Result<
    Seq<CheckoutItemV>,
    GitError,
> {
    match spec_tree_from_commit(m, head) {
        Err(e) => Err(e),
        Ok(tree_hex) => if tree_hex.len() != 40 || !crate::hexid::all_hex(tree_hex) {
            Err(GitError::MalformedObjectHeader)
        } else {
            let root = crate::hexid::spec_hex_decode(tree_hex);
            if !m.dom().contains(root) {
                Err(GitError::MissingBase)
            } else if m[root].0 != ObjectKind::Tree {
                Err(GitError::UnsupportedKind)
            } else {
                match spec_parse_tree(m[root].1, 0) {
                    Err(e) => Err(e),
                    Ok(entries) => spec_checkout_entries(m, entries, Seq::empty(), fuel),
                }
            }
        },
    }
}

/// Plan the materialization of the working tree of the commit stored
/// under the given forty-character head identity: every directory to
/// create and file to write, in an order that creates parents first. The
/// walk carries fuel bounded by the store's size, which a well-formed
/// store cannot exhaust.
pub fn checkout_plan(idx: &ObjectIndex, head: &[u8]) -> (r: Result<Vec<CheckoutItem>, GitError>)
    requires
        idx.wf(),
    ensures
        match r {
            Ok(items) => spec_checkout_plan(idx@, head@, idx.entries@.len() as nat) == Ok::<
                Seq<CheckoutItemV>,
                GitError,
            >(checkout_views(items@)),
            Err(e) => spec_checkout_plan(idx@, head@, idx.entries@.len() as nat) == Err::<
                Seq<CheckoutItemV>,
                GitError,
            >(e),
        },
{
    let tree_hex = match tree_from_commit(idx, head) {
        Err(e) => {
            return Err(e);
        },
        Ok(t) => t,
    };
    if tree_hex.len() != 40 {
        return Err(GitError::MalformedObjectHeader);
    }
    let root = match hex_decode(tree_hex.as_slice()) {
        None => {
            return Err(GitError::MalformedObjectHeader);
        },
        Some(v) => v,
    };
    let data = match idx.get(root.as_slice()) {
        None => {
            return Err(GitError::MissingBase);
        },
        Some(p) => {
            if !matches!(p.0, ObjectKind::Tree) {
                return Err(GitError::UnsupportedKind);
            }
            slice_to_vec(p.1.as_slice())
        },
    };
    let entries = match parse_tree(data.as_slice()) {
        Err(e) => {
            return Err(e);
        },
        Ok(es) => es,
    };
    let fuel = idx.len();
    let empty_prefix: Vec<u8> = Vec::new();
    let r = checkout_entries(idx, &entries, 0, empty_prefix.as_slice(), fuel);
    proof {
        assert(entry_views(entries@).skip(0) =~= entry_views(entries@));
    }
    r
}

} // verus!
