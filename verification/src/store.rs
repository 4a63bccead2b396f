//! The object store. In memory: a map from 20-byte identity to kind and
//! payload, filled while a pack is received so later deltas can find their
//! bases. On disk: each object's canonical bytes, zlib-compressed, at
//! `.git/objects/<xx>/<rest>` under its lowercase hex identity.
use vstd::prelude::*;
use crate::codec::{canonical, ObjectKind};
use crate::GitError;
use crate::hexid::{hex_encode, spec_hex_encode};
use crate::util::bytes_eq;
use crate::zlib::{deflate_of, zlib_compress};

verus! {

/// One stored object: its kind and full payload bytes. A delta entry is
/// reconstructed against the `content` of its base.
pub struct BaseRef {
    pub otype: ObjectKind,
    pub content: Vec<u8>,
}

impl BaseRef {
    /// Wrap payload bytes and their kind.
    pub fn new(content: &[u8], otype: ObjectKind) -> (r: BaseRef)
        ensures
            r.otype == otype,
            r.content@ == content@,
    {
        let mut v: Vec<u8> = Vec::new();
        v.extend_from_slice(content);
        assert(v@ =~= content@);
        BaseRef { otype, content: v }
    }
}

/// One identity with its object.
pub struct IndexEntry {
    pub id: Vec<u8>,
    pub obj: BaseRef,
}

/// The in-memory object index: identities are unique and twenty bytes long.
pub struct ObjectIndex {
    pub entries: Vec<IndexEntry>,
}

/// The mapping a sequence of entries denotes; later entries win.
pub open spec fn index_map(s: Seq<IndexEntry>) -> Map<Seq<u8>, (ObjectKind, Seq<u8>)>
    decreases s.len(),
{
    if s.len() == 0 {
        Map::empty()
    } else {
        index_map(s.drop_last()).insert(
            s.last().id@,
            (s.last().obj.otype, s.last().obj.content@),
        )
    }
}

/// Every key of the denoted map names some entry, and conversely.
pub proof fn lemma_index_map_keys(s: Seq<IndexEntry>)
    ensures
        forall|id: Seq<u8>| index_map(s).dom().contains(id)
            <==> exists|j: int| 0 <= j < s.len() && #[trigger] s[j].id@ == id,
    decreases s.len(),
{
    if s.len() > 0 {
        let t = s.drop_last();
        lemma_index_map_keys(t);
        assert forall|id: Seq<u8>| index_map(s).dom().contains(id)
            implies exists|j: int| 0 <= j < s.len() && #[trigger] s[j].id@ == id by {
            if id == s.last().id@ {
                assert(s[s.len() - 1].id@ == id);
            } else {
                assert(index_map(t).dom().contains(id));
                let j = choose|j: int| 0 <= j < t.len() && #[trigger] t[j].id@ == id;
                assert(t[j] == s[j]);
                assert(s[j].id@ == id);
            }
        }
        assert forall|id: Seq<u8>| (exists|j: int| 0 <= j < s.len() && #[trigger] s[j].id@ == id)
            implies index_map(s).dom().contains(id) by {
            let j = choose|j: int| 0 <= j < s.len() && #[trigger] s[j].id@ == id;
            if j < s.len() - 1 {
                assert(t[j] == s[j]);
                assert(t[j].id@ == id);
                assert(index_map(t).dom().contains(id));
            }
        }
    }
}

impl ObjectIndex {
    /// Identities are unique and raw (twenty bytes).
    pub open spec fn wf(&self) -> bool {
        &&& forall|j: int| 0 <= j < self.entries@.len()
            ==> (#[trigger] self.entries@[j].id@).len() == 20
        &&& forall|j: int, l: int| 0 <= j < l < self.entries@.len()
            ==> self.entries@[j].id@ != self.entries@[l].id@
    }

    /// The mapping held: identity to kind and payload.
    pub open spec fn view(&self) -> Map<Seq<u8>, (ObjectKind, Seq<u8>)> {
        index_map(self.entries@)
    }

    /// An empty index.
    pub fn new() -> (r: ObjectIndex)
        ensures
            r.wf(),
            r@ == Map::<Seq<u8>, (ObjectKind, Seq<u8>)>::empty(),
            r.entries@.len() == 0,
    {
        ObjectIndex { entries: Vec::new() }
    }

    /// Number of distinct objects held.
    pub fn len(&self) -> (r: usize)
        ensures
            r == self.entries@.len(),
    {
        self.entries.len()
    }

    /// Position of an identity among the entries, if present.
    fn position(&self, id: &[u8]) -> (r: Option<usize>)
        requires
            self.wf(),
        ensures
            match r {
                Some(j) => j < self.entries@.len() && self.entries@[j as int].id@ == id@,
                None => forall|j: int| 0 <= j < self.entries@.len()
                    ==> self.entries@[j].id@ != id@,
            },
    {
        let mut i: usize = 0;
        while i < self.entries.len()
            invariant
                i <= self.entries@.len(),
                forall|j: int| 0 <= j < i ==> self.entries@[j].id@ != id@,
            decreases self.entries@.len() - i,
        {
            if bytes_eq(self.entries[i].id.as_slice(), id) {
                return Some(i);
            }
            i += 1;
        }
        None
    }

    /// Whether an identity is held.
    pub fn has(&self, id: &[u8]) -> (r: bool)
        requires
            self.wf(),
        ensures
            r == self@.dom().contains(id@),
    {
        proof {
            lemma_index_map_keys(self.entries@);
        }
        match self.position(id) {
            Some(_) => true,
            None => false,
        }
    }

    /// The kind and payload under an identity, if held.
    pub fn get(&self, id: &[u8]) -> (r: Option<(ObjectKind, &Vec<u8>)>)
        requires
            self.wf(),
        ensures
            match r {
                Some(p) => self@.dom().contains(id@) && self@[id@] == (p.0, p.1@),
                None => !self@.dom().contains(id@),
            },
    {
        proof {
            lemma_index_map_keys(self.entries@);
        }
        match self.position(id) {
            None => None,
            Some(j) => {
                proof {
                    lemma_index_map_at(self.entries@, j as int);
                }
                Some((self.entries[j].obj.otype, &self.entries[j].obj.content))
            },
        }
    }

    /// Insert or overwrite an object under its identity.
    pub fn insert(&mut self, id: Vec<u8>, otype: ObjectKind, content: Vec<u8>)
        requires
            old(self).wf(),
            id@.len() == 20,
        ensures
            final(self).wf(),
            final(self)@ == old(self)@.insert(id@, (otype, content@)),
            old(self).entries@.len() <= final(self).entries@.len()
                <= old(self).entries@.len() + 1,
    {
        match self.position(id.as_slice()) {
            Some(j) => {
                let ghost pre = self.entries@;
                let entry = IndexEntry { id, obj: BaseRef { otype, content } };
                self.entries.set(j, entry);
                proof {
                    lemma_index_map_overwrite(pre, self.entries@, j as int);
                }
            },
            None => {
                let entry = IndexEntry { id, obj: BaseRef { otype, content } };
                self.entries.push(entry);
                proof {
                    assert(self.entries@.drop_last() =~= old(self).entries@);
                }
            },
        }
    }
}

/// At a well-formed position the denoted map agrees with the entry there.
pub proof fn lemma_index_map_at(s: Seq<IndexEntry>, j: int)
    requires
        0 <= j < s.len(),
        forall|a: int, b: int| 0 <= a < b < s.len() ==> s[a].id@ != s[b].id@,
    ensures
        index_map(s).dom().contains(s[j].id@),
        index_map(s)[s[j].id@] == (s[j].obj.otype, s[j].obj.content@),
    decreases s.len(),
{
    if j == s.len() - 1 {
    } else {
        lemma_index_map_at(s.drop_last(), j);
        assert(s.last().id@ != s[j].id@);
    }
}

/// Replacing the entry that held an identity denotes the overwritten map.
proof fn lemma_index_map_overwrite(pre: Seq<IndexEntry>, post: Seq<IndexEntry>, j: int)
    requires
        0 <= j < pre.len(),
        post.len() == pre.len(),
        forall|a: int, b: int| 0 <= a < b < pre.len() ==> pre[a].id@ != pre[b].id@,
        post[j].id@ == pre[j].id@,
        forall|a: int| 0 <= a < pre.len() && a != j ==> post[a] == pre[a],
    ensures
        index_map(post) == index_map(pre).insert(
            post[j].id@,
            (post[j].obj.otype, post[j].obj.content@),
        ),
    decreases pre.len(),
{
    let id = post[j].id@;
    let v = (post[j].obj.otype, post[j].obj.content@);
    if j == pre.len() - 1 {
        assert(post.drop_last() =~= pre.drop_last());
        assert(index_map(post) =~= index_map(pre).insert(id, v));
    } else {
        lemma_index_map_overwrite(pre.drop_last(), post.drop_last(), j);
        assert(post.last() == pre.last());
        assert(pre.last().id@ != id);
        assert(index_map(post) =~= index_map(pre).insert(id, v));
    }
}

/// The relative path of an object file under the repository root, from the
/// hex form of its identity: `.git/objects/` then the first two digits, a
/// slash, and the remaining thirty-eight.
pub open spec fn spec_object_path(hex: Seq<u8>) -> Seq<u8> {
    dot_git_objects() + seq![47u8] + hex.take(2) + seq![47u8] + hex.skip(2)
}

/// The ".git/objects" prefix.
pub open spec fn dot_git_objects() -> Seq<u8> {
    seq![46u8, 103u8, 105u8, 116u8, 47u8, 111u8, 98u8, 106u8, 101u8, 99u8, 116u8, 115u8]
}

/// Relative path of the object file for a hex identity.
pub fn object_path(hex: &[u8]) -> (r: Vec<u8>)
    requires
        hex@.len() >= 2,
    ensures
        r@ == spec_object_path(hex@),
{
    let mut v: Vec<u8> = Vec::new();
    // ".git/objects"
    v.push(46);
    v.push(103);
    v.push(105);
    v.push(116);
    v.push(47);
    v.push(111);
    v.push(98);
    v.push(106);
    v.push(101);
    v.push(99);
    v.push(116);
    v.push(115);
    v.push(47);
    v.push(hex[0]);
    v.push(hex[1]);
    v.push(47);
    let mut i: usize = 2;
    while i < hex.len()
        invariant
            2 <= i <= hex@.len(),
            v@ =~= dot_git_objects() + seq![47u8] + hex@.take(2) + seq![47u8]
                + hex@.subrange(2, i as int),
        decreases hex@.len() - i,
    {
        v.push(hex[i]);
        i += 1;
        assert(v@ =~= dot_git_objects() + seq![47u8] + hex@.take(2) + seq![47u8]
            + hex@.subrange(2, i as int));
    }
    assert(hex@.subrange(2, hex@.len() as int) =~= hex@.skip(2));
    v
}

/// The bytes an object file holds: the canonical form, zlib-compressed.
pub open spec fn spec_disk_bytes(k: ObjectKind, payload: Seq<u8>) -> Seq<u8> {
    deflate_of(canonical(k, payload))
}

/// One on-disk write: a relative path and the file contents.
pub struct DiskWrite {
    pub path: Vec<u8>,
    pub data: Vec<u8>,
}

/// What putting an object on disk writes: the object-file path for its hex
/// identity and the compressed canonical bytes.
pub fn put_disk_write(k: ObjectKind, payload: &[u8], id: &[u8]) -> (r: DiskWrite)
    requires
        id@.len() == 20,
    ensures
        r.path@ == spec_object_path(spec_hex_encode(id@)),
        r.data@ == spec_disk_bytes(k, payload@),
{
    let hex = hex_encode(id);
    let path = object_path(hex.as_slice());
    let canon = crate::codec::serialize_object(k, payload);
    let data = zlib_compress(canon.as_slice());
    DiskWrite { path, data }
}

/// Write `j` is the object file of entry `j`: the path for its hex
/// identity, the compressed canonical bytes.
pub open spec fn disk_entry_ok(ws: Seq<DiskWrite>, es: Seq<IndexEntry>, j: int) -> bool {
    ws[j].path@ == spec_object_path(spec_hex_encode(es[j].id@)) && ws[j].data@ == spec_disk_bytes(
        es[j].obj.otype,
        es[j].obj.content@,
    )
}

/// The first `n` writes correspond one-for-one to the first `n` entries.
pub open spec fn disk_match(ws: Seq<DiskWrite>, es: Seq<IndexEntry>, n: int) -> bool {
    forall|j: int| 0 <= j < n ==> #[trigger] disk_entry_ok(ws, es, j)
}

/// The on-disk writes that flush a whole index: one object file per entry,
/// in index order.
pub fn disk_entries(idx: &ObjectIndex) -> (r: Vec<DiskWrite>)
    requires
        idx.wf(),
    ensures
        r@.len() == idx.entries@.len(),
        disk_match(r@, idx.entries@, r@.len() as int),
{
    let mut out: Vec<DiskWrite> = Vec::new();
    let mut i: usize = 0;
    while i < idx.entries.len()
        invariant
            idx.wf(),
            i <= idx.entries@.len(),
            out@.len() == i,
            disk_match(out@, idx.entries@, i as int),
        decreases idx.entries@.len() - i,
    {
        let ghost pre = out@;
        let e = &idx.entries[i];
        let w = put_disk_write(e.obj.otype, e.obj.content.as_slice(), e.id.as_slice());
        out.push(w);
        i += 1;
        proof {
            assert forall|j: int| 0 <= j < i implies #[trigger] disk_entry_ok(
                out@,
                idx.entries@,
                j,
            ) by {
                if j < pre.len() {
                    assert(disk_entry_ok(pre, idx.entries@, j));
                    assert(out@[j] == pre[j]);
                } else {
                    assert(out@[j] == out@.last());
                    assert(out@.last() == w);
                    assert(idx.entries@[j] == e);
                }
            }
        }
    }
    out
}

/// Read a stored object file: decompress it and split the canonical bytes
/// into kind and payload. A broken stream reads as an unparsable object.
pub fn decode_object_file(file: &[u8]) -> (r: Result<(ObjectKind, Vec<u8>), GitError>)
    ensures
        match crate::zlib::inflate_of(file@) {
            None => r == Err::<(ObjectKind, Vec<u8>), GitError>(GitError::MalformedObjectHeader),
            Some(p) => match r {
                Ok(kp) => crate::codec::spec_parse_object(p.0) == Ok::<(ObjectKind, Seq<u8>),
                    GitError>((kp.0, kp.1@)),
                Err(e) => crate::codec::spec_parse_object(p.0) == Err::<(ObjectKind, Seq<u8>),
                    GitError>(e),
            },
        },
{
    let bytes = match crate::zlib::zlib_decompress(file) {
        None => {
            return Err(GitError::MalformedObjectHeader);
        },
        Some(p) => p.0,
    };
    crate::codec::parse_object(bytes.as_slice())
}

/// The contents of `.git/HEAD`: a symbolic reference to the main branch.
pub fn head_file_contents() -> (r: Vec<u8>)
    ensures
        // "ref: refs/heads/main\n"
        r@ == seq![
            114u8, 101u8, 102u8, 58u8, 32u8, 114u8, 101u8, 102u8, 115u8, 47u8, 104u8, 101u8,
            97u8, 100u8, 115u8, 47u8, 109u8, 97u8, 105u8, 110u8, 10u8,
        ],
{
    let mut v: Vec<u8> = Vec::new();
    v.push(114);
    v.push(101);
    v.push(102);
    v.push(58);
    v.push(32);
    v.push(114);
    v.push(101);
    v.push(102);
    v.push(115);
    v.push(47);
    v.push(104);
    v.push(101);
    v.push(97);
    v.push(100);
    v.push(115);
    v.push(47);
    v.push(109);
    v.push(97);
    v.push(105);
    v.push(110);
    v.push(10);
    assert(v@ =~= seq![
        114u8, 101u8, 102u8, 58u8, 32u8, 114u8, 101u8, 102u8, 115u8, 47u8, 104u8, 101u8, 97u8,
        100u8, 115u8, 47u8, 109u8, 97u8, 105u8, 110u8, 10u8,
    ]);
    v
}

/// The contents of `.git/refs/heads/main`: the hex head identity and a
/// newline.
pub fn ref_file_contents(head: &[u8]) -> (r: Vec<u8>)
    ensures
        r@ == head@ + seq![10u8],
{
    let mut v = crate::util::slice_to_vec(head);
    v.push(10);
    assert(v@ =~= head@ + seq![10u8]);
    v
}

/// Putting the same kind and payload twice produces identical on-disk bytes
/// at the identical path: the store is idempotent.
pub proof fn lemma_put_idempotent(
    k: ObjectKind,
    payload: Seq<u8>,
    first: (Seq<u8>, Seq<u8>),
    second: (Seq<u8>, Seq<u8>),
)
    requires
        first == (spec_object_path(spec_hex_encode(crate::codec::id_of(k, payload))),
            spec_disk_bytes(k, payload)),
        second == (spec_object_path(spec_hex_encode(crate::codec::id_of(k, payload))),
            spec_disk_bytes(k, payload)),
    ensures
        first == second,
{
}

} // verus!
