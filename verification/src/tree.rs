//! Tree objects: parsing the entry listing of a stored tree, the canonical
//! serialization of a directory listing (the tree builder), and the listing
//! format of the local inspection commands.
use vstd::prelude::*;
use crate::GitError;
use crate::codec::{kind_name, kind_name_bytes, ObjectKind};
use crate::hexid::{hex_encode, spec_hex_encode};
use crate::util::{find_byte, find_byte_from, subrange_to_vec};

verus! {

/// One parsed tree entry: octal mode bytes, name bytes, raw identity.
pub struct TreeEntry {
    pub mode: Vec<u8>,
    pub name: Vec<u8>,
    pub id: Vec<u8>,
}

/// The mathematical form of a tree entry.
pub ghost struct TreeEntryV {
    pub mode: Seq<u8>,
    pub name: Seq<u8>,
    pub id: Seq<u8>,
}

impl View for TreeEntry {
    type V = TreeEntryV;

    open spec fn view(&self) -> TreeEntryV {
        TreeEntryV { mode: self.mode@, name: self.name@, id: self.id@ }
    }
}

/// The views of a parsed entry vector.
pub open spec fn entry_views(s: Seq<TreeEntry>) -> Seq<TreeEntryV> {
    s.map_values(|e: TreeEntry| e@)
}

/// Every entry's identity is raw: twenty bytes.
pub open spec fn ids_are_raw(s: Seq<TreeEntry>) -> bool {
    forall|j: int| 0 <= j < s.len() ==> (#[trigger] s[j].id@).len() == 20
}

/// What parsing a tree payload from `pos` yields: entries of the form mode,
/// space, name, NUL, twenty raw identity bytes, ending exactly at the end.
pub open spec fn spec_parse_tree(s: Seq<u8>, pos: int) -> Result<Seq<TreeEntryV>, GitError>
    decreases s.len() - pos,
{
    if pos == s.len() {
        Ok(Seq::empty())
    } else if pos < 0 || pos > s.len() {
        Err(GitError::MalformedObjectHeader)
    } else {
        let sp = find_byte(s, 32, pos);
        if sp < pos {
            Err(GitError::MalformedObjectHeader)
        } else {
            let nul = find_byte(s, 0, sp + 1);
            if nul < sp + 1 {
                Err(GitError::MalformedObjectHeader)
            } else if nul + 21 > s.len() {
                Err(GitError::MalformedObjectHeader)
            } else {
                let e = TreeEntryV {
                    mode: s.subrange(pos, sp),
                    name: s.subrange(sp + 1, nul),
                    id: s.subrange(nul + 1, nul + 21),
                };
                match spec_parse_tree(s, nul + 21) {
                    Err(err) => Err(err),
                    Ok(rest) => Ok(seq![e] + rest),
                }
            }
        }
    }
}

/// The parse of a whole payload, as the entries taken so far and the parse
/// of what is left.
pub open spec fn parse_compose(acc: Seq<TreeEntryV>, r: Result<Seq<TreeEntryV>, GitError>)
    -> Result<Seq<TreeEntryV>, GitError> {
    match r {
        Ok(v) => Ok(acc + v),
        Err(e) => Err(e),
    }
}

/// Parse a tree payload into its entries.
pub fn parse_tree(s: &[u8]) -> (r: Result<Vec<TreeEntry>, GitError>)
    ensures
        match r {
            Ok(es) => spec_parse_tree(s@, 0) == Ok::<Seq<TreeEntryV>, GitError>(
                entry_views(es@),
            ) && ids_are_raw(es@),
            Err(e) => spec_parse_tree(s@, 0) == Err::<Seq<TreeEntryV>, GitError>(e),
        },
{
    let mut out: Vec<TreeEntry> = Vec::new();
    let mut pos: usize = 0;
    while pos < s.len()
        invariant
            pos <= s@.len(),
            ids_are_raw(out@),
            spec_parse_tree(s@, 0) == parse_compose(
                entry_views(out@),
                spec_parse_tree(s@, pos as int),
            ),
        decreases s@.len() - pos,
    {
        let ghost pre = out@;
        let sp = match find_byte_from(s, 32, pos) {
            None => {
                return Err(GitError::MalformedObjectHeader);
            },
            Some(j) => j,
        };
        let nul = match find_byte_from(s, 0, sp + 1) {
            None => {
                return Err(GitError::MalformedObjectHeader);
            },
            Some(j) => j,
        };
        if s.len() - nul < 21 {
            return Err(GitError::MalformedObjectHeader);
        }
        let e = TreeEntry {
            mode: subrange_to_vec(s, pos, sp),
            name: subrange_to_vec(s, sp + 1, nul),
            id: subrange_to_vec(s, nul + 1, nul + 21),
        };
        out.push(e);
        proof {
            assert forall|j: int| 0 <= j < out@.len() implies (#[trigger] out@[j].id@).len()
                == 20 by {
                if j < pre.len() {
                    assert(out@[j] == pre[j]);
                    assert(pre[j].id@.len() == 20);
                } else {
                    assert(out@[j] == out@.last());
                }
            }
            assert(entry_views(out@) =~= entry_views(pre) + seq![out@.last()@]);
            let rest = spec_parse_tree(s@, nul + 21);
            if rest is Ok {
                let v = rest->Ok_0;
                assert(spec_parse_tree(s@, pos as int) == Ok::<Seq<TreeEntryV>, GitError>(
                    seq![out@.last()@] + v,
                ));
                assert(entry_views(pre) + (seq![out@.last()@] + v) =~= entry_views(out@) + v);
            }
        }
        pos = nul + 21;
    }
    assert(spec_parse_tree(s@, pos as int) == Ok::<Seq<TreeEntryV>, GitError>(Seq::empty()));
    assert(entry_views(out@) + Seq::<TreeEntryV>::empty() =~= entry_views(out@));
    Ok(out)
}

/// The kind of a directory child handed to the tree builder.
#[derive(Clone, Copy, Debug, PartialEq, Eq, Structural)]
pub enum TreeItemKind {
    Dir,
    File,
    Exec,
    Symlink,
}

/// One directory child for the tree builder: its name, what it is, and the
/// identity of the object already stored for it.
pub struct TreeItem {
    pub name: Vec<u8>,
    pub kind: TreeItemKind,
    pub id: Vec<u8>,
}

/// The mathematical form of a builder item.
pub ghost struct TreeItemV {
    pub name: Seq<u8>,
    pub kind: TreeItemKind,
    pub id: Seq<u8>,
}

impl View for TreeItem {
    type V = TreeItemV;

    open spec fn view(&self) -> TreeItemV {
        TreeItemV { name: self.name@, kind: self.kind, id: self.id@ }
    }
}

pub open spec fn item_views(s: Seq<TreeItem>) -> Seq<TreeItemV> {
    s.map_values(|e: TreeItem| e@)
}

/// The octal mode written for each kind: no leading zero.
pub open spec fn mode_bytes(k: TreeItemKind) -> Seq<u8> {
    match k {
        TreeItemKind::Dir => seq![52u8, 48u8, 48u8, 48u8, 48u8],
        TreeItemKind::File => seq![49u8, 48u8, 48u8, 54u8, 52u8, 52u8],
        TreeItemKind::Exec => seq![49u8, 48u8, 48u8, 55u8, 53u8, 53u8],
        TreeItemKind::Symlink => seq![49u8, 50u8, 48u8, 48u8, 48u8, 48u8],
    }
}

/// The sort key of an item: its name, with a trailing slash for a
/// directory, so that directories and files of one prefix order as the
/// on-disk format demands.
pub open spec fn item_key(e: TreeItemV) -> Seq<u8> {
    if e.kind == TreeItemKind::Dir {
        e.name + seq![47u8]
    } else {
        e.name
    }
}

/// A tie-break rank for the kinds.
pub open spec fn kind_rank(k: TreeItemKind) -> int {
    match k {
        TreeItemKind::Dir => 0,
        TreeItemKind::File => 1,
        TreeItemKind::Exec => 2,
        TreeItemKind::Symlink => 3,
    }
}

/// Byte-wise lexicographic order on byte strings, with the prefix first.
pub open spec fn lex_leq(a: Seq<u8>, b: Seq<u8>) -> bool
    decreases a.len(),
{
    if a.len() == 0 {
        true
    } else if b.len() == 0 {
        false
    } else if a[0] < b[0] {
        true
    } else if a[0] > b[0] {
        false
    } else {
        lex_leq(a.drop_first(), b.drop_first())
    }
}

pub proof fn lemma_lex_leq_connected(a: Seq<u8>, b: Seq<u8>)
    ensures
        lex_leq(a, b) || lex_leq(b, a),
    decreases a.len(),
{
    if a.len() > 0 && b.len() > 0 && a[0] == b[0] {
        lemma_lex_leq_connected(a.drop_first(), b.drop_first());
    }
}

pub proof fn lemma_lex_leq_antisymmetric(a: Seq<u8>, b: Seq<u8>)
    requires
        lex_leq(a, b),
        lex_leq(b, a),
    ensures
        a == b,
    decreases a.len(),
{
    if a.len() == 0 {
        assert(b.len() == 0);
        assert(a =~= b);
    } else {
        assert(b.len() > 0);
        assert(a[0] == b[0]);
        lemma_lex_leq_antisymmetric(a.drop_first(), b.drop_first());
        assert(a =~= seq![a[0]] + a.drop_first());
        assert(b =~= seq![b[0]] + b.drop_first());
    }
}

pub proof fn lemma_lex_leq_transitive(a: Seq<u8>, b: Seq<u8>, c: Seq<u8>)
    requires
        lex_leq(a, b),
        lex_leq(b, c),
    ensures
        lex_leq(a, c),
    decreases a.len(),
{
    if a.len() > 0 && b.len() > 0 && c.len() > 0 && a[0] == b[0] && b[0] == c[0] {
        lemma_lex_leq_transitive(a.drop_first(), b.drop_first(), c.drop_first());
    }
}

/// The order the tree builder sorts by: the key, then the kind, then the
/// identity. Distinct fields always order one way or the other, so the
/// order is total.
pub open spec fn item_leq(x: TreeItemV, y: TreeItemV) -> bool {
    if item_key(x) != item_key(y) {
        lex_leq(item_key(x), item_key(y))
    } else if x.kind != y.kind {
        kind_rank(x.kind) < kind_rank(y.kind)
    } else {
        lex_leq(x.id, y.id)
    }
}

/// The order as a relation value, for the sorting lemmas.
pub open spec fn item_order() -> spec_fn(TreeItemV, TreeItemV) -> bool {
    |x: TreeItemV, y: TreeItemV| item_leq(x, y)
}

/// The key and the kind of an item determine its name.
proof fn lemma_key_kind_name(x: TreeItemV, y: TreeItemV)
    requires
        item_key(x) == item_key(y),
        x.kind == y.kind,
    ensures
        x.name == y.name,
{
    if x.kind == TreeItemKind::Dir {
        assert(x.name =~= item_key(x).drop_last());
        assert(y.name =~= item_key(y).drop_last());
    }
}

/// The builder's order is a total ordering.
pub proof fn lemma_item_order_total()
    ensures
        vstd::relations::total_ordering(item_order()),
{
    let r = item_order();
    assert forall|x: TreeItemV| #[trigger] r(x, x) by {
        lemma_lex_leq_connected(x.id, x.id);
    }
    assert forall|x: TreeItemV, y: TreeItemV| #[trigger] r(x, y) && #[trigger] r(y, x)
        implies x == y by {
        if item_key(x) != item_key(y) {
            lemma_lex_leq_antisymmetric(item_key(x), item_key(y));
        } else if x.kind != y.kind {
        } else {
            lemma_lex_leq_antisymmetric(x.id, y.id);
            lemma_key_kind_name(x, y);
        }
    }
    assert forall|x: TreeItemV, y: TreeItemV, z: TreeItemV|
        #[trigger] r(x, y) && #[trigger] r(y, z) implies r(x, z) by {
        lemma_item_leq_transitive(x, y, z);
    }
    assert forall|x: TreeItemV, y: TreeItemV| #[trigger] r(x, y) || #[trigger] r(y, x) by {
        if item_key(x) != item_key(y) {
            lemma_lex_leq_connected(item_key(x), item_key(y));
        } else if x.kind == y.kind {
            lemma_lex_leq_connected(x.id, y.id);
        }
    }
}

/// Lexicographic order on byte strings, executable form.
pub fn lex_leq_bytes(a: &[u8], b: &[u8]) -> (r: bool)
    ensures
        r == lex_leq(a@, b@),
{
    let mut i: usize = 0;
    while i < a.len() && i < b.len()
        invariant
            i <= a@.len(),
            i <= b@.len(),
            forall|j: int| 0 <= j < i ==> a@[j] == b@[j],
        decreases a@.len() - i,
    {
        if a[i] < b[i] {
            proof {
                lemma_lex_common_prefix(a@, b@, i as int);
            }
            return true;
        }
        if a[i] > b[i] {
            proof {
                lemma_lex_common_prefix(a@, b@, i as int);
            }
            return false;
        }
        i += 1;
    }
    proof {
        lemma_lex_common_prefix(a@, b@, i as int);
    }
    a.len() <= b.len()
}

/// Equal leading bytes do not decide the order: it is settled behind them.
proof fn lemma_lex_common_prefix(a: Seq<u8>, b: Seq<u8>, i: int)
    requires
        0 <= i <= a.len(),
        i <= b.len(),
        forall|j: int| 0 <= j < i ==> a[j] == b[j],
    ensures
        lex_leq(a, b) == lex_leq(a.skip(i), b.skip(i)),
    decreases i,
{
    if i > 0 {
        assert(a.len() > 0 && b.len() > 0 && a[0] == b[0]);
        assert(lex_leq(a, b) == lex_leq(a.drop_first(), b.drop_first()));
        let a1 = a.drop_first();
        let b1 = b.drop_first();
        assert(forall|j: int| 0 <= j < i - 1 ==> a1[j] == b1[j]);
        lemma_lex_common_prefix(a1, b1, i - 1);
        assert(a1.skip(i - 1) =~= a.skip(i));
        assert(b1.skip(i - 1) =~= b.skip(i));
    } else {
        assert(a.skip(0) =~= a);
        assert(b.skip(0) =~= b);
    }
}

/// The sort key of an item, executable form.
pub fn item_key_bytes(e: &TreeItem) -> (r: Vec<u8>)
    ensures
        r@ == item_key(e@),
{
    let mut v = crate::util::slice_to_vec(e.name.as_slice());
    match e.kind {
        TreeItemKind::Dir => {
            v.push(47);
            assert(v@ =~= e.name@ + seq![47u8]);
        },
        _ => {},
    }
    v
}

/// The builder's order, executable form.
pub fn item_le(x: &TreeItem, y: &TreeItem) -> (r: bool)
    ensures
        r == item_leq(x@, y@),
{
    let kx = item_key_bytes(x);
    let ky = item_key_bytes(y);
    if !crate::util::bytes_eq(kx.as_slice(), ky.as_slice()) {
        lex_leq_bytes(kx.as_slice(), ky.as_slice())
    } else {
        let rx: u8 = match x.kind {
            TreeItemKind::Dir => 0,
            TreeItemKind::File => 1,
            TreeItemKind::Exec => 2,
            TreeItemKind::Symlink => 3,
        };
        let ry: u8 = match y.kind {
            TreeItemKind::Dir => 0,
            TreeItemKind::File => 1,
            TreeItemKind::Exec => 2,
            TreeItemKind::Symlink => 3,
        };
        if rx != ry {
            rx < ry
        } else {
            assert(x@.kind == y@.kind);
            lex_leq_bytes(x.id.as_slice(), y.id.as_slice())
        }
    }
}

proof fn lemma_item_leq_transitive(x: TreeItemV, y: TreeItemV, z: TreeItemV)
    requires
        item_leq(x, y),
        item_leq(y, z),
    ensures
        item_leq(x, z),
{
    let kx = item_key(x);
    let ky = item_key(y);
    let kz = item_key(z);
    if kx != ky && ky != kz {
        lemma_lex_leq_transitive(kx, ky, kz);
        if kx == kz {
            lemma_lex_leq_antisymmetric(kx, ky);
        }
    } else if kx != ky && ky == kz {
        assert(lex_leq(kx, kz));
    } else if kx == ky && ky != kz {
        assert(lex_leq(kx, kz));
    } else {
        if x.kind != y.kind || y.kind != z.kind {
        } else {
            lemma_lex_leq_transitive(x.id, y.id, z.id);
        }
    }
}

/// Inserting anywhere adds exactly one occurrence to the multiset.
proof fn lemma_insert_multiset(s: Seq<TreeItemV>, p: int, x: TreeItemV)
    requires
        0 <= p <= s.len(),
    ensures
        s.insert(p, x).to_multiset() == s.to_multiset().insert(x),
{
    broadcast use vstd::seq_lib::group_to_multiset_ensures;

    let a = s.subrange(0, p);
    let b = s.subrange(p, s.len() as int);
    assert(s.insert(p, x) == a.push(x) + b);
    vstd::seq_lib::lemma_multiset_commutative(a.push(x), b);
    assert(a.push(x).to_multiset() =~= a.to_multiset().insert(x));
    assert(s =~= a + b);
    vstd::seq_lib::lemma_multiset_commutative(a, b);
    assert(s.insert(p, x).to_multiset() =~= s.to_multiset().insert(x));
}

/// Insert an item into a vector kept sorted by the builder's order.
fn sorted_insert(v: &mut Vec<TreeItem>, x: TreeItem)
    requires
        vstd::relations::sorted_by(item_views(old(v)@), item_order()),
    ensures
        vstd::relations::sorted_by(item_views(final(v)@), item_order()),
        item_views(final(v)@).to_multiset() == item_views(old(v)@).to_multiset().insert(x@),
{
    proof {
        lemma_item_order_total();
    }
    let ghost pre = item_views(v@);
    let mut p: usize = 0;
    while p < v.len() && !item_le(&x, &v[p])
        invariant
            p <= v@.len(),
            v@ == old(v)@,
            forall|q: int| 0 <= q < p ==> !item_leq(x@, #[trigger] item_views(v@)[q]),
        decreases v@.len() - p,
    {
        p += 1;
    }
    let ghost pp = p as int;
    v.insert(p, x);
    proof {
        let news = item_views(v@);
        assert(v@ == old(v)@.insert(pp, x));
        old(v)@.insert_ensures(pp, x);
        assert forall|i: int| 0 <= i < news.len() implies news[i] == pre.insert(pp, x@)[i] by {
            pre.insert_ensures(pp, x@);
            if i < pp {
                assert(v@[i] == old(v)@[i]);
            } else if i == pp {
                assert(v@[i] == x);
            } else {
                assert(v@[i] == old(v)@[i - 1]);
                assert(pre.insert(pp, x@)[i] == pre[i - 1]);
            }
        }
        assert(news =~= pre.insert(pp, x@));
        lemma_insert_multiset(pre, pp, x@);
        // Everything before the insertion point stays at or under x, and x
        // at or under everything from the insertion point on.
        assert forall|q: int| 0 <= q < pp implies item_leq(#[trigger] pre[q], x@) by {
            assert(!item_leq(x@, pre[q]));
            assert(item_order()(pre[q], x@) || item_order()(x@, pre[q]));
        }
        assert forall|q: int| pp <= q < pre.len() implies item_leq(x@, #[trigger] pre[q]) by {
            if pp < pre.len() {
                assert(item_leq(x@, pre[pp]));
                if q > pp {
                    assert(item_order()(pre[pp], pre[q]));
                    lemma_item_leq_transitive(x@, pre[pp], pre[q]);
                }
            }
        }
        assert forall|i: int, j: int| 0 <= i < j < news.len() implies #[trigger] item_order()(
            news[i],
            news[j],
        ) by {
            pre.insert_ensures(pp, x@);
            if i < pp && j < pp {
                assert(item_order()(pre[i], pre[j]));
            } else if i < pp && j == pp {
                assert(item_leq(pre[i], x@));
            } else if i < pp && j > pp {
                assert(item_order()(pre[i], pre[j - 1]));
            } else if i == pp && j > pp {
                assert(item_leq(x@, pre[j - 1]));
            } else if i > pp && j > pp {
                assert(item_order()(pre[i - 1], pre[j - 1]));
            }
        }
    }
}

/// A field-for-field copy of an item.
fn copy_item(e: &TreeItem) -> (r: TreeItem)
    ensures
        r@ == e@,
{
    TreeItem {
        name: crate::util::slice_to_vec(e.name.as_slice()),
        kind: e.kind,
        id: crate::util::slice_to_vec(e.id.as_slice()),
    }
}

/// Sort directory children into the builder's order.
pub fn sort_items(items: &Vec<TreeItem>) -> (r: Vec<TreeItem>)
    ensures
        vstd::relations::sorted_by(item_views(r@), item_order()),
        item_views(r@).to_multiset() == item_views(items@).to_multiset(),
{
    broadcast use vstd::seq_lib::group_to_multiset_ensures;

    let mut out: Vec<TreeItem> = Vec::new();
    let mut i: usize = 0;
    while i < items.len()
        invariant
            i <= items@.len(),
            vstd::relations::sorted_by(item_views(out@), item_order()),
            item_views(out@).to_multiset() == item_views(items@).take(i as int).to_multiset(),
        decreases items@.len() - i,
    {
        let e = copy_item(&items[i]);
        let ghost ev = e@;
        sorted_insert(&mut out, e);
        proof {
            broadcast use vstd::seq_lib::group_to_multiset_ensures;

            assert(item_views(items@).take(i + 1) =~= item_views(items@).take(i as int).push(
                item_views(items@)[i as int],
            ));
            assert(item_views(items@)[i as int] == ev);
        }
        i += 1;
    }
    proof {
        assert(item_views(items@).take(items@.len() as int) =~= item_views(items@));
    }
    out
}

/// The serialized form of one tree entry.
pub open spec fn item_line(e: TreeItemV) -> Seq<u8> {
    mode_bytes(e.kind) + seq![32u8] + e.name + seq![0u8] + e.id
}

/// The serialized form of a listing, in the given order.
pub open spec fn spec_tree_bytes(es: Seq<TreeItemV>) -> Seq<u8>
    decreases es.len(),
{
    if es.len() == 0 {
        Seq::empty()
    } else {
        spec_tree_bytes(es.drop_last()) + item_line(es.last())
    }
}

/// The listing a directory serializes to: its children in the builder's
/// order.
pub open spec fn spec_sorted_items(es: Seq<TreeItemV>) -> Seq<TreeItemV> {
    es.sort_by(item_order())
}

/// The mode written for each kind, executable form.
pub fn mode_bytes_of(k: TreeItemKind) -> (r: Vec<u8>)
    ensures
        r@ == mode_bytes(k),
{
    let mut v: Vec<u8> = Vec::new();
    match k {
        TreeItemKind::Dir => {
            v.push(52);
            v.push(48);
            v.push(48);
            v.push(48);
            v.push(48);
        },
        TreeItemKind::File => {
            v.push(49);
            v.push(48);
            v.push(48);
            v.push(54);
            v.push(52);
            v.push(52);
        },
        TreeItemKind::Exec => {
            v.push(49);
            v.push(48);
            v.push(48);
            v.push(55);
            v.push(53);
            v.push(53);
        },
        TreeItemKind::Symlink => {
            v.push(49);
            v.push(50);
            v.push(48);
            v.push(48);
            v.push(48);
            v.push(48);
        },
    }
    assert(v@ =~= mode_bytes(k));
    v
}

/// Serialize a directory listing into canonical tree payload bytes: the
/// children sorted into the builder's order, each as mode, space, name,
/// NUL, raw identity.
pub fn build_tree_payload(items: &Vec<TreeItem>) -> (r: Vec<u8>)
    ensures
        r@ == spec_tree_bytes(spec_sorted_items(item_views(items@))),
{
    let sorted = sort_items(items);
    proof {
        lemma_item_order_total();
        item_views(items@).lemma_sort_by_ensures(item_order());
        vstd::seq_lib::lemma_sorted_unique(
            item_views(sorted@),
            spec_sorted_items(item_views(items@)),
            item_order(),
        );
    }
    let ghost views = item_views(sorted@);
    let mut out: Vec<u8> = Vec::new();
    let mut i: usize = 0;
    while i < sorted.len()
        invariant
            i <= sorted@.len(),
            views == item_views(sorted@),
            out@ == spec_tree_bytes(views.take(i as int)),
        decreases sorted@.len() - i,
    {
        let ghost pre = out@;
        let mut mode = mode_bytes_of(sorted[i].kind);
        out.append(&mut mode);
        out.push(32);
        out.extend_from_slice(sorted[i].name.as_slice());
        out.push(0);
        out.extend_from_slice(sorted[i].id.as_slice());
        proof {
            assert(views.take(i + 1).drop_last() =~= views.take(i as int));
            assert(views.take(i + 1).last() == views[i as int]);
            assert(out@ =~= pre + item_line(views[i as int]));
        }
        i += 1;
    }
    proof {
        assert(views.take(views.len() as int) =~= views);
    }
    out
}

/// Serialize a directory listing and return the payload with the identity
/// it hashes to as a tree object.
pub fn build_tree(items: &Vec<TreeItem>) -> (r: (Vec<u8>, Vec<u8>))
    ensures
        r.0@ == spec_tree_bytes(spec_sorted_items(item_views(items@))),
        r.1@ == crate::codec::id_of(ObjectKind::Tree, r.0@),
        r.1@.len() == 20,
{
    let payload = build_tree_payload(items);
    let id = crate::codec::object_id_of(ObjectKind::Tree, payload.as_slice());
    (payload, id)
}

/// A mode padded on the left with ASCII zeros to six characters.
pub open spec fn pad6(m: Seq<u8>) -> Seq<u8> {
    if m.len() >= 6 {
        m
    } else {
        Seq::new((6 - m.len()) as nat, |i: int| 48u8) + m
    }
}

/// One line of the listing of a tree entry whose target has the given
/// kind: padded mode, kind name, hex identity, a tab, the name; or the
/// name alone.
pub open spec fn ls_line(e: TreeEntryV, k: ObjectKind, name_only: bool) -> Seq<u8> {
    if name_only {
        e.name + seq![10u8]
    } else {
        pad6(e.mode) + seq![32u8] + kind_name(k) + seq![32u8] + spec_hex_encode(e.id) + seq![9u8]
            + e.name + seq![10u8]
    }
}

/// The listing of a parsed tree: one line per entry, each with the kind of
/// the object its identity names.
pub open spec fn spec_ls_lines(es: Seq<TreeEntryV>, ks: Seq<ObjectKind>, name_only: bool)
    -> Seq<u8>
    decreases es.len(),
{
    if es.len() == 0 {
        Seq::empty()
    } else {
        spec_ls_lines(es.drop_last(), ks.drop_last(), name_only) + ls_line(
            es.last(),
            ks[es.len() - 1],
            name_only,
        )
    }
}

/// Format the listing of a parsed tree, given the kind of each entry's
/// target as the caller read it from the store.
#[verifier::rlimit(100)]
#[verifier::spinoff_prover]
pub fn ls_tree_lines(entries: &Vec<TreeEntry>, kinds: &Vec<ObjectKind>, name_only: bool) -> (r:
    Vec<u8>)
    requires
        entries@.len() == kinds@.len(),
    ensures
        r@ == spec_ls_lines(entry_views(entries@), kinds@, name_only),
{
    let ghost evs = entry_views(entries@);
    let mut out: Vec<u8> = Vec::new();
    let mut i: usize = 0;
    while i < entries.len()
        invariant
            i <= entries@.len(),
            entries@.len() == kinds@.len(),
            evs == entry_views(entries@),
            out@ == spec_ls_lines(evs.take(i as int), kinds@.take(i as int), name_only),
        decreases entries@.len() - i,
    {
        let ghost pre = out@;
        let e = &entries[i];
        if name_only {
            out.extend_from_slice(e.name.as_slice());
            out.push(10);
        } else {
            let mut pad: usize = 0;
            if e.mode.len() < 6 {
                pad = 6 - e.mode.len();
            }
            let mut z: usize = 0;
            while z < pad
                invariant
                    z <= pad,
                    pad < 7,
                    out@ == pre + Seq::new(z as nat, |q: int| 48u8),
                decreases pad - z,
            {
                out.push(48);
                z += 1;
                assert(out@ =~= pre + Seq::new(z as nat, |q: int| 48u8));
            }
            assert(out@ =~= pre + pad6(e.mode@).take(pad as int));
            out.extend_from_slice(e.mode.as_slice());
            assert(out@ =~= pre + pad6(e.mode@));
            out.push(32);
            let mut kn = kind_name_bytes(kinds[i]);
            out.append(&mut kn);
            out.push(32);
            let mut hx = hex_encode(e.id.as_slice());
            out.append(&mut hx);
            out.push(9);
            out.extend_from_slice(e.name.as_slice());
            out.push(10);
        }
        proof {
            assert(evs.take(i + 1).drop_last() =~= evs.take(i as int));
            assert(kinds@.take(i + 1).drop_last() =~= kinds@.take(i as int));
            assert(evs.take(i + 1).last() == evs[i as int]);
            assert(evs[i as int] == entries@[i as int]@);
            assert(out@ =~= pre + ls_line(evs[i as int], kinds@[i as int], name_only));
        }
        i += 1;
    }
    proof {
        assert(evs.take(evs.len() as int) =~= evs);
        assert(kinds@.take(kinds@.len() as int) =~= kinds@);
    }
    out
}

/// Searching wholly inside the tail of a concatenation is searching the
/// tail.
proof fn lemma_find_byte_shift(u: Seq<u8>, t: Seq<u8>, b: u8, from: int)
    requires
        0 <= from,
    ensures
        find_byte(u + t, b, u.len() + from) == (if find_byte(t, b, from) < 0 {
            -1int
        } else {
            u.len() + find_byte(t, b, from)
        }),
    decreases t.len() - from,
{
    let s = u + t;
    if from >= t.len() {
    } else {
        assert(s[u.len() + from] == t[from]);
        if t[from] != b {
            lemma_find_byte_shift(u, t, b, from + 1);
        }
    }
}

/// Parsing wholly inside the tail of a concatenation is parsing the tail.
proof fn lemma_parse_tree_shift(u: Seq<u8>, t: Seq<u8>, pos: int)
    requires
        0 <= pos,
    ensures
        spec_parse_tree(u + t, u.len() + pos) == spec_parse_tree(t, pos),
    decreases t.len() - pos,
{
    let s = u + t;
    if pos > t.len() {
    } else if pos == t.len() {
    } else {
        lemma_find_byte_shift(u, t, 32, pos);
        let sp = find_byte(t, 32, pos);
        if sp >= pos {
            lemma_find_byte_shift(u, t, 0, sp + 1);
            let nul = find_byte(t, 0, sp + 1);
            if nul >= sp + 1 && nul + 21 <= t.len() {
                assert(s.subrange(u.len() + pos, u.len() + sp) =~= t.subrange(pos, sp));
                assert(s.subrange(u.len() + sp + 1, u.len() + nul) =~= t.subrange(sp + 1, nul));
                assert(s.subrange(u.len() + nul + 1, u.len() + nul + 21) =~= t.subrange(
                    nul + 1,
                    nul + 21,
                ));
                lemma_parse_tree_shift(u, t, nul + 21);
            }
        }
    }
}

/// The serialization, unfolded from the front.
proof fn lemma_tree_bytes_cons(es: Seq<TreeItemV>)
    requires
        es.len() > 0,
    ensures
        spec_tree_bytes(es) == item_line(es[0]) + spec_tree_bytes(es.drop_first()),
    decreases es.len(),
{
    if es.len() == 1 {
        assert(es.drop_last() =~= Seq::<TreeItemV>::empty());
        assert(es.drop_first() =~= Seq::<TreeItemV>::empty());
        assert(Seq::<u8>::empty() + item_line(es[0]) =~= item_line(es[0]));
        assert(item_line(es[0]) + Seq::<u8>::empty() =~= item_line(es[0]));
    } else {
        let d = es.drop_last();
        lemma_tree_bytes_cons(d);
        assert(d[0] == es[0]);
        assert(d.drop_first() =~= es.drop_first().drop_last());
        assert(es.drop_first().last() == es.last());
        assert((item_line(es[0]) + spec_tree_bytes(es.drop_first().drop_last())) + item_line(
            es.last(),
        ) =~= item_line(es[0]) + (spec_tree_bytes(es.drop_first().drop_last()) + item_line(
            es.drop_first().last(),
        )));
    }
}

/// The entry a built item reads back as.
pub open spec fn built_entry(e: TreeItemV) -> TreeEntryV {
    TreeEntryV { mode: mode_bytes(e.kind), name: e.name, id: e.id }
}

proof fn lemma_mode_bytes_facts(k: TreeItemKind)
    ensures
        1 <= mode_bytes(k).len() <= 6,
        forall|j: int| 0 <= j < mode_bytes(k).len() ==> mode_bytes(k)[j] != 32
            && mode_bytes(k)[j] != 0,
{
    let m = mode_bytes(k);
    match k {
        TreeItemKind::Dir => {
            assert(forall|j: int| 0 <= j < m.len() ==> m[j] != 32 && m[j] != 0);
        },
        TreeItemKind::File => {
            assert(forall|j: int| 0 <= j < m.len() ==> m[j] != 32 && m[j] != 0);
        },
        TreeItemKind::Exec => {
            assert(forall|j: int| 0 <= j < m.len() ==> m[j] != 32 && m[j] != 0);
        },
        TreeItemKind::Symlink => {
            assert(forall|j: int| 0 <= j < m.len() ==> m[j] != 32 && m[j] != 0);
        },
    }
}

/// What the tree builder serializes, the tree parser reads back entry for
/// entry: a stored tree re-canonicalizes to byte-identical bytes. Names
/// must be free of NUL and identities raw, as directory listings are.
pub proof fn lemma_tree_bytes_parse(es: Seq<TreeItemV>)
    requires
        forall|j: int| 0 <= j < es.len() ==> (#[trigger] es[j].id).len() == 20,
        forall|j: int, l: int| 0 <= j < es.len() && 0 <= l < es[j].name.len()
            ==> #[trigger] es[j].name[l] != 0,
    ensures
        spec_parse_tree(spec_tree_bytes(es), 0) == Ok::<Seq<TreeEntryV>, GitError>(
            es.map_values(|e: TreeItemV| built_entry(e)),
        ),
    decreases es.len(),
{
    let s = spec_tree_bytes(es);
    if es.len() == 0 {
        assert(es.map_values(|e: TreeItemV| built_entry(e)) =~= Seq::<TreeEntryV>::empty());
    } else {
        let e = es[0];
        let line = item_line(e);
        let rest = spec_tree_bytes(es.drop_first());
        lemma_tree_bytes_cons(es);
        lemma_mode_bytes_facts(e.kind);
        let m = mode_bytes(e.kind);
        let ml = m.len() as int;
        let nl = e.name.len() as int;
        assert(line.len() == ml + 1 + nl + 1 + 20);
        assert(forall|j: int| 0 <= j < ml ==> line[j] == m[j]);
        assert(line[ml] == 32);
        assert(forall|j: int| 0 <= j < nl ==> line[ml + 1 + j] == e.name[j]);
        assert(line[ml + 1 + nl] == 0);
        assert(forall|j: int| 0 <= j < 20 ==> line[ml + 1 + nl + 1 + j] == e.id[j]);
        assert(forall|j: int| 0 <= j < line.len() ==> s[j] == line[j]);
        assert(s.len() == line.len() + rest.len());
        // The first space ends the mode, the first NUL after it the name.
        assert(forall|j: int| 0 <= j < ml ==> s[j] != 32);
        crate::util::lemma_find_byte_exact(s, 32, 0, ml);
        assert(forall|j: int| ml + 1 <= j < ml + 1 + nl ==> s[j] == e.name[j - ml - 1] && s[j]
            != 0);
        crate::util::lemma_find_byte_exact(s, 0, ml + 1, ml + 1 + nl);
        assert(ml + 1 + nl + 21 <= s.len());
        assert(s.subrange(0, ml) =~= m);
        assert(s.subrange(ml + 1, ml + 1 + nl) =~= e.name);
        assert(s.subrange(ml + 1 + nl + 1, ml + 1 + nl + 21) =~= e.id);
        // Behind the first entry stands the serialization of the rest.
        assert(forall|j: int, l: int| 0 <= j < es.drop_first().len() && 0 <= l
            < es.drop_first()[j].name.len() ==> #[trigger] es.drop_first()[j].name[l] != 0);
        lemma_tree_bytes_parse(es.drop_first());
        assert(s =~= line + rest);
        lemma_parse_tree_shift(line, rest, 0);
        assert(spec_parse_tree(s, ml + 1 + nl + 21) == spec_parse_tree(rest, 0));
        let parsed = TreeEntryV { mode: m, name: e.name, id: e.id };
        assert(parsed == built_entry(e));
        assert(seq![parsed] + es.drop_first().map_values(|x: TreeItemV| built_entry(x)) =~= es
            .map_values(|x: TreeItemV| built_entry(x)));
    }
}

/// Serializing the same directory twice gives identical tree bytes, in
/// whatever order its children were listed: listings with the same
/// children serialize identically, so the identity is identical too.
pub proof fn lemma_tree_build_deterministic(e1: Seq<TreeItemV>, e2: Seq<TreeItemV>)
    requires
        e1.to_multiset() == e2.to_multiset(),
    ensures
        spec_sorted_items(e1) == spec_sorted_items(e2),
        spec_tree_bytes(spec_sorted_items(e1)) == spec_tree_bytes(spec_sorted_items(e2)),
{
    lemma_item_order_total();
    e1.lemma_sort_by_ensures(item_order());
    e2.lemma_sort_by_ensures(item_order());
    vstd::seq_lib::lemma_sorted_unique(e1.sort_by(item_order()), e2.sort_by(item_order()),
        item_order());
}

} // verus!
