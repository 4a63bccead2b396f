//! Small byte-sequence helpers shared across the engine.
use vstd::prelude::*;

verus! {

/// Byte-wise equality of two slices.
pub fn bytes_eq(a: &[u8], b: &[u8]) -> (r: bool)
    ensures
        r == (a@ == b@),
{
    if a.len() != b.len() {
        assert(a@.len() != b@.len());
        return false;
    }
    let mut i: usize = 0;
    while i < a.len()
        invariant
            i <= a@.len(),
            a@.len() == b@.len(),
            forall|j: int| 0 <= j < i ==> a@[j] == b@[j],
        decreases a@.len() - i,
    {
        if a[i] != b[i] {
            return false;
        }
        i += 1;
    }
    assert(a@ =~= b@);
    true
}

/// Copy a slice into a fresh vector.
pub fn slice_to_vec(s: &[u8]) -> (r: Vec<u8>)
    ensures
        r@ == s@,
{
    let mut v: Vec<u8> = Vec::new();
    v.extend_from_slice(s);
    assert(v@ =~= s@);
    v
}

/// Index of the first occurrence of `b` in `s` at or after `from`, or -1.
pub open spec fn find_byte(s: Seq<u8>, b: u8, from: int) -> int
    decreases s.len() - from,
{
    if from < 0 || from >= s.len() {
        -1
    } else if s[from] == b {
        from
    } else {
        find_byte(s, b, from + 1)
    }
}

/// A found position pins the search result: nothing matches before it.
pub proof fn lemma_find_byte_exact(s: Seq<u8>, b: u8, from: int, at: int)
    requires
        0 <= from <= at < s.len(),
        s[at] == b,
        forall|j: int| from <= j < at ==> s[j] != b,
    ensures
        find_byte(s, b, from) == at,
    decreases at - from,
{
    if from < at {
        lemma_find_byte_exact(s, b, from + 1, at);
    }
}

pub proof fn lemma_find_byte_absent(s: Seq<u8>, b: u8, from: int)
    requires
        forall|j: int| from <= j < s.len() ==> s[j] != b,
    ensures
        find_byte(s, b, from) == -1,
    decreases s.len() - from,
{
    if 0 <= from < s.len() {
        lemma_find_byte_absent(s, b, from + 1);
    }
}

/// First occurrence of `b` in `s` at or after `from`.
pub fn find_byte_from(s: &[u8], b: u8, from: usize) -> (r: Option<usize>)
    ensures
        match r {
            Some(j) => find_byte(s@, b, from as int) == j && from <= j < s@.len() && s@[j as int]
                == b,
            None => find_byte(s@, b, from as int) == -1,
        },
{
    let mut i: usize = from;
    while i < s.len()
        invariant
            from <= i,
            forall|j: int| from <= j < i ==> s@[j] != b,
        decreases s@.len() - i,
    {
        if s[i] == b {
            proof {
                lemma_find_byte_exact(s@, b, from as int, i as int);
            }
            return Some(i);
        }
        i += 1;
    }
    proof {
        lemma_find_byte_absent(s@, b, from as int);
    }
    None
}

/// Copy `s[from..to]` into a fresh vector.
pub fn subrange_to_vec(s: &[u8], from: usize, to: usize) -> (r: Vec<u8>)
    requires
        from <= to <= s@.len(),
    ensures
        r@ == s@.subrange(from as int, to as int),
{
    let sub: &[u8] = &s[from..to];
    slice_to_vec(sub)
}

} // verus!
