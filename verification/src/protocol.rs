//! The client side of the smart-HTTP negotiation: scanning the reference
//! advertisement for the remote HEAD, building the want/done request body,
//! and checking the NAK line that precedes the pack stream. The HTTP calls
//! themselves stay outside the engine; these functions work on the bodies.
use vstd::prelude::*;
use crate::GitError;
use crate::pktline::{create_pkt_line, read_pkt_line, spec_pkt_read, spec_pkt_write};

verus! {

/// End of the token starting at `from`: the first space or NUL at or after
/// it, or the end of the line.
pub open spec fn token_end(line: Seq<u8>, from: int) -> int
    decreases line.len() - from,
{
    if from < 0 || from >= line.len() {
        line.len() as int
    } else if line[from] == 32 || line[from] == 0 {
        from
    } else {
        token_end(line, from + 1)
    }
}

pub proof fn lemma_token_end_bounds(line: Seq<u8>, from: int)
    requires
        0 <= from <= line.len(),
    ensures
        from <= token_end(line, from) <= line.len(),
    decreases line.len() - from,
{
    if from < line.len() && line[from] != 32 && line[from] != 0 {
        lemma_token_end_bounds(line, from + 1);
    }
}

proof fn lemma_token_end_exact(line: Seq<u8>, from: int, at: int)
    requires
        0 <= from <= at <= line.len(),
        forall|j: int| from <= j < at ==> line[j] != 32 && line[j] != 0,
        at == line.len() || line[at] == 32 || line[at] == 0,
    ensures
        token_end(line, from) == at,
    decreases at - from,
{
    if from < at {
        lemma_token_end_exact(line, from + 1, at);
    }
}

/// First space-or-NUL at or after `from`, or the line length.
pub fn find_token_end(line: &[u8], from: usize) -> (r: usize)
    requires
        from <= line@.len(),
    ensures
        r == token_end(line@, from as int),
        from <= r <= line@.len(),
{
    let mut i: usize = from;
    while i < line.len()
        invariant
            from <= i <= line@.len(),
            forall|j: int| from <= j < i ==> line@[j] != 32 && line@[j] != 0,
        decreases line@.len() - i,
    {
        if line[i] == 32 || line[i] == 0 {
            proof {
                lemma_token_end_exact(line@, from as int, i as int);
            }
            return i;
        }
        i += 1;
    }
    proof {
        lemma_token_end_exact(line@, from as int, line@.len() as int);
    }
    line.len()
}

/// The ASCII bytes of "HEAD".
pub open spec fn head_token() -> Seq<u8> {
    seq![72u8, 69u8, 65u8, 68u8]
}

/// Whether this advertisement line names HEAD as its second token, making
/// its first token the identity sought.
pub open spec fn line_names_head(line: Seq<u8>) -> bool {
    let t1 = token_end(line, 0);
    t1 < line.len() && line.subrange(t1 + 1, token_end(line, t1 + 1)) == head_token()
}

/// What scanning the advertisement from `offset` yields: the first token of
/// the first line whose second token is exactly `HEAD`. Failures: a
/// malformed pkt-line, no HEAD line before the body ends, or an identity
/// that is not forty characters.
pub open spec fn spec_find_head(buf: Seq<u8>, offset: int) -> Result<Seq<u8>, GitError>
    decreases buf.len() - offset,
{
    if offset < 0 || offset >= buf.len() {
        Err(GitError::TransportError)
    } else {
        match spec_pkt_read(buf, offset) {
            Err(e) => Err(e),
            Ok((line, next)) => if line_names_head(line) {
                let h = line.take(token_end(line, 0));
                if h.len() == 40 {
                    Ok(h)
                } else {
                    Err(GitError::TransportError)
                }
            } else {
                spec_find_head(buf, next)
            },
        }
    }
}

/// Scan the reference advertisement for the remote HEAD identity, returned
/// in its forty-character hex form.
pub fn find_head(buf: &[u8]) -> (r: Result<Vec<u8>, GitError>)
    ensures
        match r {
            Ok(h) => spec_find_head(buf@, 0) == Ok::<Seq<u8>, GitError>(h@) && h@.len() == 40,
            Err(e) => spec_find_head(buf@, 0) == Err::<Seq<u8>, GitError>(e),
        },
{
    let mut offset: usize = 0;
    while offset < buf.len()
        invariant
            offset <= buf@.len(),
            spec_find_head(buf@, 0) == spec_find_head(buf@, offset as int),
        decreases buf@.len() - offset,
    {
        let line = match read_pkt_line(buf, &mut offset) {
            Err(e) => {
                return Err(e);
            },
            Ok(line) => line,
        };
        let t1 = find_token_end(line.as_slice(), 0);
        if t1 < line.len() {
            let t2 = find_token_end(line.as_slice(), t1 + 1);
            let tok2 = crate::util::subrange_to_vec(line.as_slice(), t1 + 1, t2);
            let mut head_lit: Vec<u8> = Vec::new();
            head_lit.push(72);
            head_lit.push(69);
            head_lit.push(65);
            head_lit.push(68);
            assert(head_lit@ =~= head_token());
            if crate::util::bytes_eq(tok2.as_slice(), head_lit.as_slice()) {
                assert(line_names_head(line@));
                let h = crate::util::subrange_to_vec(line.as_slice(), 0, t1);
                if h.len() == 40 {
                    return Ok(h);
                } else {
                    return Err(GitError::TransportError);
                }
            }
            assert(!line_names_head(line@));
        } else {
            proof {
                lemma_token_end_bounds(line@, 0);
                assert(!line_names_head(line@));
            }
        }
    }
    Err(GitError::TransportError)
}

/// The ASCII bytes of "want " and "done\n".
pub open spec fn want_prefix() -> Seq<u8> {
    seq![119u8, 97u8, 110u8, 116u8, 32u8]
}

pub open spec fn done_line() -> Seq<u8> {
    seq![100u8, 111u8, 110u8, 101u8, 10u8]
}

/// The body of the fetch request: one want for the head identity, a flush,
/// and done.
pub open spec fn spec_want_request(head: Seq<u8>) -> Seq<u8> {
    spec_pkt_write(want_prefix() + head + seq![10u8]) + seq![48u8, 48u8, 48u8, 48u8]
        + spec_pkt_write(done_line())
}

/// Build the fetch request body for a forty-character head identity.
pub fn build_want_request(head: &[u8]) -> (r: Vec<u8>)
    requires
        head@.len() == 40,
    ensures
        r@ == spec_want_request(head@),
{
    let mut want: Vec<u8> = Vec::new();
    want.push(119);
    want.push(97);
    want.push(110);
    want.push(116);
    want.push(32);
    want.extend_from_slice(head);
    want.push(10);
    assert(want@ =~= want_prefix() + head@ + seq![10u8]);
    let mut done: Vec<u8> = Vec::new();
    done.push(100);
    done.push(111);
    done.push(110);
    done.push(101);
    done.push(10);
    assert(done@ =~= done_line());
    let mut body = create_pkt_line(want.as_slice());
    let mut flush = create_pkt_line(&[]);
    assert(flush@ =~= seq![48u8, 48u8, 48u8, 48u8]);
    let mut done_pkt = create_pkt_line(done.as_slice());
    body.append(&mut flush);
    body.append(&mut done_pkt);
    assert(body@ =~= spec_want_request(head@));
    body
}

/// The ASCII bytes of the `NAK` acknowledgement line.
pub open spec fn nak_line() -> Seq<u8> {
    seq![78u8, 65u8, 75u8, 10u8]
}

/// What checking the NAK line yields: the offset where the pack stream
/// begins. The fetch response must open with one pkt-line reading `NAK`.
pub open spec fn spec_strip_nak(body: Seq<u8>) -> Result<int, GitError> {
    match spec_pkt_read(body, 0) {
        Err(e) => Err(e),
        Ok((line, next)) => if line == nak_line() {
            Ok(next)
        } else {
            Err(GitError::TransportError)
        },
    }
}

/// Check the NAK line at the front of the fetch response and return the
/// offset of the pack stream behind it.
pub fn strip_nak(body: &[u8]) -> (r: Result<usize, GitError>)
    ensures
        match r {
            Ok(off) => spec_strip_nak(body@) == Ok::<int, GitError>(off as int) && off
                <= body@.len(),
            Err(e) => spec_strip_nak(body@) == Err::<int, GitError>(e),
        },
{
    let mut offset: usize = 0;
    let line = match read_pkt_line(body, &mut offset) {
        Err(e) => {
            return Err(e);
        },
        Ok(line) => line,
    };
    let mut nak: Vec<u8> = Vec::new();
    nak.push(78);
    nak.push(65);
    nak.push(75);
    nak.push(10);
    assert(nak@ =~= nak_line());
    if crate::util::bytes_eq(line.as_slice(), nak.as_slice()) {
        Ok(offset)
    } else {
        Err(GitError::TransportError)
    }
}

} // verus!
