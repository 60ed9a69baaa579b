//! Serializing a typed response into wire bytes, and the spec-level inverse
//! used to state the encode/decode round trip.
//!
//! The wire layout is exactly `<version> <status>\r\n`, then each header as
//! `<name>: <value>\r\n`, then a blank `\r\n`, then the body bytes verbatim.
//! The serializer never injects headers of its own, and the outbound path is
//! purely binary.

use vstd::prelude::*;
use crate::headers::Headers;
use crate::request::{parse_header_block};
use crate::scan::{CR, LF, crlf_at, find2_from, find_blank_from, push_bytes};

verus! {

/// The mathematical content of a response.
#[verifier::ext_equal]
pub ghost struct ResponseView {
    pub version: Seq<u8>,
    pub status: Seq<u8>,
    pub headers: Seq<(Seq<u8>, Seq<u8>)>,
    pub body: Seq<u8>,
}

/// An HTTP response to be serialized.
pub struct Response {
    pub version: Vec<u8>,
    pub status: Vec<u8>,
    pub headers: Headers,
    pub body: Vec<u8>,
}

impl View for Response {
    type V = ResponseView;

    open spec fn view(&self) -> ResponseView {
        ResponseView {
            version: self.version@,
            status: self.status@,
            headers: self.headers@,
            body: self.body@,
        }
    }
}

/// One header line on the wire: `<name>: <value>\r\n`.
pub open spec fn header_line_bytes(p: (Seq<u8>, Seq<u8>)) -> Seq<u8> {
    p.0 + seq![58u8, 32u8] + p.1 + seq![CR, LF]
}

/// A header block on the wire: the lines in order, each `\r\n`-terminated.
pub open spec fn header_block_bytes(ps: Seq<(Seq<u8>, Seq<u8>)>) -> Seq<u8>
    decreases ps.len(),
{
    if ps.len() == 0 {
        Seq::empty()
    } else {
        header_line_bytes(ps[0]) + header_block_bytes(ps.drop_first())
    }
}

/// The exact bytes a response serializes to.
pub open spec fn spec_encode(r: ResponseView) -> Seq<u8> {
    r.version + seq![32u8] + r.status + seq![CR, LF] + header_block_bytes(r.headers)
        + seq![CR, LF] + r.body
}

/// The block bytes of a concatenation are the concatenation of the block
/// bytes.
pub proof fn lemma_header_block_bytes_concat(a: Seq<(Seq<u8>, Seq<u8>)>, b: Seq<(Seq<u8>, Seq<u8>)>)
    ensures
        header_block_bytes(a + b) == header_block_bytes(a) + header_block_bytes(b),
    decreases a.len(),
{
    if a.len() == 0 {
        assert(a + b =~= b);
        assert(header_block_bytes(a) + header_block_bytes(b) =~= header_block_bytes(b));
    } else {
        lemma_header_block_bytes_concat(a.drop_first(), b);
        assert((a + b).drop_first() =~= a.drop_first() + b);
        assert((a + b)[0] == a[0]);
        assert(header_line_bytes(a[0]) + (header_block_bytes(a.drop_first())
            + header_block_bytes(b)) =~= (header_line_bytes(a[0]) + header_block_bytes(
            a.drop_first(),
        )) + header_block_bytes(b));
    }
}

impl Response {
    /// Serializes the response into its exact wire bytes.
    pub fn encode(&self) -> (out: Vec<u8>)
        ensures
            out@ == spec_encode(self@),
    {
        let mut out: Vec<u8> = Vec::new();
        push_bytes(&mut out, self.version.as_slice());
        out.push(32);
        push_bytes(&mut out, self.status.as_slice());
        out.push(CR);
        out.push(LF);
        let ghost head = self.version@ + seq![32u8] + self.status@ + seq![CR, LF];
        proof {
            assert(out@ =~= head);
        }
        let n = self.headers.entries.len();
        let mut k: usize = 0;
        while k < n
            invariant
                k <= n,
                n == self.headers.entries@.len(),
                out@ == head + header_block_bytes(self@.headers.take(k as int)),
            decreases n - k,
        {
            let ghost before = self@.headers.take(k as int);
            push_bytes(&mut out, self.headers.entries[k].name.as_slice());
            out.push(58);
            out.push(32);
            push_bytes(&mut out, self.headers.entries[k].value.as_slice());
            out.push(CR);
            out.push(LF);
            proof {
                let ghost after = self@.headers.take(k as int + 1);
                assert(after.drop_last() =~= before);
                assert(after.last() == self@.headers[k as int]);
                lemma_header_block_bytes_concat(before, seq![self@.headers[k as int]]);
                assert(before + seq![self@.headers[k as int]] =~= after);
                let single = seq![self@.headers[k as int]];
                assert(single.drop_first() =~= Seq::<(Seq<u8>, Seq<u8>)>::empty());
                assert(header_block_bytes(single.drop_first()) =~= Seq::<u8>::empty());
                assert(header_block_bytes(single) =~= header_line_bytes(self@.headers[k as int]));
                assert(out@ =~= head + header_block_bytes(after));
            }
            k = k + 1;
        }
        proof {
            assert(self@.headers.take(n as int) =~= self@.headers);
        }
        out.push(CR);
        out.push(LF);
        push_bytes(&mut out, self.body.as_slice());
        proof {
            assert(out@ =~= spec_encode(self@));
        }
        out
    }
}

/// The spec-level inverse of `spec_encode`: splits a response's wire bytes
/// back into status line (at its first space), header block, and body, by the
/// same grammar the request decoder uses for its header section.
pub open spec fn spec_parse_response(s: Seq<u8>) -> Option<ResponseView> {
    let i = find2_from(s, 0, CR, LF);
    if i < 0 {
        None
    } else {
        let line = s.subrange(0, i);
        let sp = find2_sp(line);
        if sp < 0 {
            None
        } else {
            let version = line.subrange(0, sp);
            let status = line.subrange(sp + 1, line.len() as int);
            let rest = s.subrange(i + 2, s.len() as int);
            if crlf_at(rest, 0) {
                Some(ResponseView {
                    version,
                    status,
                    headers: Seq::empty(),
                    body: rest.subrange(2, rest.len() as int),
                })
            } else {
                let j = find_blank_from(rest, 0);
                if j < 0 {
                    None
                } else {
                    match parse_header_block(rest.subrange(0, j)) {
                        Some(hs) => Some(ResponseView {
                            version,
                            status,
                            headers: hs,
                            body: rest.subrange(j + 4, rest.len() as int),
                        }),
                        None => None,
                    }
                }
            }
        }
    }
}

/// Index of the first space byte in `s`, or -1.
pub open spec fn find2_sp(s: Seq<u8>) -> int {
    find_sp_from(s, 0)
}

/// Index of the first space byte at or after `from`, or -1.
pub open spec fn find_sp_from(s: Seq<u8>, from: int) -> int
    decreases s.len() - from,
{
    if from >= s.len() {
        -1
    } else if s[from] == 32 {
        from
    } else {
        find_sp_from(s, from + 1)
    }
}

/// `find_sp_from` returns exactly the first space.
pub proof fn lemma_find_sp_from(s: Seq<u8>, from: int)
    requires
        0 <= from,
    ensures
        ({
            let r = find_sp_from(s, from);
            &&& (r == -1 || r >= from)
            &&& (r == -1 ==> forall|j: int| from <= j < s.len() ==> s[j] != 32)
            &&& (r >= 0 ==> from <= r < s.len() && s[r] == 32 && (forall|j: int|
                from <= j < r ==> s[j] != 32))
        }),
    decreases s.len() - from,
{
    if from >= s.len() {
    } else if s[from] == 32 {
    } else {
        lemma_find_sp_from(s, from + 1);
    }
}

} // verus!
