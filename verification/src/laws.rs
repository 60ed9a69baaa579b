//! The codec's laws: what decoding guarantees about the pieces it hands out,
//! and the encode/parse round trip for responses.

use vstd::prelude::*;
use crate::headers::{clean_name, clean_value, clean_pairs, map_of};
use crate::request::{parse_header_line, parse_header_block, spec_decode, RequestView};
use crate::response::{
    header_line_bytes, header_block_bytes, spec_encode, spec_parse_response, ResponseView,
    find_sp_from, lemma_find_sp_from,
};
use crate::handler::{
    created_view, dec_of, h_content_encoding, h_content_length, h_content_type, h_user_agent,
    http11, server_error_view, spec_dispatch, spec_file_read_response, st_bad_request,
    st_created, st_not_found, st_ok, st_server_error, v_gzip, v_octet_stream, v_text_plain,
};
use crate::method::method_token;
use crate::router::{HandlerId, echo_prefix, spec_route};
use crate::scan::{
    CR, LF, at2, crlf_at, crlf_free, find2_from, find_blank_from, blank_at, is_ws,
    lemma_find2_from, lemma_find_blank_from, skip_tok, skip_ws,
};

verus! {

/// A parsed header line is clean: its name holds no `\r\n` and no `": "`,
/// its value holds no `\r\n`.
pub proof fn lemma_line_clean(line: Seq<u8>)
    requires
        crlf_free(line),
        parse_header_line(line) is Some,
    ensures
        clean_name(parse_header_line(line)->Some_0.0),
        clean_value(parse_header_line(line)->Some_0.1),
{
    let j = find2_from(line, 0, 58, 32);
    lemma_find2_from(line, 0, 58, 32);
    let name = line.subrange(0, j);
    let value = line.subrange(j + 2, line.len() as int);
    assert forall|i: int| !at2(name, i, 58, 32) by {
        if at2(name, i, 58, 32) {
            assert(at2(line, i, 58, 32));
        }
    }
    assert forall|i: int| !crlf_at(name, i) by {
        if crlf_at(name, i) {
            assert(crlf_at(line, i));
        }
    }
    assert forall|i: int| !crlf_at(value, i) by {
        if crlf_at(value, i) {
            assert(crlf_at(line, i + j + 2));
        }
    }
}

/// Every header pair a parsed block hands out is clean, and a parsed block
/// has at least one line.
pub proof fn lemma_block_clean(block: Seq<u8>)
    requires
        parse_header_block(block) is Some,
    ensures
        clean_pairs(parse_header_block(block)->Some_0),
        parse_header_block(block)->Some_0.len() >= 1,
    decreases block.len(),
{
    let j = find2_from(block, 0, CR, LF);
    lemma_find2_from(block, 0, CR, LF);
    if j < 0 || j + 2 > block.len() {
        assert(j < 0);
        assert forall|i: int| !crlf_at(block, i) by {
            if crlf_at(block, i) {
                assert(at2(block, i, CR, LF));
                assert(i >= 0);
            }
        }
        lemma_line_clean(block);
    } else {
        let line = block.subrange(0, j);
        assert forall|i: int| !crlf_at(line, i) by {
            if crlf_at(line, i) {
                assert(crlf_at(block, i));
            }
        }
        lemma_line_clean(line);
        let tail = block.subrange(j + 2, block.len() as int);
        lemma_block_clean(tail);
        let ps = parse_header_block(block)->Some_0;
        let rest = parse_header_block(tail)->Some_0;
        assert forall|i: int| 0 <= i < ps.len() implies clean_name((#[trigger] ps[i]).0)
            && clean_value(ps[i].1) by {
            if i > 0 {
                assert(ps[i] == rest[i - 1]);
            }
        }
    }
}

/// Parsing the wire form of one clean header pair gives the pair back.
pub proof fn lemma_parse_line_of(p: (Seq<u8>, Seq<u8>))
    requires
        clean_name(p.0),
    ensures
        parse_header_line(p.0 + seq![58u8, 32u8] + p.1) == Some(p),
{
    let line = p.0 + seq![58u8, 32u8] + p.1;
    let n0 = p.0.len() as int;
    lemma_find2_from(line, 0, 58, 32);
    assert(line[n0] == 58 && line[n0 + 1] == 32);
    assert(at2(line, n0, 58, 32));
    let r = find2_from(line, 0, 58, 32);
    if r == -1 {
        assert(!at2(line, n0, 58, 32));
        assert(false);
    }
    assert(r >= 0);
    if r < n0 {
        assert(at2(line, r, 58, 32));
        if r + 2 <= n0 {
            assert(at2(p.0, r, 58, 32));
            assert(false);
        } else {
            assert(r == n0 - 1);
            assert(line[r + 1] == 58);
            assert(false);
        }
    }
    if r > n0 {
        assert(!at2(line, n0, 58, 32));
        assert(false);
    }
    assert(line.subrange(0, n0) =~= p.0);
    assert(line.subrange(n0 + 2, line.len() as int) =~= p.1);
}

/// One header line without its terminator: `<name>: <value>`.
pub open spec fn line_body(p: (Seq<u8>, Seq<u8>)) -> Seq<u8> {
    p.0 + seq![58u8, 32u8] + p.1
}

/// A header block as the request grammar sees it: the lines joined by
/// `\r\n`, with no terminator after the last line.
pub open spec fn joined_lines(ps: Seq<(Seq<u8>, Seq<u8>)>) -> Seq<u8>
    decreases ps.len(),
{
    if ps.len() == 0 {
        Seq::empty()
    } else if ps.len() == 1 {
        line_body(ps[0])
    } else {
        line_body(ps[0]) + seq![CR, LF] + joined_lines(ps.drop_first())
    }
}

/// The wire form of a clean header line contains no `\r\n`.
pub proof fn lemma_line_body_crlf_free(p: (Seq<u8>, Seq<u8>))
    requires
        clean_name(p.0),
        clean_value(p.1),
    ensures
        crlf_free(line_body(p)),
{
    let lb = line_body(p);
    let n0 = p.0.len() as int;
    assert forall|i: int| !crlf_at(lb, i) by {
        if crlf_at(lb, i) {
            if i + 2 <= n0 {
                assert(p.0[i] == lb[i] && p.0[i + 1] == lb[i + 1]);
                assert(crlf_at(p.0, i));
            } else if i == n0 - 1 {
                assert(lb[i + 1] == 58);
            } else if i == n0 {
                assert(lb[i] == 58);
            } else if i == n0 + 1 {
                assert(lb[i] == 32);
            } else {
                assert(p.1[i - n0 - 2] == lb[i] && p.1[i - n0 - 1] == lb[i + 1]);
                assert(crlf_at(p.1, i - n0 - 2));
            }
        }
    }
}

/// A serialized header block is the joined lines followed by one final
/// `\r\n`.
pub proof fn lemma_block_bytes_shape(ps: Seq<(Seq<u8>, Seq<u8>)>)
    requires
        ps.len() >= 1,
    ensures
        header_block_bytes(ps) == joined_lines(ps) + seq![CR, LF],
    decreases ps.len(),
{
    if ps.len() == 1 {
        assert(header_block_bytes(ps.drop_first()) =~= Seq::<u8>::empty());
        assert(header_block_bytes(ps) =~= joined_lines(ps) + seq![CR, LF]);
    } else {
        lemma_block_bytes_shape(ps.drop_first());
        assert(header_block_bytes(ps) =~= joined_lines(ps) + seq![CR, LF]);
    }
}

/// Parsing the joined wire form of clean header lines gives the lines back.
pub proof fn lemma_parse_joined(ps: Seq<(Seq<u8>, Seq<u8>)>)
    requires
        ps.len() >= 1,
        clean_pairs(ps),
    ensures
        parse_header_block(joined_lines(ps)) == Some(ps),
    decreases ps.len(),
{
    let block = joined_lines(ps);
    let lb = line_body(ps[0]);
    let n = lb.len() as int;
    lemma_line_body_crlf_free(ps[0]);
    lemma_find2_from(block, 0, CR, LF);
    let j = find2_from(block, 0, CR, LF);
    if ps.len() == 1 {
        if j >= 0 {
            assert(at2(block, j, CR, LF));
            assert(crlf_at(lb, j));
            assert(false);
        }
        lemma_parse_line_of(ps[0]);
        assert(parse_header_block(block) == Some(seq![ps[0]]));
        assert(seq![ps[0]] =~= ps);
    } else {
        let rest = ps.drop_first();
        let tail = joined_lines(rest);
        assert(block == lb + seq![CR, LF] + tail);
        assert(block[n] == CR && block[n + 1] == LF);
        assert(at2(block, n, CR, LF));
        if j == -1 {
            assert(!at2(block, n, CR, LF));
            assert(false);
        }
        if j < n {
            assert(at2(block, j, CR, LF));
            if j + 2 <= n {
                assert(lb[j] == block[j] && lb[j + 1] == block[j + 1]);
                assert(crlf_at(lb, j));
                assert(false);
            } else {
                assert(j == n - 1);
                assert(block[j + 1] == CR);
                assert(false);
            }
        }
        if j > n {
            assert(!at2(block, n, CR, LF));
            assert(false);
        }
        assert(j == n);
        assert(block.subrange(0, n) =~= lb);
        lemma_parse_line_of(ps[0]);
        assert(parse_header_line(block.subrange(0, n)) == Some(ps[0]));
        assert(block.subrange(n + 2, block.len() as int) =~= tail);
        assert(clean_pairs(rest)) by {
            assert(forall|i: int| 0 <= i < rest.len() ==> rest[i] == ps[i + 1]);
        }
        lemma_parse_joined(rest);
        assert(parse_header_block(block) == Some(seq![ps[0]] + rest));
        assert(seq![ps[0]] + rest =~= ps);
    }
}

/// Before its final terminator, the wire form of a clean header block holds
/// no two `\r\n` pairs back to back: no blank line cuts the block short.
pub proof fn lemma_no_early_blank(ps: Seq<(Seq<u8>, Seq<u8>)>)
    requires
        ps.len() >= 1,
        clean_pairs(ps),
    ensures
        ({
            let w = joined_lines(ps) + seq![CR, LF];
            forall|p: int|
                0 <= p < joined_lines(ps).len() ==> !((#[trigger] crlf_at(w, p)) && crlf_at(
                    w,
                    p + 2,
                ))
        }),
    decreases ps.len(),
{
    let jl = joined_lines(ps);
    let w = jl + seq![CR, LF];
    let lb = line_body(ps[0]);
    let n = lb.len() as int;
    lemma_line_body_crlf_free(ps[0]);
    if ps.len() == 1 {
        assert forall|p: int| 0 <= p < jl.len() implies !((#[trigger] crlf_at(w, p)) && crlf_at(
            w,
            p + 2,
        )) by {
            if crlf_at(w, p) {
                if p + 2 <= n {
                    assert(lb[p] == w[p] && lb[p + 1] == w[p + 1]);
                    assert(crlf_at(lb, p));
                    assert(false);
                } else {
                    assert(p == n - 1);
                    assert(w[p + 1] == CR);
                    assert(false);
                }
            }
        }
    } else {
        let rest = ps.drop_first();
        assert(clean_pairs(rest)) by {
            assert(forall|i: int| 0 <= i < rest.len() ==> rest[i] == ps[i + 1]);
        }
        lemma_no_early_blank(rest);
        let jr = joined_lines(rest);
        let wrest = jr + seq![CR, LF];
        assert(w =~= lb + seq![CR, LF] + wrest);
        let lb1 = line_body(rest[0]);
        lemma_line_body_crlf_free(rest[0]);
        assert(jr[0] == lb1[0] && jr[1] == lb1[1]);
        assert forall|p: int| 0 <= p < jl.len() implies !((#[trigger] crlf_at(w, p)) && crlf_at(
            w,
            p + 2,
        )) by {
            if crlf_at(w, p) && crlf_at(w, p + 2) {
                if p + 2 <= n {
                    assert(lb[p] == w[p] && lb[p + 1] == w[p + 1]);
                    assert(crlf_at(lb, p));
                    assert(false);
                } else if p == n - 1 {
                    assert(w[p + 1] == CR);
                    assert(false);
                } else if p == n {
                    assert(w[p + 2] == wrest[0] && w[p + 3] == wrest[1]);
                    assert(crlf_at(lb1, 0));
                    assert(false);
                } else if p == n + 1 {
                    assert(w[p] == LF);
                    assert(false);
                } else {
                    let q = p - n - 2;
                    assert(w[p] == wrest[q] && w[p + 1] == wrest[q + 1]);
                    assert(w[p + 2] == wrest[q + 2] && w[p + 3] == wrest[q + 3]);
                    assert(crlf_at(wrest, q) && crlf_at(wrest, q + 2));
                    assert(0 <= q < jr.len());
                    assert(false);
                }
            }
        }
    }
}

/// A response that can appear on the wire at all: its version token holds no
/// whitespace (it came off a request line), its status text holds no line
/// terminator, and its headers are clean.
pub open spec fn wf_response(r: ResponseView) -> bool {
    &&& crlf_free(r.version)
    &&& (forall|i: int| 0 <= i < r.version.len() ==> r.version[i] != 32)
    &&& crlf_free(r.status)
    &&& clean_pairs(r.headers)
}

/// Round trip: parsing the serialized bytes of any well-formed response
/// gives back exactly its status line, its header lines, and its body.
pub proof fn lemma_encode_round_trip(r: ResponseView)
    requires
        wf_response(r),
    ensures
        spec_parse_response(spec_encode(r)) == Some(r),
{
    let s = spec_encode(r);
    let line = r.version + seq![32u8] + r.status;
    let l = line.len() as int;
    let nv = r.version.len() as int;
    let eh = header_block_bytes(r.headers);
    let restv = eh + seq![CR, LF] + r.body;
    assert(s =~= line + seq![CR, LF] + restv);
    assert forall|i: int| !crlf_at(line, i) by {
        if crlf_at(line, i) {
            if i + 2 <= nv {
                assert(line[i] == r.version[i] && line[i + 1] == r.version[i + 1]);
                assert(crlf_at(r.version, i));
            } else if i == nv - 1 {
                assert(line[i + 1] == 32);
            } else if i == nv {
                assert(line[i] == 32);
            } else {
                assert(line[i] == r.status[i - nv - 1] && line[i + 1] == r.status[i - nv]);
                assert(crlf_at(r.status, i - nv - 1));
            }
        }
    }
    lemma_find2_from(s, 0, CR, LF);
    let i0 = find2_from(s, 0, CR, LF);
    assert(s[l] == CR && s[l + 1] == LF);
    assert(at2(s, l, CR, LF));
    if i0 == -1 {
        assert(!at2(s, l, CR, LF));
        assert(false);
    }
    if i0 < l {
        assert(at2(s, i0, CR, LF));
        if i0 + 2 <= l {
            assert(line[i0] == s[i0] && line[i0 + 1] == s[i0 + 1]);
            assert(crlf_at(line, i0));
            assert(false);
        } else {
            assert(i0 == l - 1);
            assert(s[i0 + 1] == CR);
            assert(false);
        }
    }
    if i0 > l {
        assert(!at2(s, l, CR, LF));
        assert(false);
    }
    assert(i0 == l);
    assert(s.subrange(0, l) =~= line);
    lemma_find_sp_from(line, 0);
    let sp = find_sp_from(line, 0);
    assert(line[nv] == 32);
    if sp == -1 {
        assert(line[nv] != 32);
        assert(false);
    }
    if sp < nv {
        assert(line[sp] == 32);
        assert(line[sp] == r.version[sp]);
        assert(false);
    }
    if sp > nv {
        assert(line[nv] != 32);
        assert(false);
    }
    assert(sp == nv);
    assert(line.subrange(0, nv) =~= r.version);
    assert(line.subrange(nv + 1, l) =~= r.status);
    let restp = s.subrange(l + 2, s.len() as int);
    assert(restp =~= restv);
    if r.headers.len() == 0 {
        assert(eh =~= Seq::<u8>::empty());
        assert(restv =~= seq![CR, LF] + r.body);
        assert(crlf_at(restv, 0));
        assert(restv.subrange(2, restv.len() as int) =~= r.body);
        assert(r.headers =~= Seq::<(Seq<u8>, Seq<u8>)>::empty());
        assert(spec_parse_response(s)->Some_0 =~= r);
    } else {
        let jl = joined_lines(r.headers);
        let nj = jl.len() as int;
        lemma_block_bytes_shape(r.headers);
        assert(eh == jl + seq![CR, LF]);
        assert(restv =~= jl + seq![CR, LF, CR, LF] + r.body);
        let lb0 = line_body(r.headers[0]);
        lemma_line_body_crlf_free(r.headers[0]);
        assert(jl[0] == lb0[0] && jl[1] == lb0[1]);
        if crlf_at(restv, 0) {
            assert(restv[0] == jl[0] && restv[1] == jl[1]);
            assert(crlf_at(lb0, 0));
            assert(false);
        }
        lemma_find_blank_from(restv, 0);
        let jb = find_blank_from(restv, 0);
        assert(restv[nj] == CR && restv[nj + 1] == LF && restv[nj + 2] == CR && restv[nj + 3]
            == LF);
        assert(blank_at(restv, nj));
        if jb == -1 {
            assert(!blank_at(restv, nj));
            assert(false);
        }
        if jb < nj {
            assert(blank_at(restv, jb));
            lemma_no_early_blank(r.headers);
            let w = jl + seq![CR, LF];
            if jb + 2 <= nj {
                assert(w[jb] == restv[jb] && w[jb + 1] == restv[jb + 1]);
                assert(w[jb + 2] == restv[jb + 2] && w[jb + 3] == restv[jb + 3]);
                assert(crlf_at(w, jb) && crlf_at(w, jb + 2));
                assert(false);
            } else {
                assert(jb == nj - 1);
                assert(restv[jb + 1] == CR);
                assert(false);
            }
        }
        if jb > nj {
            assert(!blank_at(restv, nj));
            assert(false);
        }
        assert(jb == nj);
        assert(restv.subrange(0, nj) =~= jl);
        lemma_parse_joined(r.headers);
        assert(parse_header_block(restv.subrange(0, nj)) == Some(r.headers));
        assert(restv.subrange(nj + 4, restv.len() as int) =~= r.body);
        assert(spec_parse_response(s)->Some_0 =~= r);
    }
}

/// Every header pair a successfully decoded request carries is clean: it can
/// be put on the wire again unchanged.
pub proof fn lemma_decoded_headers_clean(s: Seq<u8>)
    requires
        spec_decode(s) is Ok,
    ensures
        clean_pairs(spec_decode(s)->Ok_0.headers),
{
    let i = find2_from(s, 0, CR, LF);
    let rest = s.subrange(i + 2, s.len() as int);
    if !crlf_at(rest, 0) {
        let j = find_blank_from(rest, 0);
        lemma_block_clean(rest.subrange(0, j));
    }
}

/// Decoding then re-encoding preserves the header set: a response built from
/// the headers of any successfully decoded request parses back, and its
/// parsed header lines -- hence its header mapping -- equal the decoded ones.
pub proof fn lemma_decoded_headers_round_trip(
    s: Seq<u8>,
    version: Seq<u8>,
    status: Seq<u8>,
    body: Seq<u8>,
)
    requires
        spec_decode(s) is Ok,
        crlf_free(version),
        forall|i: int| 0 <= i < version.len() ==> version[i] != 32,
        crlf_free(status),
    ensures
        ({
            let resp = ResponseView {
                version,
                status,
                headers: spec_decode(s)->Ok_0.headers,
                body,
            };
            &&& spec_parse_response(spec_encode(resp)) == Some(resp)
            &&& map_of(spec_parse_response(spec_encode(resp))->Some_0.headers) == map_of(
                spec_decode(s)->Ok_0.headers,
            )
        }),
{
    lemma_decoded_headers_clean(s);
    let resp = ResponseView { version, status, headers: spec_decode(s)->Ok_0.headers, body };
    lemma_encode_round_trip(resp);
}

/// A byte buffer satisfies the request grammar: a `\r\n`-terminated request
/// line bearing at least three whitespace-separated tokens, the first naming
/// a recognized method; then either an immediate blank line (an empty header
/// block) or a blank-line-terminated block in which every line has a `": "`
/// separator; the body is whatever follows and is never constrained.
pub open spec fn grammar_ok(s: Seq<u8>) -> bool {
    let i = find2_from(s, 0, CR, LF);
    &&& i >= 0
    &&& ({
        let line = s.subrange(0, i);
        let a0 = skip_ws(line, 0);
        let a1 = skip_tok(line, a0);
        let b0 = skip_ws(line, a1);
        let b1 = skip_tok(line, b0);
        let c0 = skip_ws(line, b1);
        &&& c0 < line.len()
        &&& method_token(line.subrange(a0, a1)) is Some
    })
    &&& ({
        let rest = s.subrange(i + 2, s.len() as int);
        crlf_at(rest, 0) || (find_blank_from(rest, 0) >= 0 && parse_header_block(
            rest.subrange(0, find_blank_from(rest, 0)),
        ) is Some)
    })
}

/// Decode is total over the grammar: it succeeds on exactly the byte
/// sequences the grammar admits. On every other input `spec_decode` names
/// the violation, one error per grammar clause.
pub proof fn lemma_decode_total(s: Seq<u8>)
    ensures
        spec_decode(s) is Ok <==> grammar_ok(s),
{
}

/// The version token of a decoded request came off the request line as one
/// whitespace-free token: it holds no space and no line terminator.
pub proof fn lemma_decoded_version_clean(s: Seq<u8>)
    requires
        spec_decode(s) is Ok,
    ensures
        crlf_free(spec_decode(s)->Ok_0.version),
        forall|i: int|
            0 <= i < spec_decode(s)->Ok_0.version.len() ==> spec_decode(s)->Ok_0.version[i]
                != 32,
{
    let i = find2_from(s, 0, CR, LF);
    let line = s.subrange(0, i);
    let a0 = skip_ws(line, 0);
    let a1 = skip_tok(line, a0);
    let b0 = skip_ws(line, a1);
    let b1 = skip_tok(line, b0);
    let c0 = skip_ws(line, b1);
    let c1 = skip_tok(line, c0);
    crate::scan::lemma_skip_ws(line, 0);
    crate::scan::lemma_skip_tok(line, a0);
    crate::scan::lemma_skip_ws(line, a1);
    crate::scan::lemma_skip_tok(line, b0);
    crate::scan::lemma_skip_ws(line, b1);
    crate::scan::lemma_skip_tok(line, c0);
    let version = line.subrange(c0, c1);
    assert(version == spec_decode(s)->Ok_0.version);
    assert forall|k: int| 0 <= k < version.len() implies version[k] != 32 by {
        assert(version[k] == line[c0 + k]);
        assert(!is_ws(line[c0 + k]));
    }
    assert forall|k: int| !crlf_at(version, k) by {
        if crlf_at(version, k) {
            assert(version[k] == line[c0 + k]);
            assert(!is_ws(line[c0 + k]));
        }
    }
}

/// The fixed status texts and header names of the handlers are clean: free
/// of line terminators, and the names free of the `": "` separator.
pub proof fn lemma_handler_constants_clean()
    ensures
        crlf_free(http11()),
        forall|i: int| 0 <= i < http11().len() ==> http11()[i] != 32,
        crlf_free(st_ok()),
        crlf_free(st_created()),
        crlf_free(st_not_found()),
        crlf_free(st_bad_request()),
        crlf_free(st_server_error()),
        clean_name(h_content_type()),
        clean_name(h_content_length()),
        clean_name(h_content_encoding()),
        clean_value(v_text_plain()),
        clean_value(v_octet_stream()),
        clean_value(v_gzip()),
{
}

/// Decimal digits are clean header-value bytes.
pub proof fn lemma_dec_of_clean(n: nat)
    ensures
        clean_value(dec_of(n)),
        forall|i: int| 0 <= i < dec_of(n).len() ==> 48 <= #[trigger] dec_of(n)[i] < 58,
    decreases n,
{
    if n >= 10 {
        lemma_dec_of_clean(n / 10);
        assert forall|i: int| 0 <= i < dec_of(n).len() implies 48 <= #[trigger] dec_of(n)[i]
            < 58 by {
            if i < dec_of(n / 10).len() {
                assert(dec_of(n)[i] == dec_of(n / 10)[i]);
            }
        }
    }
    assert forall|i: int| !crlf_at(dec_of(n), i) by {
        if crlf_at(dec_of(n), i) {
            assert(48 <= dec_of(n)[i] < 58);
        }
    }
}

/// Every immediate response the dispatcher decides on is well-formed, so
/// the encode/parse round trip applies to it: a client always receives a
/// syntactically valid response for any dispatched request.
pub proof fn lemma_dispatch_responses_wf(s: Seq<u8>)
    requires
        spec_decode(s) is Ok,
        spec_dispatch(spec_decode(s)->Ok_0) is Respond,
    ensures
        wf_response(spec_dispatch(spec_decode(s)->Ok_0)->Respond_0),
{
    let req = spec_decode(s)->Ok_0;
    let resp = spec_dispatch(req)->Respond_0;
    lemma_decoded_version_clean(s);
    lemma_decoded_headers_clean(s);
    lemma_handler_constants_clean();
    match spec_route(req.method, req.path) {
        HandlerId::Root => {
        },
        HandlerId::UserAgent => {
            let hm = map_of(req.headers);
            if hm.contains_key(h_user_agent()) {
                let ua = hm[h_user_agent()];
                lemma_map_of_values_clean(req.headers, h_user_agent());
                lemma_dec_of_clean(ua.len());
                assert(clean_pairs(resp.headers));
            }
        },
        HandlerId::Echo => {
            let payload = req.path.subrange(
                echo_prefix().len() as int,
                req.path.len() as int,
            );
            lemma_dec_of_clean(payload.len());
            assert(clean_pairs(resp.headers));
        },
        HandlerId::FileRead => {
        },
        HandlerId::FileWrite => {
        },
        HandlerId::NotFound => {
        },
    }
}

/// A value looked up in a clean header block is clean.
pub proof fn lemma_map_of_values_clean(ps: Seq<(Seq<u8>, Seq<u8>)>, k: Seq<u8>)
    requires
        clean_pairs(ps),
        map_of(ps).contains_key(k),
    ensures
        clean_value(map_of(ps)[k]),
    decreases ps.len(),
{
    if ps.len() > 0 {
        if ps.last().0 == k {
        } else {
            lemma_map_of_values_clean(ps.drop_last(), k);
        }
    }
}

/// The responses built for filesystem outcomes are well-formed whenever the
/// version token handed back in is the clean one the dispatch gave out.
pub proof fn lemma_outcome_responses_wf(version: Seq<u8>, contents: Option<Seq<u8>>, ok: bool)
    requires
        crlf_free(version),
        forall|i: int| 0 <= i < version.len() ==> version[i] != 32,
    ensures
        wf_response(spec_file_read_response(version, contents)),
        wf_response(
            if ok {
                created_view()
            } else {
                server_error_view()
            },
        ),
{
    lemma_handler_constants_clean();
    if contents is Some {
        lemma_dec_of_clean(contents->0.len());
        assert(clean_pairs(spec_file_read_response(version, contents).headers));
    }
}

} // verus!
