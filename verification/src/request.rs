//! Decoding a raw byte buffer into a typed request.
//!
//! The grammar: a request line terminated by the first `\r\n`; then a header
//! block terminated by the first blank line (`\r\n\r\n`, where an immediately
//! following `\r\n` means an empty block); then the body, which is every byte
//! after the separator, taken verbatim. The request line splits on runs of
//! whitespace into at least three tokens (method, path, version); extra
//! tokens are ignored. Each header line splits at its first `": "`. Every way
//! an input can violate the grammar has a named error.

use vstd::prelude::*;
use vstd::slice::slice_to_vec;
use vstd::string::StringSliceAdditionalSpecFns;
use crate::headers::{Header, Headers};
use crate::method::{Method, method_token};
use crate::scan::{
    CR, LF, at2, crlf_at, find2, find2_from, find_blank, find_blank_from, skip_tok,
    skip_tok_exec, skip_ws, skip_ws_exec,
};

verus! {

/// Why a byte buffer failed to decode as a request.
#[derive(Clone, Copy, PartialEq, Eq, Structural, Debug)]
pub enum DecodeError {
    /// No `\r\n`-terminated request line, or fewer than three tokens on it.
    MalformedRequestLine,
    /// The method token is not one of the recognized methods.
    UnknownMethod,
    /// No blank-line separator ends the header block.
    MalformedHeaders,
    /// A header line has no `": "` separator.
    MalformedHeaderLine,
}

/// The mathematical content of a decoded request.
#[verifier::ext_equal]
pub ghost struct RequestView {
    pub method: Method,
    pub path: Seq<u8>,
    pub version: Seq<u8>,
    pub headers: Seq<(Seq<u8>, Seq<u8>)>,
    pub body: Seq<u8>,
}

/// A decoded HTTP request.
pub struct Request {
    pub method: Method,
    pub path: Vec<u8>,
    pub version: Vec<u8>,
    pub headers: Headers,
    pub body: Vec<u8>,
}

impl View for Request {
    type V = RequestView;

    open spec fn view(&self) -> RequestView {
        RequestView {
            method: self.method,
            path: self.path@,
            version: self.version@,
            headers: self.headers@,
            body: self.body@,
        }
    }
}

/// Splits one header line at its first `": "` into name and value.
pub open spec fn parse_header_line(line: Seq<u8>) -> Option<(Seq<u8>, Seq<u8>)> {
    let j = find2_from(line, 0, 58, 32);
    if j < 0 {
        None
    } else {
        Some((line.subrange(0, j), line.subrange(j + 2, line.len() as int)))
    }
}

/// Splits a non-empty header block on every `\r\n` and parses each line;
/// `None` if any line lacks a `": "` separator.
pub open spec fn parse_header_block(block: Seq<u8>) -> Option<Seq<(Seq<u8>, Seq<u8>)>>
    decreases block.len(),
{
    let j = find2_from(block, 0, CR, LF);
    if j < 0 || j + 2 > block.len() {
        match parse_header_line(block) {
            Some(p) => Some(seq![p]),
            None => None,
        }
    } else {
        match parse_header_line(block.subrange(0, j)) {
            Some(p) => match parse_header_block(block.subrange(j + 2, block.len() as int)) {
                Some(rest) => Some(seq![p] + rest),
                None => None,
            },
            None => None,
        }
    }
}

/// Parses the request line: skip leading whitespace, take three
/// whitespace-separated tokens (method, path, version), ignore the rest.
pub open spec fn parse_request_line(line: Seq<u8>) -> Result<(Method, Seq<u8>, Seq<u8>), DecodeError> {
    let a0 = skip_ws(line, 0);
    let a1 = skip_tok(line, a0);
    let b0 = skip_ws(line, a1);
    let b1 = skip_tok(line, b0);
    let c0 = skip_ws(line, b1);
    let c1 = skip_tok(line, c0);
    if c0 >= line.len() {
        Err(DecodeError::MalformedRequestLine)
    } else {
        match method_token(line.subrange(a0, a1)) {
            Some(m) => Ok((m, line.subrange(b0, b1), line.subrange(c0, c1))),
            None => Err(DecodeError::UnknownMethod),
        }
    }
}

/// What decoding a byte buffer yields: the decoded request, or the first
/// grammar violation in the order the decoder meets them.
pub open spec fn spec_decode(s: Seq<u8>) -> Result<RequestView, DecodeError> {
    let i = find2_from(s, 0, CR, LF);
    if i < 0 {
        Err(DecodeError::MalformedRequestLine)
    } else {
        match parse_request_line(s.subrange(0, i)) {
            Err(e) => Err(e),
            Ok((m, path, version)) => {
                let rest = s.subrange(i + 2, s.len() as int);
                if crlf_at(rest, 0) {
                    Ok(RequestView {
                        method: m,
                        path,
                        version,
                        headers: Seq::empty(),
                        body: rest.subrange(2, rest.len() as int),
                    })
                } else {
                    let j = find_blank_from(rest, 0);
                    if j < 0 {
                        Err(DecodeError::MalformedHeaders)
                    } else {
                        match parse_header_block(rest.subrange(0, j)) {
                            Some(hs) => Ok(RequestView {
                                method: m,
                                path,
                                version,
                                headers: hs,
                                body: rest.subrange(j + 4, rest.len() as int),
                            }),
                            None => Err(DecodeError::MalformedHeaderLine),
                        }
                    }
                }
            },
        }
    }
}

/// Parses one header line.
fn parse_line(line: &[u8]) -> (r: Option<Header>)
    ensures
        match r {
            Some(h) => parse_header_line(line@) == Some(h@),
            None => parse_header_line(line@) is None,
        },
{
    match find2(line, 0, 58, 32) {
        Some(j) => {
            let n = line.len();
            let name = slice_to_vec(&line[0..j]);
            let value = slice_to_vec(&line[j + 2..n]);
            Some(Header { name, value })
        },
        None => None,
    }
}

/// Parses a non-empty header block into its ordered header lines.
fn parse_block(block: &[u8]) -> (r: Option<Headers>)
    ensures
        match r {
            Some(hs) => parse_header_block(block@) == Some(hs@),
            None => parse_header_block(block@) is None,
        },
{
    let mut rem: &[u8] = block;
    let mut acc = Headers::new();
    proof {
        if parse_header_block(block@) is Some {
            assert(acc@ + parse_header_block(block@)->Some_0 =~= parse_header_block(
                block@,
            )->Some_0);
        }
    }
    loop
        invariant
            (match parse_header_block(rem@) {
                Some(rest) => parse_header_block(block@) == Some(acc@ + rest),
                None => parse_header_block(block@) is None,
            }),
        decreases rem@.len(),
    {
        match find2(rem, 0, CR, LF) {
            Some(j) => {
                let line: &[u8] = &rem[0..j];
                match parse_line(line) {
                    Some(h) => {
                        let ghost accv = acc@;
                        let ghost hv = h@;
                        let Header { name, value } = h;
                        acc.put(name, value);
                        let rem_len = rem.len();
                        let next: &[u8] = &rem[j + 2..rem_len];
                        proof {
                            if parse_header_block(next@) is Some {
                                let rest = parse_header_block(next@)->Some_0;
                                assert(parse_header_block(rem@) == Some(seq![hv] + rest));
                                assert(accv + (seq![hv] + rest) =~= (accv + seq![hv]) + rest);
                            }
                        }
                        rem = next;
                    },
                    None => {
                        return None;
                    },
                }
            },
            None => {
                match parse_line(rem) {
                    Some(h) => {
                        let ghost hv = h@;
                        let Header { name, value } = h;
                        acc.put(name, value);
                        proof {
                            assert(parse_header_block(rem@) == Some(seq![hv]));
                        }
                        return Some(acc);
                    },
                    None => {
                        return None;
                    },
                }
            },
        }
    }
}

/// Decodes a raw byte buffer into a `Request`, or reports the first grammar
/// violation by name.
pub fn decode(input: &[u8]) -> (r: Result<Request, DecodeError>)
    ensures
        match r {
            Ok(req) => spec_decode(input@) == Ok::<RequestView, DecodeError>(req@),
            Err(e) => spec_decode(input@) == Err::<RequestView, DecodeError>(e),
        },
{
    let i = match find2(input, 0, CR, LF) {
        Some(i) => i,
        None => {
            return Err(DecodeError::MalformedRequestLine);
        },
    };
    let line: &[u8] = &input[0..i];
    let a0 = skip_ws_exec(line, 0);
    let a1 = skip_tok_exec(line, a0);
    let b0 = skip_ws_exec(line, a1);
    let b1 = skip_tok_exec(line, b0);
    let c0 = skip_ws_exec(line, b1);
    let c1 = skip_tok_exec(line, c0);
    if c0 >= line.len() {
        return Err(DecodeError::MalformedRequestLine);
    }
    let m = match Method::from_bytes(&line[a0..a1]) {
        Some(m) => m,
        None => {
            return Err(DecodeError::UnknownMethod);
        },
    };
    let path = slice_to_vec(&line[b0..b1]);
    let version = slice_to_vec(&line[c0..c1]);
    let input_len = input.len();
    let rest: &[u8] = &input[i + 2..input_len];
    if rest.len() >= 2 && rest[0] == CR && rest[1] == LF {
        let body = slice_to_vec(&rest[2..rest.len()]);
        let req = Request { method: m, path, version, headers: Headers::new(), body };
        return Ok(req);
    }
    let j = match find_blank(rest, 0) {
        Some(j) => j,
        None => {
            return Err(DecodeError::MalformedHeaders);
        },
    };
    let block: &[u8] = &rest[0..j];
    let headers = match parse_block(block) {
        Some(h) => h,
        None => {
            return Err(DecodeError::MalformedHeaderLine);
        },
    };
    let body = slice_to_vec(&rest[j + 4..rest.len()]);
    Ok(Request { method: m, path, version, headers, body })
}

impl Request {
    /// Decodes a request given as a string; the bytes the decoder sees are
    /// the string's UTF-8 bytes.
    pub fn from_str(s: &str) -> (r: Result<Request, DecodeError>)
        ensures
            match r {
                Ok(req) => spec_decode(s.spec_bytes()) == Ok::<RequestView, DecodeError>(req@),
                Err(e) => spec_decode(s.spec_bytes()) == Err::<RequestView, DecodeError>(e),
            },
    {
        decode(s.as_bytes())
    }
}

} // verus!
