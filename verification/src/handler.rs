//! The handlers behind the route table, folded into one dispatch step.
//!
//! `dispatch` is the pure decision: it turns a decoded request into either a
//! finished response or a filesystem action (read or write under an external
//! root). The caller performs the action and hands the outcome to
//! `file_read_response` / `file_write_response` for the final response. A
//! missing required header becomes a structured 400-class response rather
//! than a failure, and responses produced on error paths carry the fixed
//! `HTTP/1.1` version token, as the wire strings of the error paths always
//! did.

use vstd::prelude::*;
use vstd::slice::slice_to_vec;
use crate::headers::{Headers, map_of};
use crate::scan::push_bytes;
use crate::request::{Request, RequestView, decode, spec_decode};
use crate::response::{Response, ResponseView};
use crate::router::{HandlerId, echo_prefix, files_prefix, spec_route, route, echo_prefix_vec,
    files_prefix_vec};

verus! {

/// The version token `HTTP/1.1` as bytes.
pub open spec fn http11() -> Seq<u8> {
    seq![72u8, 84u8, 84u8, 80u8, 47u8, 49u8, 46u8, 49u8]
}

/// The status line text `200 OK` as bytes.
pub open spec fn st_ok() -> Seq<u8> {
    seq![50u8, 48u8, 48u8, 32u8, 79u8, 75u8]
}

/// The status line text `201 Created` as bytes.
pub open spec fn st_created() -> Seq<u8> {
    seq![50u8, 48u8, 49u8, 32u8, 67u8, 114u8, 101u8, 97u8, 116u8, 101u8, 100u8]
}

/// The status line text `404 Not Found` as bytes.
pub open spec fn st_not_found() -> Seq<u8> {
    seq![52u8, 48u8, 52u8, 32u8, 78u8, 111u8, 116u8, 32u8, 70u8, 111u8, 117u8, 110u8, 100u8]
}

/// The status line text `400 Bad Request` as bytes.
pub open spec fn st_bad_request() -> Seq<u8> {
    seq![52u8, 48u8, 48u8, 32u8, 66u8, 97u8, 100u8, 32u8, 82u8, 101u8, 113u8, 117u8, 101u8,
        115u8, 116u8]
}

/// The status line text `500 Internal Server Error` as bytes.
pub open spec fn st_server_error() -> Seq<u8> {
    seq![53u8, 48u8, 48u8, 32u8, 73u8, 110u8, 116u8, 101u8, 114u8, 110u8, 97u8, 108u8, 32u8,
        83u8, 101u8, 114u8, 118u8, 101u8, 114u8, 32u8, 69u8, 114u8, 114u8, 111u8, 114u8]
}

/// The header name `Content-Type` as bytes.
pub open spec fn h_content_type() -> Seq<u8> {
    seq![67u8, 111u8, 110u8, 116u8, 101u8, 110u8, 116u8, 45u8, 84u8, 121u8, 112u8, 101u8]
}

/// The header name `Content-Length` as bytes.
pub open spec fn h_content_length() -> Seq<u8> {
    seq![67u8, 111u8, 110u8, 116u8, 101u8, 110u8, 116u8, 45u8, 76u8, 101u8, 110u8, 103u8,
        116u8, 104u8]
}

/// The header name `Content-Encoding` as bytes.
pub open spec fn h_content_encoding() -> Seq<u8> {
    seq![67u8, 111u8, 110u8, 116u8, 101u8, 110u8, 116u8, 45u8, 69u8, 110u8, 99u8, 111u8,
        100u8, 105u8, 110u8, 103u8]
}

/// The header name `User-Agent` as bytes.
pub open spec fn h_user_agent() -> Seq<u8> {
    seq![85u8, 115u8, 101u8, 114u8, 45u8, 65u8, 103u8, 101u8, 110u8, 116u8]
}

/// The header name `Accept-Encoding` as bytes.
pub open spec fn h_accept_encoding() -> Seq<u8> {
    seq![65u8, 99u8, 99u8, 101u8, 112u8, 116u8, 45u8, 69u8, 110u8, 99u8, 111u8, 100u8, 105u8,
        110u8, 103u8]
}

/// The header value `text/plain` as bytes.
pub open spec fn v_text_plain() -> Seq<u8> {
    seq![116u8, 101u8, 120u8, 116u8, 47u8, 112u8, 108u8, 97u8, 105u8, 110u8]
}

/// The header value `application/octet-stream` as bytes.
pub open spec fn v_octet_stream() -> Seq<u8> {
    seq![97u8, 112u8, 112u8, 108u8, 105u8, 99u8, 97u8, 116u8, 105u8, 111u8, 110u8, 47u8,
        111u8, 99u8, 116u8, 101u8, 116u8, 45u8, 115u8, 116u8, 114u8, 101u8, 97u8, 109u8]
}

/// The header value (and token) `gzip` as bytes.
pub open spec fn v_gzip() -> Seq<u8> {
    seq![103u8, 122u8, 105u8, 112u8]
}

/// The bytes `gzip` occur in `s` at index `i`.
pub open spec fn gzip_at(s: Seq<u8>, i: int) -> bool {
    0 <= i && i + 4 <= s.len() && s[i] == 103 && s[i + 1] == 122 && s[i + 2] == 105 && s[i + 3]
        == 112
}

/// `s` contains `gzip` somewhere (a substring match, not token-list parsing).
pub open spec fn contains_gzip(s: Seq<u8>) -> bool {
    exists|i: int| gzip_at(s, i)
}

/// Substring search for `gzip`.
pub fn contains_gzip_exec(v: &[u8]) -> (r: bool)
    ensures
        r == contains_gzip(v@),
{
    let n = v.len();
    let mut i: usize = 0;
    while n - i > 3
        invariant
            i <= n,
            n == v@.len(),
            forall|j: int| 0 <= j < i ==> !gzip_at(v@, j),
        decreases n - i,
    {
        if v[i] == 103 && v[i + 1] == 122 && v[i + 2] == 105 && v[i + 3] == 112 {
            assert(gzip_at(v@, i as int));
            return true;
        }
        i = i + 1;
    }
    proof {
        assert(forall|j: int| j >= i ==> !gzip_at(v@, j));
    }
    false
}

/// The decimal digits of `n`, most significant first.
pub open spec fn dec_of(n: nat) -> Seq<u8>
    decreases n,
{
    if n < 10 {
        seq![(48 + n) as u8]
    } else {
        dec_of(n / 10) + seq![(48 + n % 10) as u8]
    }
}

/// Renders `n` in decimal.
pub fn dec_vec(n: usize) -> (v: Vec<u8>)
    ensures
        v@ == dec_of(n as nat),
    decreases n,
{
    if n < 10 {
        let v: Vec<u8> = vec![48 + n as u8];
        proof {
            assert(v@ =~= dec_of(n as nat));
        }
        v
    } else {
        let mut v = dec_vec(n / 10);
        v.push(48 + (n % 10) as u8);
        proof {
            assert(v@ =~= dec_of(n as nat));
        }
        v
    }
}

/// A `404 Not Found` response with no headers and no body.
pub open spec fn not_found_view() -> ResponseView {
    ResponseView { version: http11(), status: st_not_found(), headers: Seq::empty(), body: Seq::empty() }
}

/// A `400 Bad Request` response with no headers and no body.
pub open spec fn bad_request_view() -> ResponseView {
    ResponseView { version: http11(), status: st_bad_request(), headers: Seq::empty(), body: Seq::empty() }
}

/// A `201 Created` response with no headers and no body.
pub open spec fn created_view() -> ResponseView {
    ResponseView { version: http11(), status: st_created(), headers: Seq::empty(), body: Seq::empty() }
}

/// A `500 Internal Server Error` response with no headers and no body.
pub open spec fn server_error_view() -> ResponseView {
    ResponseView { version: http11(), status: st_server_error(), headers: Seq::empty(), body: Seq::empty() }
}

/// What dispatching a request decides: a finished response, or a filesystem
/// action for the caller to perform.
pub enum Action {
    /// Write this response back.
    Respond(Response),
    /// Read the file with this name (relative to the external root); then
    /// build the response with `file_read_response`, handing the request's
    /// version token back in.
    ReadFile(Vec<u8>, Vec<u8>),
    /// Create or truncate the file with this name and write these bytes;
    /// then build the response with `file_write_response`.
    WriteFile(Vec<u8>, Vec<u8>),
}

/// The mathematical content of an `Action`.
#[verifier::ext_equal]
pub ghost enum ActionView {
    Respond(ResponseView),
    ReadFile(Seq<u8>, Seq<u8>),
    WriteFile(Seq<u8>, Seq<u8>),
}

impl View for Action {
    type V = ActionView;

    open spec fn view(&self) -> ActionView {
        match self {
            Action::Respond(r) => ActionView::Respond(r@),
            Action::ReadFile(version, name) => ActionView::ReadFile(version@, name@),
            Action::WriteFile(name, data) => ActionView::WriteFile(name@, data@),
        }
    }
}

/// The exact decision for each route: what response each handler returns,
/// or which file name a file route resolves to.
pub open spec fn spec_dispatch(r: RequestView) -> ActionView {
    match spec_route(r.method, r.path) {
        HandlerId::Root => ActionView::Respond(ResponseView {
            version: r.version,
            status: st_ok(),
            headers: Seq::empty(),
            body: Seq::empty(),
        }),
        HandlerId::UserAgent => {
            let hm = map_of(r.headers);
            if hm.contains_key(h_user_agent()) {
                let ua = hm[h_user_agent()];
                ActionView::Respond(ResponseView {
                    version: r.version,
                    status: st_ok(),
                    headers: seq![
                        (h_content_type(), v_text_plain()),
                        (h_content_length(), dec_of(ua.len())),
                    ],
                    body: ua,
                })
            } else {
                ActionView::Respond(bad_request_view())
            }
        },
        HandlerId::Echo => {
            let payload = r.path.subrange(echo_prefix().len() as int, r.path.len() as int);
            let hm = map_of(r.headers);
            let gz = hm.contains_key(h_accept_encoding()) && contains_gzip(
                hm[h_accept_encoding()],
            );
            let base = seq![
                (h_content_type(), v_text_plain()),
                (h_content_length(), dec_of(payload.len())),
            ];
            ActionView::Respond(ResponseView {
                version: r.version,
                status: st_ok(),
                headers: if gz {
                    seq![(h_content_encoding(), v_gzip())] + base
                } else {
                    base
                },
                body: payload,
            })
        },
        HandlerId::FileRead => ActionView::ReadFile(
            r.version,
            r.path.subrange(files_prefix().len() as int, r.path.len() as int),
        ),
        HandlerId::FileWrite => ActionView::WriteFile(
            r.path.subrange(files_prefix().len() as int, r.path.len() as int),
            r.body,
        ),
        HandlerId::NotFound => ActionView::Respond(not_found_view()),
    }
}

/// Runtime copy of `http11`.
pub fn http11_vec() -> (v: Vec<u8>)
    ensures
        v@ == http11(),
{
    let v: Vec<u8> = vec![72u8, 84u8, 84u8, 80u8, 47u8, 49u8, 46u8, 49u8];
    proof {
        assert(v@ =~= http11());
    }
    v
}

/// Builds the `Content-Type` and `Content-Length` headers every 200-class
/// handler response carries, for the given content type and length.
fn typed_headers(ctype: Vec<u8>, len: usize) -> (h: Headers)
    ensures
        h@ == seq![(h_content_type(), ctype@), (h_content_length(), dec_of(len as nat))],
{
    let mut h = Headers::new();
    let name: Vec<u8> = vec![67u8, 111u8, 110u8, 116u8, 101u8, 110u8, 116u8, 45u8, 84u8, 121u8,
        112u8, 101u8];
    proof {
        assert(name@ =~= h_content_type());
    }
    let ghost ctv = ctype@;
    h.put(name, ctype);
    let name2: Vec<u8> = vec![67u8, 111u8, 110u8, 116u8, 101u8, 110u8, 116u8, 45u8, 76u8,
        101u8, 110u8, 103u8, 116u8, 104u8];
    proof {
        assert(name2@ =~= h_content_length());
    }
    h.put(name2, dec_vec(len));
    proof {
        assert(h@ =~= seq![(h_content_type(), ctv), (h_content_length(), dec_of(len as nat))]);
    }
    h
}

/// Dispatches a decoded request: resolves the route and runs the pure part
/// of its handler.
pub fn dispatch(req: Request) -> (a: Action)
    ensures
        a@ == spec_dispatch(req@),
{
    let h = route(req.method, req.path.as_slice());
    match h {
        HandlerId::Root => {
            let st: Vec<u8> = vec![50u8, 48u8, 48u8, 32u8, 79u8, 75u8];
            proof {
                assert(st@ =~= st_ok());
            }
            Action::Respond(Response {
                version: req.version,
                status: st,
                headers: Headers::new(),
                body: Vec::new(),
            })
        },
        HandlerId::UserAgent => {
            let key: Vec<u8> = vec![85u8, 115u8, 101u8, 114u8, 45u8, 65u8, 103u8, 101u8, 110u8,
                116u8];
            proof {
                assert(key@ =~= h_user_agent());
            }
            match req.headers.get(key.as_slice()) {
                Some(ua) => {
                    let body = slice_to_vec(ua.as_slice());
                    let ctype: Vec<u8> = vec![116u8, 101u8, 120u8, 116u8, 47u8, 112u8, 108u8,
                        97u8, 105u8, 110u8];
                    proof {
                        assert(ctype@ =~= v_text_plain());
                    }
                    let n = body.len();
                    let headers = typed_headers(ctype, n);
                    let st: Vec<u8> = vec![50u8, 48u8, 48u8, 32u8, 79u8, 75u8];
                    proof {
                        assert(st@ =~= st_ok());
                        assert(headers@ =~= seq![
                            (h_content_type(), v_text_plain()),
                            (h_content_length(), dec_of(body@.len())),
                        ]);
                    }
                    Action::Respond(Response { version: req.version, status: st, headers, body })
                },
                None => Action::Respond(bad_request_response()),
            }
        },
        HandlerId::Echo => {
            let prefix = echo_prefix_vec();
            let k = prefix.len();
            let path_len = req.path.len();
            let payload = slice_to_vec(&req.path.as_slice()[k..path_len]);
            let gz = {
                let akey: Vec<u8> = vec![65u8, 99u8, 99u8, 101u8, 112u8, 116u8, 45u8, 69u8,
                    110u8, 99u8, 111u8, 100u8, 105u8, 110u8, 103u8];
                proof {
                    assert(akey@ =~= h_accept_encoding());
                }
                match req.headers.get(akey.as_slice()) {
                    Some(v) => contains_gzip_exec(v.as_slice()),
                    None => false,
                }
            };
            let ctype: Vec<u8> = vec![116u8, 101u8, 120u8, 116u8, 47u8, 112u8, 108u8, 97u8,
                105u8, 110u8];
            proof {
                assert(ctype@ =~= v_text_plain());
            }
            let n = payload.len();
            let mut headers = Headers::new();
            if gz {
                let ename: Vec<u8> = vec![67u8, 111u8, 110u8, 116u8, 101u8, 110u8, 116u8, 45u8,
                    69u8, 110u8, 99u8, 111u8, 100u8, 105u8, 110u8, 103u8];
                let gzip: Vec<u8> = vec![103u8, 122u8, 105u8, 112u8];
                proof {
                    assert(ename@ =~= h_content_encoding());
                    assert(gzip@ =~= v_gzip());
                }
                headers.put(ename, gzip);
            }
            let tname: Vec<u8> = vec![67u8, 111u8, 110u8, 116u8, 101u8, 110u8, 116u8, 45u8,
                84u8, 121u8, 112u8, 101u8];
            proof {
                assert(tname@ =~= h_content_type());
            }
            headers.put(tname, ctype);
            let lname: Vec<u8> = vec![67u8, 111u8, 110u8, 116u8, 101u8, 110u8, 116u8, 45u8,
                76u8, 101u8, 110u8, 103u8, 116u8, 104u8];
            proof {
                assert(lname@ =~= h_content_length());
            }
            headers.put(lname, dec_vec(n));
            let st: Vec<u8> = vec![50u8, 48u8, 48u8, 32u8, 79u8, 75u8];
            proof {
                assert(st@ =~= st_ok());
                let base = seq![
                    (h_content_type(), v_text_plain()),
                    (h_content_length(), dec_of(payload@.len())),
                ];
                if gz {
                    assert(headers@ =~= seq![(h_content_encoding(), v_gzip())] + base);
                } else {
                    assert(headers@ =~= base);
                }
            }
            Action::Respond(Response { version: req.version, status: st, headers, body: payload })
        },
        HandlerId::FileRead => {
            let prefix = files_prefix_vec();
            let k = prefix.len();
            let path_len = req.path.len();
            let name = slice_to_vec(&req.path.as_slice()[k..path_len]);
            Action::ReadFile(req.version, name)
        },
        HandlerId::FileWrite => {
            let prefix = files_prefix_vec();
            let k = prefix.len();
            let path_len = req.path.len();
            let name = slice_to_vec(&req.path.as_slice()[k..path_len]);
            Action::WriteFile(name, req.body)
        },
        HandlerId::NotFound => Action::Respond(not_found_response()),
    }
}

/// A `404 Not Found` response with no headers and no body.
pub fn not_found_response() -> (r: Response)
    ensures
        r@ == not_found_view(),
{
    let st: Vec<u8> = vec![52u8, 48u8, 52u8, 32u8, 78u8, 111u8, 116u8, 32u8, 70u8, 111u8,
        117u8, 110u8, 100u8];
    proof {
        assert(st@ =~= st_not_found());
    }
    Response { version: http11_vec(), status: st, headers: Headers::new(), body: Vec::new() }
}

/// The structured 400-class response for a request that could not be decoded
/// or that lacks a required header.
pub fn bad_request_response() -> (r: Response)
    ensures
        r@ == bad_request_view(),
{
    let st: Vec<u8> = vec![52u8, 48u8, 48u8, 32u8, 66u8, 97u8, 100u8, 32u8, 82u8, 101u8,
        113u8, 117u8, 101u8, 115u8, 116u8];
    proof {
        assert(st@ =~= st_bad_request());
    }
    Response { version: http11_vec(), status: st, headers: Headers::new(), body: Vec::new() }
}

/// The 500-class response for a filesystem failure.
pub fn server_error_response() -> (r: Response)
    ensures
        r@ == server_error_view(),
{
    let st: Vec<u8> = vec![53u8, 48u8, 48u8, 32u8, 73u8, 110u8, 116u8, 101u8, 114u8, 110u8,
        97u8, 108u8, 32u8, 83u8, 101u8, 114u8, 118u8, 101u8, 114u8, 32u8, 69u8, 114u8, 114u8,
        111u8, 114u8];
    proof {
        assert(st@ =~= st_server_error());
    }
    Response { version: http11_vec(), status: st, headers: Headers::new(), body: Vec::new() }
}

/// What a file read resolves to: `Some` contents, or `None` when the file
/// does not exist.
pub open spec fn spec_file_read_response(version: Seq<u8>, contents: Option<Seq<u8>>) -> ResponseView {
    match contents {
        Some(data) => ResponseView {
            version: version,
            status: st_ok(),
            headers: seq![
                (h_content_type(), v_octet_stream()),
                (h_content_length(), dec_of(data.len())),
            ],
            body: data,
        },
        None => not_found_view(),
    }
}

/// Builds the response for a file-read outcome: the contents as an
/// `application/octet-stream` body on success, `404 Not Found` when the file
/// does not exist. (A read that fails although the file exists is a
/// filesystem failure: use `server_error_response`.)
pub fn file_read_response(version: Vec<u8>, contents: Option<Vec<u8>>) -> (r: Response)
    ensures
        r@ == spec_file_read_response(
            version@,
            match contents {
                Some(data) => Some(data@),
                None => None,
            },
        ),
{
    match contents {
        Some(data) => {
            let ctype: Vec<u8> = vec![97u8, 112u8, 112u8, 108u8, 105u8, 99u8, 97u8, 116u8,
                105u8, 111u8, 110u8, 47u8, 111u8, 99u8, 116u8, 101u8, 116u8, 45u8, 115u8,
                116u8, 114u8, 101u8, 97u8, 109u8];
            proof {
                assert(ctype@ =~= v_octet_stream());
            }
            let mut headers = Headers::new();
            let tname: Vec<u8> = vec![67u8, 111u8, 110u8, 116u8, 101u8, 110u8, 116u8, 45u8,
                84u8, 121u8, 112u8, 101u8];
            proof {
                assert(tname@ =~= h_content_type());
            }
            headers.put(tname, ctype);
            let lname: Vec<u8> = vec![67u8, 111u8, 110u8, 116u8, 101u8, 110u8, 116u8, 45u8,
                76u8, 101u8, 110u8, 103u8, 116u8, 104u8];
            proof {
                assert(lname@ =~= h_content_length());
            }
            let n = data.len();
            headers.put(lname, dec_vec(n));
            let st: Vec<u8> = vec![50u8, 48u8, 48u8, 32u8, 79u8, 75u8];
            proof {
                assert(st@ =~= st_ok());
                assert(headers@ =~= seq![
                    (h_content_type(), v_octet_stream()),
                    (h_content_length(), dec_of(data@.len())),
                ]);
            }
            Response { version, status: st, headers, body: data }
        },
        None => not_found_response(),
    }
}

/// What one buffered exchange decides, before any filesystem work: the
/// dispatch of the decoded request, or the structured 400-class response
/// when the buffer violates the request grammar.
pub open spec fn spec_handle_buffer(s: Seq<u8>) -> ActionView {
    match spec_decode(s) {
        Ok(req) => spec_dispatch(req),
        Err(_) => ActionView::Respond(bad_request_view()),
    }
}

/// Runs one exchange up to its filesystem action: decodes the buffer and
/// dispatches, turning a decode failure into the 400-class response instead
/// of failing.
pub fn handle_buffer(input: &[u8]) -> (a: Action)
    ensures
        a@ == spec_handle_buffer(input@),
{
    match decode(input) {
        Ok(req) => dispatch(req),
        Err(_) => Action::Respond(bad_request_response()),
    }
}

/// Joins the externally configured root directory and a relative file name
/// the way the file routes expect: plain concatenation.
pub fn join_path(dir: &[u8], name: &[u8]) -> (v: Vec<u8>)
    ensures
        v@ == dir@ + name@,
{
    let mut v = slice_to_vec(dir);
    push_bytes(&mut v, name);
    v
}

/// Builds the response for a file-write outcome: `201 Created` on success,
/// the 500-class response when the write failed.
pub fn file_write_response(ok: bool) -> (r: Response)
    ensures
        r@ == if ok {
            created_view()
        } else {
            server_error_view()
        },
{
    if ok {
        let st: Vec<u8> = vec![50u8, 48u8, 49u8, 32u8, 67u8, 114u8, 101u8, 97u8, 116u8, 101u8,
            100u8];
        proof {
            assert(st@ =~= st_created());
        }
        Response { version: http11_vec(), status: st, headers: Headers::new(), body: Vec::new() }
    } else {
        server_error_response()
    }
}

} // verus!
