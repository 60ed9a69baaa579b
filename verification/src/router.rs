//! The fixed route table: a pure function from (method, path) to a handler
//! identifier. Prefixes are disjoint, and any unmatched combination --
//! including a matching path with the wrong method -- falls through to
//! `NotFound`; there is no method-not-allowed distinction.

use vstd::prelude::*;
use crate::method::Method;
use crate::scan::{bytes_eq, has_prefix, starts_with};

verus! {

/// The handler an incoming (method, path) pair resolves to.
#[derive(Clone, Copy, PartialEq, Eq, Structural, Debug)]
pub enum HandlerId {
    Root,
    UserAgent,
    Echo,
    FileRead,
    FileWrite,
    NotFound,
}

/// The path `/` as bytes.
pub open spec fn root_path() -> Seq<u8> {
    seq![47u8]
}

/// The path `/user-agent` as bytes.
pub open spec fn user_agent_path() -> Seq<u8> {
    seq![47u8, 117u8, 115u8, 101u8, 114u8, 45u8, 97u8, 103u8, 101u8, 110u8, 116u8]
}

/// The prefix `/echo/` as bytes.
pub open spec fn echo_prefix() -> Seq<u8> {
    seq![47u8, 101u8, 99u8, 104u8, 111u8, 47u8]
}

/// The prefix `/files/` as bytes.
pub open spec fn files_prefix() -> Seq<u8> {
    seq![47u8, 102u8, 105u8, 108u8, 101u8, 115u8, 47u8]
}

/// Runtime copy of `root_path`.
pub fn root_path_vec() -> (v: Vec<u8>)
    ensures
        v@ == root_path(),
{
    let v: Vec<u8> = vec![47u8];
    proof {
        assert(v@ =~= root_path());
    }
    v
}

/// Runtime copy of `user_agent_path`.
pub fn user_agent_path_vec() -> (v: Vec<u8>)
    ensures
        v@ == user_agent_path(),
{
    let v: Vec<u8> = vec![47u8, 117u8, 115u8, 101u8, 114u8, 45u8, 97u8, 103u8, 101u8, 110u8, 116u8];
    proof {
        assert(v@ =~= user_agent_path());
    }
    v
}

/// Runtime copy of `echo_prefix`.
pub fn echo_prefix_vec() -> (v: Vec<u8>)
    ensures
        v@ == echo_prefix(),
{
    let v: Vec<u8> = vec![47u8, 101u8, 99u8, 104u8, 111u8, 47u8];
    proof {
        assert(v@ =~= echo_prefix());
    }
    v
}

/// Runtime copy of `files_prefix`.
pub fn files_prefix_vec() -> (v: Vec<u8>)
    ensures
        v@ == files_prefix(),
{
    let v: Vec<u8> = vec![47u8, 102u8, 105u8, 108u8, 101u8, 115u8, 47u8];
    proof {
        assert(v@ =~= files_prefix());
    }
    v
}

/// The route table as a pure function of (method, path).
pub open spec fn spec_route(m: Method, path: Seq<u8>) -> HandlerId {
    if m == Method::GET && path == root_path() {
        HandlerId::Root
    } else if m == Method::GET && path == user_agent_path() {
        HandlerId::UserAgent
    } else if m == Method::GET && has_prefix(path, echo_prefix()) {
        HandlerId::Echo
    } else if m == Method::GET && has_prefix(path, files_prefix()) {
        HandlerId::FileRead
    } else if m == Method::POST && has_prefix(path, files_prefix()) {
        HandlerId::FileWrite
    } else {
        HandlerId::NotFound
    }
}

/// Dispatch is a pure, deterministic function of (method, path): equal
/// arguments always resolve to equal handler identifiers.
pub proof fn lemma_route_deterministic(m1: Method, p1: Seq<u8>, m2: Method, p2: Seq<u8>)
    requires
        m1 == m2,
        p1 == p2,
    ensures
        spec_route(m1, p1) == spec_route(m2, p2),
{
}

/// Resolves a (method, path) pair against the route table. Dispatch is a
/// pure, deterministic function: two calls on equal arguments return the
/// same handler identifier, because the result equals `spec_route` of the
/// arguments alone.
pub fn route(m: Method, path: &[u8]) -> (r: HandlerId)
    ensures
        r == spec_route(m, path@),
{
    match m {
        Method::GET => {
            let root = root_path_vec();
            if bytes_eq(path, root.as_slice()) {
                return HandlerId::Root;
            }
            let ua = user_agent_path_vec();
            if bytes_eq(path, ua.as_slice()) {
                return HandlerId::UserAgent;
            }
            let echo = echo_prefix_vec();
            if starts_with(path, echo.as_slice()) {
                return HandlerId::Echo;
            }
            let files = files_prefix_vec();
            if starts_with(path, files.as_slice()) {
                return HandlerId::FileRead;
            }
            HandlerId::NotFound
        },
        Method::POST => {
            let files = files_prefix_vec();
            if starts_with(path, files.as_slice()) {
                return HandlerId::FileWrite;
            }
            HandlerId::NotFound
        },
        _ => HandlerId::NotFound,
    }
}

} // verus!
