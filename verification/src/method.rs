//! The HTTP request methods the engine recognizes, and the (case-sensitive,
//! exact) mapping from a method token to them.

use vstd::prelude::*;
use vstd::string::StringSliceAdditionalSpecFns;

verus! {

/// The seven recognized HTTP methods.
#[derive(Clone, Copy, PartialEq, Eq, Structural, Debug)]
pub enum Method {
    GET,
    POST,
    PUT,
    PATCH,
    DELETE,
    OPTIONS,
    HEAD,
}

/// The method a token names, if any: a case-sensitive exact match against the
/// seven recognized spellings.
pub open spec fn method_token(s: Seq<u8>) -> Option<Method> {
    if s == seq![71u8, 69u8, 84u8] {
        Some(Method::GET)
    } else if s == seq![80u8, 79u8, 83u8, 84u8] {
        Some(Method::POST)
    } else if s == seq![80u8, 85u8, 84u8] {
        Some(Method::PUT)
    } else if s == seq![80u8, 65u8, 84u8, 67u8, 72u8] {
        Some(Method::PATCH)
    } else if s == seq![68u8, 69u8, 76u8, 69u8, 84u8, 69u8] {
        Some(Method::DELETE)
    } else if s == seq![79u8, 80u8, 84u8, 73u8, 79u8, 78u8, 83u8] {
        Some(Method::OPTIONS)
    } else if s == seq![72u8, 69u8, 65u8, 68u8] {
        Some(Method::HEAD)
    } else {
        None
    }
}

impl Method {
    /// Maps a method token, given as bytes, to the `Method` it names.
    pub fn from_bytes(b: &[u8]) -> (r: Option<Method>)
        ensures
            r == method_token(b@),
    {
        let n = b.len();
        if n == 3 && b[0] == 71u8 && b[1] == 69u8 && b[2] == 84u8 {
            proof {
                assert(b@ =~= seq![71u8, 69u8, 84u8]);
            }
            Some(Method::GET)
        } else if n == 4 && b[0] == 80u8 && b[1] == 79u8 && b[2] == 83u8 && b[3] == 84u8 {
            proof {
                assert(b@ =~= seq![80u8, 79u8, 83u8, 84u8]);
            }
            Some(Method::POST)
        } else if n == 3 && b[0] == 80u8 && b[1] == 85u8 && b[2] == 84u8 {
            proof {
                assert(b@ =~= seq![80u8, 85u8, 84u8]);
            }
            Some(Method::PUT)
        } else if n == 5 && b[0] == 80u8 && b[1] == 65u8 && b[2] == 84u8 && b[3] == 67u8
            && b[4] == 72u8 {
            proof {
                assert(b@ =~= seq![80u8, 65u8, 84u8, 67u8, 72u8]);
            }
            Some(Method::PATCH)
        } else if n == 6 && b[0] == 68u8 && b[1] == 69u8 && b[2] == 76u8 && b[3] == 69u8
            && b[4] == 84u8 && b[5] == 69u8 {
            proof {
                assert(b@ =~= seq![68u8, 69u8, 76u8, 69u8, 84u8, 69u8]);
            }
            Some(Method::DELETE)
        } else if n == 7 && b[0] == 79u8 && b[1] == 80u8 && b[2] == 84u8 && b[3] == 73u8
            && b[4] == 79u8 && b[5] == 78u8 && b[6] == 83u8 {
            proof {
                assert(b@ =~= seq![79u8, 80u8, 84u8, 73u8, 79u8, 78u8, 83u8]);
            }
            Some(Method::OPTIONS)
        } else if n == 4 && b[0] == 72u8 && b[1] == 69u8 && b[2] == 65u8 && b[3] == 68u8 {
            proof {
                assert(b@ =~= seq![72u8, 69u8, 65u8, 68u8]);
            }
            Some(Method::HEAD)
        } else {
            None
        }
    }

    /// Maps a method token, given as a string, to the `Method` it names.
    pub fn from_str(s: &str) -> (r: Option<Method>)
        ensures
            r == method_token(s.spec_bytes()),
    {
        Method::from_bytes(s.as_bytes())
    }
}

} // verus!
