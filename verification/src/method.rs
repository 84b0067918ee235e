//! The closed set of HTTP verbs and the classifier that maps a token to one.

use vstd::prelude::*;
use crate::text::str_eq;

verus! {

/// An HTTP verb out of the closed set the parser recognises.
#[allow(non_camel_case_types)]
#[derive(Clone, Copy, Debug, PartialEq, Eq, Structural)]
pub enum Method {
    GET,
    DELETE,
    POST,
    PUT,
    HEAD,
    CONNECT,
    OPTIONS,
    TRACE,
    PATCH,
}

/// The failure of the classifier: the token names no known verb.
#[derive(Clone, Copy, Debug, PartialEq, Eq, Structural)]
pub struct MethodError;

/// The verb a token names, if any. Matching is exact and case-sensitive.
pub open spec fn method_of(s: Seq<char>) -> Option<Method> {
    if s == "GET"@ {
        Some(Method::GET)
    } else if s == "DELETE"@ {
        Some(Method::DELETE)
    } else if s == "POST"@ {
        Some(Method::POST)
    } else if s == "PUT"@ {
        Some(Method::PUT)
    } else if s == "HEAD"@ {
        Some(Method::HEAD)
    } else if s == "CONNECT"@ {
        Some(Method::CONNECT)
    } else if s == "OPTIONS"@ {
        Some(Method::OPTIONS)
    } else if s == "TRACE"@ {
        Some(Method::TRACE)
    } else if s == "PATCH"@ {
        Some(Method::PATCH)
    } else {
        None
    }
}

/// The token that names a verb.
pub open spec fn token_of(m: Method) -> Seq<char> {
    match m {
        Method::GET => "GET"@,
        Method::DELETE => "DELETE"@,
        Method::POST => "POST"@,
        Method::PUT => "PUT"@,
        Method::HEAD => "HEAD"@,
        Method::CONNECT => "CONNECT"@,
        Method::OPTIONS => "OPTIONS"@,
        Method::TRACE => "TRACE"@,
        Method::PATCH => "PATCH"@,
    }
}

/// A token that the classifier accepts is the token of the verb it returns.
pub proof fn lemma_method_of_token(s: Seq<char>, m: Method)
    requires
        method_of(s) == Some(m),
    ensures
        s == token_of(m),
{
}

/// Classifying the token of a verb gives that verb back, and every verb
/// token consists of upper-case ASCII letters alone.
pub proof fn lemma_method_token(m: Method)
    ensures
        method_of(token_of(m)) == Some(m),
        forall|i: int| 0 <= i < token_of(m).len() ==> 'A' <= #[trigger] token_of(m)[i] <= 'Z',
{
    reveal_strlit("GET");
    reveal_strlit("DELETE");
    reveal_strlit("POST");
    reveal_strlit("PUT");
    reveal_strlit("HEAD");
    reveal_strlit("CONNECT");
    reveal_strlit("OPTIONS");
    reveal_strlit("TRACE");
    reveal_strlit("PATCH");
    assert("GET"@.len() == 3 && "GET"@[0] == 'G');
    assert("DELETE"@.len() == 6 && "DELETE"@[0] == 'D');
    assert("POST"@.len() == 4 && "POST"@[0] == 'P');
    assert("PUT"@.len() == 3 && "PUT"@[0] == 'P');
    assert("HEAD"@.len() == 4 && "HEAD"@[0] == 'H');
    assert("CONNECT"@.len() == 7 && "CONNECT"@[0] == 'C');
    assert("OPTIONS"@.len() == 7 && "OPTIONS"@[0] == 'O');
    assert("TRACE"@.len() == 5 && "TRACE"@[0] == 'T');
    assert("PATCH"@.len() == 5 && "PATCH"@[0] == 'P');
    match m {
        Method::GET => {
            assert(method_of("GET"@) == Some(Method::GET));
        },
        Method::DELETE => {
            assert(method_of("DELETE"@) == Some(Method::DELETE));
        },
        Method::POST => {
            assert(method_of("POST"@) == Some(Method::POST));
        },
        Method::PUT => {
            assert(method_of("PUT"@) == Some(Method::PUT));
        },
        Method::HEAD => {
            assert(method_of("HEAD"@) == Some(Method::HEAD));
        },
        Method::CONNECT => {
            assert(method_of("CONNECT"@) == Some(Method::CONNECT));
        },
        Method::OPTIONS => {
            assert(method_of("OPTIONS"@) == Some(Method::OPTIONS));
        },
        Method::TRACE => {
            assert(method_of("TRACE"@) == Some(Method::TRACE));
        },
        Method::PATCH => {
            assert(method_of("PATCH"@) == Some(Method::PATCH));
        },
    }
}

impl Method {
    /// Classifies a verb token; any token outside the closed set is rejected.
    pub fn from_str(s: &str) -> (r: Result<Method, MethodError>)
        ensures
            match method_of(s@) {
                Some(m) => r == Ok::<Method, MethodError>(m),
                None => r == Err::<Method, MethodError>(MethodError),
            },
    {
        if str_eq(s, "GET") {
            Ok(Method::GET)
        } else if str_eq(s, "DELETE") {
            Ok(Method::DELETE)
        } else if str_eq(s, "POST") {
            Ok(Method::POST)
        } else if str_eq(s, "PUT") {
            Ok(Method::PUT)
        } else if str_eq(s, "HEAD") {
            Ok(Method::HEAD)
        } else if str_eq(s, "CONNECT") {
            Ok(Method::CONNECT)
        } else if str_eq(s, "OPTIONS") {
            Ok(Method::OPTIONS)
        } else if str_eq(s, "TRACE") {
            Ok(Method::TRACE)
        } else if str_eq(s, "PATCH") {
            Ok(Method::PATCH)
        } else {
            Err(MethodError)
        }
    }
}

} // verus!
