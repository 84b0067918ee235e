//! The request-line parser: from a raw byte buffer to a structured request.

use vstd::prelude::*;
use vstd::string::StringSliceAdditionalSpecFns;
use vstd::utf8::decode_utf8;
use vstd::utf8::encode_utf8_decode_utf8;
use vstd::utf8::valid_utf8;
use crate::method::Method;
use crate::method::lemma_method_of_token;
use crate::method::lemma_method_token;
use crate::method::method_of;
use crate::method::token_of;
use crate::text::find_first;
use crate::text::lemma_find_first;
use crate::text::lemma_find_first_at;
use crate::text::lemma_find_first_concat;
use crate::text::lemma_find_first_none;
use crate::text::str_eq;

verus! {

/// The ways parsing a request line can fail.
#[derive(Clone, Copy, Debug, PartialEq, Eq, Structural)]
pub enum ParseError {
    /// A required token (method, path or protocol) is missing.
    InvalidRequest,
    /// The buffer is not valid UTF-8 text.
    InvalidEncoding,
    /// The protocol token is present but is not exactly `HTTP/1.1`.
    InvalidProtocol,
    /// The method token names no known verb.
    InvalidMethod,
}

/// A token delimiter of the request line.
pub open spec fn is_delim(c: char) -> bool {
    c == ' ' || c == '\r'
}

/// The token-delimiter predicate, as a value for `find_first`.
pub open spec fn delim_pred() -> spec_fn(char) -> bool {
    |c: char| is_delim(c)
}

/// The position of the first token delimiter of `s`.
pub open spec fn first_delim(s: Seq<char>) -> Option<int> {
    find_first(s, delim_pred())
}

/// The query-delimiter predicate, as a value for `find_first`.
pub open spec fn qmark_pred() -> spec_fn(char) -> bool {
    |c: char| c == '?'
}

/// The position of the first `?` of `s`.
pub open spec fn first_qmark(s: Seq<char>) -> Option<int> {
    find_first(s, qmark_pred())
}

/// The first token of `s` and the text after its delimiter, when `s` holds
/// a delimiter; the delimiter lands in neither part.
pub open spec fn split_at_delim(s: Seq<char>) -> Option<(Seq<char>, Seq<char>)> {
    match first_delim(s) {
        Some(i) => Some((s.subrange(0, i), s.subrange(i + 1, s.len() as int))),
        None => None,
    }
}

/// The path and the optional query string of a path token: split at the
/// first `?`, which lands in neither part; without a `?` the whole token
/// is the path and there is no query string.
pub open spec fn split_query(tok: Seq<char>) -> (Seq<char>, Option<Seq<char>>) {
    match first_qmark(tok) {
        Some(i) => (tok.subrange(0, i), Some(tok.subrange(i + 1, tok.len() as int))),
        None => (tok, None),
    }
}

/// The mathematical content of a parsed request.
pub ghost struct ReqSpec {
    /// The characters of the path.
    pub path: Seq<char>,
    /// The characters of the query string, when the path token held a `?`.
    pub query_string: Option<Seq<char>>,
    /// The verb of the request.
    pub method: Method,
}

/// What parsing the text of a request line yields: three tokens are cut at
/// delimiters, the protocol must be exactly `HTTP/1.1`, the method token
/// must name a known verb, and the path token is split at its first `?`.
/// The first failure met during the scan is the one reported.
pub open spec fn parse_spec(s: Seq<char>) -> Result<ReqSpec, ParseError> {
    match split_at_delim(s) {
        None => Err(ParseError::InvalidRequest),
        Some((method_tok, after_method)) => match split_at_delim(after_method) {
            None => Err(ParseError::InvalidRequest),
            Some((path_tok, after_path)) => match split_at_delim(after_path) {
                None => Err(ParseError::InvalidRequest),
                Some((protocol_tok, _)) => if protocol_tok != "HTTP/1.1"@ {
                    Err(ParseError::InvalidProtocol)
                } else {
                    match method_of(method_tok) {
                        None => Err(ParseError::InvalidMethod),
                        Some(m) => Ok(ReqSpec {
                            path: split_query(path_tok).0,
                            query_string: split_query(path_tok).1,
                            method: m,
                        }),
                    }
                },
            },
        },
    }
}

/// What parsing a raw buffer yields: the buffer must decode as UTF-8 in its
/// entirety, and the decoded text is parsed as a request line.
pub open spec fn parse_outcome(bytes: Seq<u8>) -> Result<ReqSpec, ParseError> {
    if valid_utf8(bytes) {
        parse_spec(decode_utf8(bytes))
    } else {
        Err(ParseError::InvalidEncoding)
    }
}

/// A parsed request line. Its string fields are views into the buffer it
/// was parsed from and live no longer than that buffer.
#[derive(Clone, Copy, Debug)]
pub struct Request<'buf> {
    /// The path token up to, and without, its first `?`.
    pub path: &'buf str,
    /// The part of the path token strictly after its first `?`, when one
    /// is present.
    pub query_string: Option<&'buf str>,
    /// The verb of the request.
    pub method: Method,
}

impl<'buf> Request<'buf> {
    /// How a request corresponds to the mathematical content of a parse.
    pub open spec fn models(self, q: ReqSpec) -> bool {
        &&& self.path@ == q.path
        &&& match (self.query_string, q.query_string) {
            (Some(v), Some(w)) => v@ == w,
            (None, None) => true,
            _ => false,
        }
        &&& self.method == q.method
    }

    /// The path of a parsed request never holds the query delimiter.
    pub open spec fn wf(self) -> bool {
        forall|i: int| 0 <= i < self.path@.len() ==> self.path@[i] != '?'
    }
}

/// What `Request::try_from` guarantees of its result for a given buffer:
/// the parse of the buffer succeeds exactly when the operation returns a
/// request, that request carries the parsed components and a well-formed
/// path, and a failure carries the error of the parse.
pub open spec fn try_from_post<'buf>(bytes: Seq<u8>, r: Result<Request<'buf>, ParseError>) -> bool {
    match (r, parse_outcome(bytes)) {
        (Ok(req), Ok(q)) => req.models(q) && req.wf(),
        (Err(e), Err(f)) => e == f,
        _ => false,
    }
}

/// Relies on std's `str::from_utf8`: it succeeds exactly on a buffer that
/// is valid UTF-8 in its entirety, and then returns those very bytes viewed
/// as text.
#[verifier::external_body]
fn bytes_as_utf8<'a>(buf: &'a [u8]) -> (r: Option<&'a str>)
    ensures
        r is Some <==> valid_utf8(buf@),
        r matches Some(t) ==> t.spec_bytes() == buf@,
{
    std::str::from_utf8(buf).ok()
}

/// The token before the first delimiter of `request`, and the text after
/// that delimiter; nothing when `request` holds no delimiter.
pub fn get_next_word<'a>(request: &'a str) -> (r: Option<(&'a str, &'a str)>)
    ensures
        r is Some <==> first_delim(request@) is Some,
        r matches Some(pair) ==> ({
            let i = first_delim(request@).unwrap();
            pair.0@ == request@.subrange(0, i)
            && pair.1@ == request@.subrange(i + 1, request@.len() as int)
        }),
{
    let n = request.unicode_len();
    let mut k: usize = 0;
    while k < n
        invariant
            n == request@.len(),
            k <= n,
            forall|j: int| 0 <= j < k ==> !is_delim(request@[j]),
        decreases n - k,
    {
        let c = request.get_char(k);
        if c == ' ' || c == '\r' {
            proof {
                lemma_find_first_at(request@, delim_pred(), k as int);
            }
            let token = request.substring_char(0, k);
            let rest = request.substring_char(k + 1, n);
            return Some((token, rest));
        }
        k += 1;
    }
    proof {
        lemma_find_first_none(request@, delim_pred());
    }
    None
}

/// Splits a path token at its first `?`: the part before it is the path,
/// the part after it the query string. Without a `?` the whole token is
/// the path.
fn split_query_token<'a>(tok: &'a str) -> (r: (&'a str, Option<&'a str>))
    ensures
        r.0@ == split_query(tok@).0,
        match (r.1, split_query(tok@).1) {
            (Some(v), Some(w)) => v@ == w,
            (None, None) => true,
            _ => false,
        },
        forall|j: int| 0 <= j < r.0@.len() ==> r.0@[j] != '?',
{
    let n = tok.unicode_len();
    let mut k: usize = 0;
    while k < n
        invariant
            n == tok@.len(),
            k <= n,
            forall|j: int| 0 <= j < k ==> tok@[j] != '?',
        decreases n - k,
    {
        if tok.get_char(k) == '?' {
            proof {
                lemma_find_first_at(tok@, qmark_pred(), k as int);
            }
            let path = tok.substring_char(0, k);
            let query = tok.substring_char(k + 1, n);
            return (path, Some(query));
        }
        k += 1;
    }
    proof {
        lemma_find_first_none(tok@, qmark_pred());
    }
    (tok, None)
}

impl<'buf> Request<'buf> {
    /// Parses the request line at the start of `buf` into a request whose
    /// string fields borrow from `buf`; the remainder after the protocol
    /// token is not read.
    pub fn try_from(buf: &'buf [u8]) -> (r: Result<Request<'buf>, ParseError>)
        ensures
            try_from_post(buf@, r),
    {
        let text = match bytes_as_utf8(buf) {
            Some(t) => t,
            None => {
                return Err(ParseError::InvalidEncoding);
            },
        };
        proof {
            encode_utf8_decode_utf8(text@);
            assert(decode_utf8(buf@) == text@);
        }
        let first = match get_next_word(text) {
            Some(pair) => pair,
            None => {
                return Err(ParseError::InvalidRequest);
            },
        };
        let method_tok = first.0;
        let second = match get_next_word(first.1) {
            Some(pair) => pair,
            None => {
                return Err(ParseError::InvalidRequest);
            },
        };
        let path_tok = second.0;
        let third = match get_next_word(second.1) {
            Some(pair) => pair,
            None => {
                return Err(ParseError::InvalidRequest);
            },
        };
        let protocol_tok = third.0;
        if !str_eq(protocol_tok, "HTTP/1.1") {
            return Err(ParseError::InvalidProtocol);
        }
        let method = match Method::from_str(method_tok) {
            Ok(m) => m,
            Err(_) => {
                return Err(ParseError::InvalidMethod);
            },
        };
        let path_and_query = split_query_token(path_tok);
        Ok(Request {
            path: path_and_query.0,
            query_string: path_and_query.1,
            method,
        })
    }
}

/// The stable message that names each parse failure.
pub open spec fn message_spec(e: ParseError) -> Seq<char> {
    match e {
        ParseError::InvalidRequest => "InvalidRequest"@,
        ParseError::InvalidEncoding => "InvalidEncoding"@,
        ParseError::InvalidProtocol => "InvalidProtocol"@,
        ParseError::InvalidMethod => "InvalidMethod"@,
    }
}

impl ParseError {
    /// A stable, human-readable message naming the failure.
    pub fn message(&self) -> (r: &str)
        ensures
            r@ == message_spec(*self),
    {
        match self {
            ParseError::InvalidRequest => "InvalidRequest",
            ParseError::InvalidEncoding => "InvalidEncoding",
            ParseError::InvalidProtocol => "InvalidProtocol",
            ParseError::InvalidMethod => "InvalidMethod",
        }
    }
}

/// Splitting a concatenation whose left part holds no delimiter and whose
/// right part starts with one cuts exactly at that delimiter.
proof fn lemma_split_at_delim_concat(a: Seq<char>, b: Seq<char>)
    requires
        forall|i: int| 0 <= i < a.len() ==> !is_delim(#[trigger] a[i]),
        b.len() > 0,
        is_delim(b[0]),
    ensures
        split_at_delim(a + b) == Some((a, b.subrange(1, b.len() as int))),
{
    lemma_find_first_concat(a, b, delim_pred());
    let s = a + b;
    assert(s.subrange(0, a.len() as int) =~= a);
    assert(s.subrange(a.len() as int + 1, s.len() as int) =~= b.subrange(1, b.len() as int));
}

/// A path token assembled from a path and an optional query string.
pub open spec fn path_token(path: Seq<char>, query: Option<Seq<char>>) -> Seq<char> {
    match query {
        Some(q) => path + seq!['?'] + q,
        None => path,
    }
}

/// The text of a request line with the given components: single spaces
/// between the tokens, a carriage return after the protocol, then `tail`.
pub open spec fn request_line(
    m: Method,
    path: Seq<char>,
    query: Option<Seq<char>>,
    tail: Seq<char>,
) -> Seq<char> {
    token_of(m) + seq![' '] + path_token(path, query) + seq![' '] + "HTTP/1.1"@ + seq!['\r'] + tail
}

/// Parsing a well-formed request line succeeds and yields exactly its
/// components: the verb, the path before the first `?` of the path token,
/// and the query string after it.
pub proof fn lemma_parse_valid_line(
    m: Method,
    path: Seq<char>,
    query: Option<Seq<char>>,
    tail: Seq<char>,
)
    requires
        forall|i: int| 0 <= i < path.len() ==> #[trigger] path[i] != '?' && !is_delim(path[i]),
        query matches Some(q) ==> forall|i: int| 0 <= i < q.len() ==> !is_delim(#[trigger] q[i]),
    ensures
        parse_spec(request_line(m, path, query, tail)) == Ok::<ReqSpec, ParseError>(ReqSpec {
            path: path,
            query_string: query,
            method: m,
        }),
{
    let s = request_line(m, path, query, tail);
    let ptok = path_token(path, query);
    let sp = seq![' '];
    let cr = seq!['\r'];
    let proto = "HTTP/1.1"@;
    lemma_method_token(m);
    reveal_strlit("HTTP/1.1");
    assert(proto.len() == 8);
    assert forall|i: int| 0 <= i < token_of(m).len() implies !is_delim(#[trigger] token_of(m)[i]) by {
        assert('A' <= token_of(m)[i] <= 'Z');
    }
    assert forall|i: int| 0 <= i < ptok.len() implies !is_delim(#[trigger] ptok[i]) by {
        match query {
            Some(q) => {
                if i < path.len() {
                    assert(ptok[i] == path[i]);
                } else if i == path.len() {
                    assert(ptok[i] == '?');
                } else {
                    assert(ptok[i] == q[i - path.len() - 1]);
                }
            },
            None => {
                assert(ptok[i] == path[i]);
            },
        }
    }
    assert forall|i: int| 0 <= i < proto.len() implies !is_delim(#[trigger] proto[i]) by {
    }
    let b1 = sp + ptok + sp + proto + cr + tail;
    assert(s =~= token_of(m) + b1);
    assert(b1[0] == ' ');
    lemma_split_at_delim_concat(token_of(m), b1);
    let r1 = b1.subrange(1, b1.len() as int);
    let b2 = sp + proto + cr + tail;
    assert(r1 =~= ptok + b2);
    assert(b2[0] == ' ');
    lemma_split_at_delim_concat(ptok, b2);
    let r2 = b2.subrange(1, b2.len() as int);
    let b3 = cr + tail;
    assert(r2 =~= proto + b3);
    assert(b3[0] == '\r');
    lemma_split_at_delim_concat(proto, b3);
    match query {
        None => {
            lemma_find_first_none(ptok, qmark_pred());
        },
        Some(q) => {
            assert(ptok =~= path + (seq!['?'] + q));
            assert((seq!['?'] + q)[0] == '?');
            lemma_find_first_concat(path, seq!['?'] + q, qmark_pred());
            assert(first_qmark(ptok) == Some(path.len() as int));
            assert(ptok.subrange(0, path.len() as int) =~= path);
            assert(ptok.subrange(path.len() as int + 1, ptok.len() as int) =~= q);
        },
    }
}

/// The part of the input a successful parse consumed: through the end of
/// the protocol token.
pub open spec fn consumed(s: Seq<char>) -> Seq<char>
    recommends
        parse_spec(s) is Ok,
{
    let i1 = first_delim(s).unwrap();
    let rest1 = s.subrange(i1 + 1, s.len() as int);
    let i2 = first_delim(rest1).unwrap();
    let rest2 = rest1.subrange(i2 + 1, rest1.len() as int);
    let i3 = first_delim(rest2).unwrap();
    s.subrange(0, i1 + 1 + i2 + 1 + i3)
}

/// The method and path tokens end at spaces rather than carriage returns.
pub open spec fn space_delimited(s: Seq<char>) -> bool
    recommends
        parse_spec(s) is Ok,
{
    let i1 = first_delim(s).unwrap();
    let rest1 = s.subrange(i1 + 1, s.len() as int);
    let i2 = first_delim(rest1).unwrap();
    s[i1] == ' ' && rest1[i2] == ' '
}

/// Rejoining the components of a successful parse with single spaces
/// reconstructs the consumed part of the input, whenever the input's
/// method and path tokens ended at spaces.
pub proof fn lemma_round_trip(s: Seq<char>, q: ReqSpec)
    requires
        parse_spec(s) == Ok::<ReqSpec, ParseError>(q),
        space_delimited(s),
    ensures
        token_of(q.method) + seq![' '] + path_token(q.path, q.query_string) + seq![' ']
            + "HTTP/1.1"@ == consumed(s),
{
    lemma_find_first(s, delim_pred());
    let i1 = first_delim(s).unwrap();
    let mtok = s.subrange(0, i1);
    let rest1 = s.subrange(i1 + 1, s.len() as int);
    lemma_find_first(rest1, delim_pred());
    let i2 = first_delim(rest1).unwrap();
    let ptok = rest1.subrange(0, i2);
    let rest2 = rest1.subrange(i2 + 1, rest1.len() as int);
    lemma_find_first(rest2, delim_pred());
    let i3 = first_delim(rest2).unwrap();
    let proto = rest2.subrange(0, i3);
    assert(proto == "HTTP/1.1"@);
    assert(method_of(mtok) == Some(q.method));
    lemma_method_of_token(mtok, q.method);
    lemma_find_first(ptok, qmark_pred());
    match first_qmark(ptok) {
        Some(k) => {
            assert(q.path == ptok.subrange(0, k));
            assert(ptok[k] == '?');
            assert(path_token(q.path, q.query_string) =~= ptok);
        },
        None => {
            assert(path_token(q.path, q.query_string) == ptok);
        },
    }
    let joined = mtok + seq![' '] + ptok + seq![' '] + proto;
    assert(s[i1] == ' ' && rest1[i2] == ' ');
    assert forall|j: int| 0 <= j < i1 + 1 + i2 + 1 + i3 implies joined[j] == s[j] by {
        if j < i1 {
            assert(joined[j] == mtok[j]);
        } else if j == i1 {
            assert(joined[j] == ' ');
        } else if j < i1 + 1 + i2 {
            assert(joined[j] == ptok[j - i1 - 1]);
            assert(rest1[j - i1 - 1] == s[j]);
        } else if j == i1 + 1 + i2 {
            assert(joined[j] == ' ');
            assert(rest1[i2] == s[j]);
        } else {
            assert(joined[j] == proto[j - (i1 + 1 + i2 + 1)]);
            assert(rest2[j - (i1 + 1 + i2 + 1)] == s[j]);
        }
    }
    assert(joined =~= consumed(s));
}

/// Two requests that agree in every observable field.
pub open spec fn obs_eq<'a, 'b>(a: Request<'a>, b: Request<'b>) -> bool {
    &&& a.path@ == b.path@
    &&& match (a.query_string, b.query_string) {
        (Some(v), Some(w)) => v@ == w@,
        (None, None) => true,
        _ => false,
    }
    &&& a.method == b.method
}

/// Parsing is deterministic: two results that `Request::try_from` may
/// return for one buffer agree in every observable field — the same buffer
/// parses to the same request, or fails with the same error, every time.
pub proof fn lemma_parse_idempotent<'a, 'b>(
    bytes: Seq<u8>,
    r1: Result<Request<'a>, ParseError>,
    r2: Result<Request<'b>, ParseError>,
)
    requires
        try_from_post(bytes, r1),
        try_from_post(bytes, r2),
    ensures
        match (r1, r2) {
            (Ok(a), Ok(b)) => obs_eq(a, b),
            (Err(e), Err(f)) => e == f,
            _ => false,
        },
{
}

/// Different parse failures carry different messages.
pub proof fn lemma_messages_distinct(e1: ParseError, e2: ParseError)
    requires
        e1 != e2,
    ensures
        message_spec(e1) != message_spec(e2),
{
    reveal_strlit("InvalidRequest");
    reveal_strlit("InvalidEncoding");
    reveal_strlit("InvalidProtocol");
    reveal_strlit("InvalidMethod");
    assert("InvalidRequest"@.len() == 14);
    assert("InvalidEncoding"@.len() == 15 && "InvalidEncoding"@[7] == 'E');
    assert("InvalidProtocol"@.len() == 15 && "InvalidProtocol"@[7] == 'P');
    assert("InvalidMethod"@.len() == 13);
}

} // verus!
