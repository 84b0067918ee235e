use reqline::Method;
use reqline::MethodError;
use reqline::ParseError;
use reqline::Request;
use reqline::get_next_word;
use reqline::str_eq;

#[test]
fn parse_example_with_query() {
    let buf = &b"GET /search?name=abc&sort=1 HTTP/1.1\r\n"[..];
    let req = Request::try_from(buf).unwrap();
    assert_eq!(req.method, Method::GET);
    assert_eq!(req.path, "/search");
    assert_eq!(req.query_string, Some("name=abc&sort=1"));
}

#[test]
fn parse_views_are_subranges_of_input() {
    let buf = &b"GET /search?name=abc&sort=1 HTTP/1.1\r\n"[..];
    let text = std::str::from_utf8(buf).unwrap();
    let req = Request::try_from(buf).unwrap();
    assert_eq!(&text[4..11], req.path);
    assert_eq!(&text[12..27], req.query_string.unwrap());
}

#[test]
fn round_trip_reconstructs_consumed_prefix() {
    let buf = &b"GET /search?name=abc&sort=1 HTTP/1.1\r\nHost: x\r\n"[..];
    let req = Request::try_from(buf).unwrap();
    let verb = match req.method {
        Method::GET => "GET",
        _ => panic!("wrong method"),
    };
    let mut line = String::new();
    line.push_str(verb);
    line.push(' ');
    line.push_str(req.path);
    if let Some(q) = req.query_string {
        line.push('?');
        line.push_str(q);
    }
    line.push_str(" HTTP/1.1");
    assert_eq!(line.as_bytes(), &buf[..line.len()]);
}

#[test]
fn parse_twice_yields_equal_requests() {
    let buf = &b"POST /items?id=7 HTTP/1.1\r\n"[..];
    let a = Request::try_from(buf).unwrap();
    let b = Request::try_from(buf).unwrap();
    assert_eq!(a.method, b.method);
    assert_eq!(a.path, b.path);
    assert_eq!(a.query_string, b.query_string);
}

#[test]
fn path_without_question_mark_has_no_query() {
    let buf = &b"GET /x HTTP/1.1\r\n"[..];
    let req = Request::try_from(buf).unwrap();
    assert_eq!(req.path, "/x");
    assert_eq!(req.query_string, None);
}

#[test]
fn trailing_question_mark_yields_empty_query() {
    let buf = &b"GET /x? HTTP/1.1\r\n"[..];
    let req = Request::try_from(buf).unwrap();
    assert_eq!(req.path, "/x");
    assert_eq!(req.query_string, Some(""));
}

#[test]
fn query_is_split_at_first_question_mark() {
    let buf = &b"GET /a?b?c HTTP/1.1\r\n"[..];
    let req = Request::try_from(buf).unwrap();
    assert_eq!(req.path, "/a");
    assert_eq!(req.query_string, Some("b?c"));
}

#[test]
fn invalid_utf8_fails_with_invalid_encoding() {
    let buf = &[0x47u8, 0x45, 0x54, 0x20, 0xff, 0xfe, 0x20, 0x0d][..];
    let err = Request::try_from(buf).unwrap_err();
    assert_eq!(err, ParseError::InvalidEncoding);
}

#[test]
fn wrong_protocol_fails_with_invalid_protocol() {
    let buf = &b"GET /x HTTP/1.0\r\n"[..];
    let err = Request::try_from(buf).unwrap_err();
    assert_eq!(err, ParseError::InvalidProtocol);
}

#[test]
fn unknown_method_fails_with_invalid_method() {
    let buf = &b"FOO /x HTTP/1.1\r\n"[..];
    let err = Request::try_from(buf).unwrap_err();
    assert_eq!(err, ParseError::InvalidMethod);
}

#[test]
fn missing_protocol_token_fails_with_invalid_request() {
    let buf = &b"GET /x\r\n"[..];
    let err = Request::try_from(buf).unwrap_err();
    assert_eq!(err, ParseError::InvalidRequest);
}

#[test]
fn empty_buffer_fails_with_invalid_request() {
    let buf = &b""[..];
    let err = Request::try_from(buf).unwrap_err();
    assert_eq!(err, ParseError::InvalidRequest);
}

#[test]
fn protocol_is_checked_before_method() {
    let buf = &b"FOO /x HTTP/1.0\r\n"[..];
    let err = Request::try_from(buf).unwrap_err();
    assert_eq!(err, ParseError::InvalidProtocol);
}

#[test]
fn every_known_verb_parses() {
    let verbs = [
        ("GET", Method::GET),
        ("DELETE", Method::DELETE),
        ("POST", Method::POST),
        ("PUT", Method::PUT),
        ("HEAD", Method::HEAD),
        ("CONNECT", Method::CONNECT),
        ("OPTIONS", Method::OPTIONS),
        ("TRACE", Method::TRACE),
        ("PATCH", Method::PATCH),
    ];
    for (name, verb) in verbs {
        let line = format!("{} /p HTTP/1.1\r\n", name);
        let req = Request::try_from(line.as_bytes()).unwrap();
        assert_eq!(req.method, verb);
        assert_eq!(req.path, "/p");
        assert_eq!(req.query_string, None);
    }
}

#[test]
fn classifier_is_exact_and_case_sensitive() {
    assert_eq!(Method::from_str("GET"), Ok(Method::GET));
    assert_eq!(Method::from_str("get"), Err(MethodError));
    assert_eq!(Method::from_str("GE"), Err(MethodError));
    assert_eq!(Method::from_str("GETX"), Err(MethodError));
    assert_eq!(Method::from_str(""), Err(MethodError));
}

#[test]
fn messages_are_stable_and_distinct() {
    let kinds = [
        (ParseError::InvalidRequest, "InvalidRequest"),
        (ParseError::InvalidEncoding, "InvalidEncoding"),
        (ParseError::InvalidProtocol, "InvalidProtocol"),
        (ParseError::InvalidMethod, "InvalidMethod"),
    ];
    for (kind, text) in kinds {
        assert_eq!(kind.message(), text);
    }
    for (i, (a, _)) in kinds.iter().enumerate() {
        for (j, (b, _)) in kinds.iter().enumerate() {
            if i != j {
                assert_ne!(a.message(), b.message());
            }
        }
    }
}

#[test]
fn get_next_word_cuts_at_first_delimiter() {
    assert_eq!(get_next_word("abc def"), Some(("abc", "def")));
    assert_eq!(get_next_word("abc\rdef"), Some(("abc", "def")));
    assert_eq!(get_next_word(" abc"), Some(("", "abc")));
    assert_eq!(get_next_word("a b c"), Some(("a", "b c")));
    assert_eq!(get_next_word("abc"), None);
    assert_eq!(get_next_word(""), None);
}

#[test]
fn str_eq_compares_characters() {
    assert!(str_eq("", ""));
    assert!(str_eq("HTTP/1.1", "HTTP/1.1"));
    assert!(!str_eq("HTTP/1.1", "HTTP/1.0"));
    assert!(!str_eq("GET", "GE"));
}
