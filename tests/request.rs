use mhttp::{InvalidRequest, Method, RequestBuilder, RequestParser};

#[test]
fn request_parse() {
    let mut s = [""; 16];
    let (r, d) = RequestParser::parse(
        b"GET /a/b/cde HTTP/1.1\r\n\
        Host: the.moon\r\n\
        ETag: \"beep\"\r\n\
        \r\n\
        Hello from Earth!",
        &mut s,
    )
    .unwrap();
    assert_eq!(d, b"Hello from Earth!");
    assert_eq!(r.method, Method::Get);
    assert_eq!(r.path, "/a/b/cde");
    assert_eq!(r.header("Host"), Some("the.moon"));
    assert_eq!(r.header("host"), Some("the.moon"));
    assert_eq!(r.header("HOST"), Some("the.moon"));
    assert_eq!(r.header("hOsT"), Some("the.moon"));
    assert_eq!(r.header("ETag"), Some("\"beep\""));
    assert_eq!(r.header("etag"), Some("\"beep\""));
    assert_eq!(r.header("ETAG"), Some("\"beep\""));
    assert_eq!(r.header("EtaG"), Some("\"beep\""));
    assert_eq!(r.header("Non-Existent-Header"), None);
}

#[test]
fn build_get_request() {
    let mut buf = [0u8; 1024];
    let (head, rest) = RequestBuilder::new(&mut buf, "/", Method::Get)
        .unwrap()
        .add_header("Host", "www.example.com")
        .unwrap()
        .finish();
    assert_eq!(head, b"GET / HTTP/1.1\r\nHost: www.example.com\r\n\r\n");
    assert_eq!(rest.len(), 1024 - head.len());
}

#[test]
fn build_request_without_headers() {
    let mut buf = [0u8; 64];
    let (head, _) = RequestBuilder::new(&mut buf, "/x", Method::Delete).unwrap().finish();
    assert_eq!(head, b"DELETE /x HTTP/1.1\r\n\r\n");
}

#[test]
fn request_line_exhausts_small_buffer() {
    // "GET / HTTP/1.1\r\n" is 16 bytes and two more are kept for the blank line.
    let mut buf = [0u8; 17];
    assert!(RequestBuilder::new(&mut buf, "/", Method::Get).is_err());
    let mut buf = [0u8; 18];
    let (head, rest) = RequestBuilder::new(&mut buf, "/", Method::Get).unwrap().finish();
    assert_eq!(head, b"GET / HTTP/1.1\r\n\r\n");
    assert!(rest.is_empty());
}

#[test]
fn add_header_exhausts_small_buffer() {
    // The request line takes 16 bytes; "A: b\r\n" needs 6 more and the blank line 2.
    let mut buf = [0u8; 23];
    let b = RequestBuilder::new(&mut buf, "/", Method::Get).unwrap();
    assert!(b.add_header("A", "b").is_err());
    let mut buf = [0u8; 24];
    let b = RequestBuilder::new(&mut buf, "/", Method::Get).unwrap();
    let (head, _) = b.add_header("A", "b").unwrap().finish();
    assert_eq!(head, b"GET / HTTP/1.1\r\nA: b\r\n\r\n");
}

#[test]
fn headers_keep_insertion_order() {
    let mut buf = [0u8; 128];
    let (head, _) = RequestBuilder::new(&mut buf, "/p", Method::Post)
        .unwrap()
        .add_header("B", "2")
        .unwrap()
        .add_header("A", "1")
        .unwrap()
        .add_header("B", "3")
        .unwrap()
        .finish();
    assert_eq!(head, b"POST /p HTTP/1.1\r\nB: 2\r\nA: 1\r\nB: 3\r\n\r\n");
}

#[test]
fn request_round_trip() {
    let methods = [
        Method::Get,
        Method::Head,
        Method::Post,
        Method::Put,
        Method::Delete,
        Method::Connect,
        Method::Options,
        Method::Trace,
        Method::Patch,
    ];
    for m in methods {
        let mut buf = [0u8; 256];
        let (head, _) = RequestBuilder::new(&mut buf, "/über/path", m)
            .unwrap()
            .add_header("Host", "example.org")
            .unwrap()
            .add_header("X-Empty", "")
            .unwrap()
            .add_header("Accept", "text/plain")
            .unwrap()
            .finish();
        let mut s = [""; 4];
        let (r, rest) = RequestParser::parse(head, &mut s).unwrap();
        assert_eq!(r.method, m);
        assert_eq!(r.path, "/über/path");
        assert_eq!(r.header("host"), Some("example.org"));
        assert_eq!(r.header("x-empty"), Some(""));
        assert_eq!(r.header("ACCEPT"), Some("text/plain"));
        assert!(rest.is_empty());
    }
}

#[test]
fn method_tokens() {
    assert_eq!(Method::Options.token(), b"OPTIONS");
    assert_eq!(Method::from_token(b"PATCH"), Some(Method::Patch));
    assert_eq!(Method::from_token(b"get"), None);
}

#[test]
fn request_without_blank_line_is_truncated() {
    let mut s = [""; 16];
    let r = RequestParser::parse(b"GET / HTTP/1.1\r\nHost: a\r\n", &mut s);
    assert!(matches!(r, Err(InvalidRequest::Truncated)));
    let r = RequestParser::parse(b"GET / HTTP/1.1", &mut s);
    assert!(matches!(r, Err(InvalidRequest::Truncated)));
}

#[test]
fn request_line_with_two_tokens_is_truncated() {
    let mut s = [""; 16];
    let r = RequestParser::parse(b"GET /\r\n\r\n", &mut s);
    assert!(matches!(r, Err(InvalidRequest::Truncated)));
}

#[test]
fn request_line_with_four_tokens_is_trailing_garbage() {
    let mut s = [""; 16];
    let r = RequestParser::parse(b"GET / HTTP/1.1 extra\r\n\r\n", &mut s);
    match r {
        Err(InvalidRequest::TrailingGarbage(g)) => assert_eq!(g, b"extra"),
        _ => panic!("expected trailing garbage"),
    }
    let r = RequestParser::parse(b"GET / HTTP/1.1 extra more\r\n\r\n", &mut s);
    match r {
        Err(InvalidRequest::TrailingGarbage(g)) => assert_eq!(g, b"extra"),
        _ => panic!("expected trailing garbage"),
    }
}

#[test]
fn unknown_method_is_rejected() {
    let mut s = [""; 16];
    let r = RequestParser::parse(b"FETCH / HTTP/1.1\r\n\r\n", &mut s);
    match r {
        Err(InvalidRequest::InvalidMethod(m)) => assert_eq!(m, b"FETCH"),
        _ => panic!("expected an invalid method"),
    }
}

#[test]
fn unknown_version_is_rejected() {
    let mut s = [""; 16];
    let r = RequestParser::parse(b"GET / HTTP/2.0\r\n\r\n", &mut s);
    match r {
        Err(InvalidRequest::UnsupportedVersion(v)) => assert_eq!(v, b"HTTP/2.0"),
        _ => panic!("expected an unsupported version"),
    }
    let (r, _) = RequestParser::parse(b"HEAD / HTTP/1.0\r\n\r\n", &mut s).unwrap();
    assert_eq!(r.method, Method::Head);
}

#[test]
fn path_must_be_utf8() {
    let mut s = [""; 16];
    let r = RequestParser::parse(b"GET /\xff HTTP/1.1\r\n\r\n", &mut s);
    match r {
        Err(InvalidRequest::InvalidPath(p)) => assert_eq!(p, b"/\xff"),
        _ => panic!("expected an invalid path"),
    }
}

#[test]
fn header_errors_carry_over_to_requests() {
    let mut s = [""; 16];
    let r = RequestParser::parse(b"GET / HTTP/1.1\r\nNoColon\r\n\r\n", &mut s);
    assert!(matches!(r, Err(InvalidRequest::NoValue)));
    let r = RequestParser::parse(b"GET / HTTP/1.1\r\nA: \xc3\r\n\r\n", &mut s);
    assert!(matches!(r, Err(InvalidRequest::InvalidUTF8)));
}

#[test]
fn too_many_headers_for_storage() {
    let data = b"GET / HTTP/1.1\r\nA: 1\r\nB: 2\r\nC: 3\r\n\r\n";
    let mut s = [""; 3];
    let r = RequestParser::parse(data, &mut s);
    assert!(matches!(r, Err(InvalidRequest::Truncated)));
    let mut s = [""; 4];
    let (r, _) = RequestParser::parse(data, &mut s).unwrap();
    assert_eq!(r.header("c"), Some("3"));
}

#[test]
fn builder_leaves_body_area_untouched() {
    let mut buf = [9u8; 40];
    let (head, rest) = RequestBuilder::new(&mut buf, "/", Method::Get)
        .unwrap()
        .add_header("A", "b")
        .unwrap()
        .finish();
    assert_eq!(head, b"GET / HTTP/1.1\r\nA: b\r\n\r\n");
    assert_eq!(rest, &[9u8; 16][..]);
}

#[test]
fn parse_leaves_unused_slots() {
    let mut s = ["x"; 4];
    let (r, _) = RequestParser::parse(b"PUT /q HTTP/1.0\r\nA: 1\r\n\r\n", &mut s).unwrap();
    assert_eq!(r.method(), Method::Put);
    assert_eq!(r.path(), "/q");
    drop(r);
    assert_eq!(s, ["A: 1", "x", "x", "x"]);
}

#[test]
fn unknown_method_with_http_1_0() {
    let mut s = [""; 4];
    let r = RequestParser::parse(b"get / HTTP/1.0\r\n\r\n", &mut s);
    match r {
        Err(InvalidRequest::InvalidMethod(m)) => assert_eq!(m, b"get"),
        _ => panic!("expected an invalid method"),
    }
}

#[test]
fn truncated_with_partial_tail_and_lone_cr() {
    let mut s = [""; 4];
    let r = RequestParser::parse(b"GET / HTTP/1.1\r\nA: x\ry\r\nB: 2", &mut s);
    assert!(matches!(r, Err(InvalidRequest::Truncated)));
}

#[test]
fn colon_in_header_name_round_trips() {
    let mut buf = [0u8; 64];
    let (head, _) = RequestBuilder::new(&mut buf, "/", Method::Get)
        .unwrap()
        .add_header("a:b", "c")
        .unwrap()
        .finish();
    let mut s = [""; 2];
    let (r, rest) = RequestParser::parse(head, &mut s).unwrap();
    assert_eq!(r.method, Method::Get);
    assert_eq!(r.path, "/");
    assert!(rest.is_empty());
}
