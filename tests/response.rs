use mhttp::{InvalidResponse, ResponseBuilder, ResponseParser, Status};

#[test]
fn response_parse() {
    let mut s = [""; 16];
    let (r, d) = ResponseParser::parse(
        b"HTTP/1.1 200 OK\r\n\
        Content-Length: 19\r\n\
        ETag: \"beep\"\r\n\
        \r\n\
        Hello from the Moon!",
        &mut s,
    )
    .unwrap();
    assert_eq!(d, b"Hello from the Moon!");
    assert_eq!(r.status, Status::OK);
    assert_eq!(r.header("Content-Length"), Some("19"));
    assert_eq!(r.header("content-length"), Some("19"));
    assert_eq!(r.header("CONTENT-LENGTH"), Some("19"));
    assert_eq!(r.header("ConTENt-LengTH"), Some("19"));
    assert_eq!(r.header("ETag"), Some("\"beep\""));
    assert_eq!(r.header("etag"), Some("\"beep\""));
    assert_eq!(r.header("ETAG"), Some("\"beep\""));
    assert_eq!(r.header("EtaG"), Some("\"beep\""));
    assert_eq!(r.header("Non-Existent-Header"), None);
}

#[test]
fn parse_short_response() {
    let mut s = [""; 16];
    let (r, d) = ResponseParser::parse(
        b"HTTP/1.1 200 OK\r\nContent-Length: 19\r\n\r\nHello from the Moon!",
        &mut s,
    )
    .unwrap();
    assert_eq!(r.status, Status::OK);
    assert_eq!(r.header("content-length"), Some("19"));
    assert_eq!(d, b"Hello from the Moon!");
}

#[test]
fn build_response() {
    let mut buf = [0u8; 1024];
    let (head, rest) = ResponseBuilder::new(&mut buf, Status::NotFound)
        .unwrap()
        .add_header("Content-Length", "0")
        .unwrap()
        .finish();
    assert_eq!(head, b"HTTP/1.1 404 Not Found\r\nContent-Length: 0\r\n\r\n");
    assert_eq!(rest.len(), 1024 - head.len());
}

#[test]
fn status_line_exhausts_small_buffer() {
    // "HTTP/1.1 200 OK\r\n" is 17 bytes and two more are kept for the blank line.
    let mut buf = [0u8; 18];
    assert!(ResponseBuilder::new(&mut buf, Status::OK).is_err());
    let mut buf = [0u8; 19];
    let (head, _) = ResponseBuilder::new(&mut buf, Status::OK).unwrap().finish();
    assert_eq!(head, b"HTTP/1.1 200 OK\r\n\r\n");
}

#[test]
fn response_add_header_exhausts() {
    let mut buf = [0u8; 24];
    let b = ResponseBuilder::new(&mut buf, Status::OK).unwrap();
    assert!(b.add_header("Server", "x").is_err());
}

#[test]
fn status_codes_and_reasons() {
    assert_eq!(Status::ImATeapot.code(), 418);
    assert_eq!(Status::ImATeapot.reason(), "I'm a teapot");
    assert_eq!(Status::Continue.code(), 100);
    assert_eq!(Status::NetworkAuthenticationRequired.code(), 511);
    assert_eq!(Status::from_code(226), Some(Status::ImUsed));
    assert_eq!(Status::from_code(299), None);
    assert_eq!(Status::from_token(b"503"), Some(Status::ServiceUnavailable));
    assert_eq!(Status::from_token(b"5x3"), None);
    assert_eq!(Status::from_token(b"5030"), None);
}

#[test]
fn response_round_trip() {
    let all = [
        Status::Continue,
        Status::EarlyHints,
        Status::OK,
        Status::NoContent,
        Status::ImUsed,
        Status::Unused,
        Status::PermanentRedirect,
        Status::BadRequest,
        Status::ImATeapot,
        Status::UnavailableForLegalReasons,
        Status::InternalServerError,
        Status::NetworkAuthenticationRequired,
    ];
    for st in all {
        let mut buf = [0u8; 256];
        let (head, _) = ResponseBuilder::new(&mut buf, st)
            .unwrap()
            .add_header("Content-Type", "text/plain")
            .unwrap()
            .finish();
        let mut s = [""; 2];
        let (r, rest) = ResponseParser::parse(head, &mut s).unwrap();
        assert_eq!(r.status, st);
        assert_eq!(r.header("content-type"), Some("text/plain"));
        assert!(rest.is_empty());
    }
}

#[test]
fn unknown_status_is_rejected() {
    let mut s = [""; 16];
    let r = ResponseParser::parse(b"HTTP/1.1 299 Odd\r\n\r\n", &mut s);
    match r {
        Err(InvalidResponse::InvalidStatus(c)) => assert_eq!(c, b"299"),
        _ => panic!("expected an invalid status"),
    }
}

#[test]
fn response_version_is_checked() {
    let mut s = [""; 16];
    let r = ResponseParser::parse(b"HTTP/0.9 200 OK\r\n\r\n", &mut s);
    match r {
        Err(InvalidResponse::UnsupportedVersion(v)) => assert_eq!(v, b"HTTP/0.9"),
        _ => panic!("expected an unsupported version"),
    }
}

#[test]
fn status_line_without_code_is_truncated() {
    let mut s = [""; 16];
    let r = ResponseParser::parse(b"HTTP/1.1\r\n\r\n", &mut s);
    assert!(matches!(r, Err(InvalidResponse::Truncated)));
    let r = ResponseParser::parse(b"HTTP/1.1 200 OK\r\nA: b\r\n", &mut s);
    assert!(matches!(r, Err(InvalidResponse::Truncated)));
}

#[test]
fn reason_phrase_is_not_read() {
    let mut s = [""; 16];
    let (r, _) = ResponseParser::parse(b"HTTP/1.0 404 Whatever you like\r\n\r\n", &mut s).unwrap();
    assert_eq!(r.status, Status::NotFound);
    let (r, _) = ResponseParser::parse(b"HTTP/1.1 204\r\n\r\n", &mut s).unwrap();
    assert_eq!(r.status, Status::NoContent);
}

#[test]
fn response_header_errors() {
    let mut s = [""; 16];
    let r = ResponseParser::parse(b"HTTP/1.1 200 OK\r\nbad\r\n\r\n", &mut s);
    assert!(matches!(r, Err(InvalidResponse::NoValue)));
    let r = ResponseParser::parse(b"HTTP/1.1 200 OK\r\nA: \xff\r\n\r\n", &mut s);
    assert!(matches!(r, Err(InvalidResponse::InvalidUTF8)));
    let mut s = [""; 1];
    let r = ResponseParser::parse(b"HTTP/1.1 200 OK\r\nA: 1\r\n\r\n", &mut s);
    assert!(matches!(r, Err(InvalidResponse::Truncated)));
}

#[test]
fn canonical_reason_phrases() {
    let mut buf = [0u8; 64];
    let (head, _) = ResponseBuilder::new(&mut buf, Status::EarlyHints).unwrap().finish();
    assert_eq!(head, b"HTTP/1.1 103 Early Hints\r\n\r\n");
    assert_eq!(Status::MultipleChoice.reason(), "Multiple Choices");
    assert_eq!(Status::Unused.reason(), "(Unused)");
}

#[test]
fn status_accessor_and_http_1_0() {
    let mut s = [""; 2];
    let (r, _) = ResponseParser::parse(b"HTTP/1.0 301 Moved Permanently\r\n\r\n", &mut s).unwrap();
    assert_eq!(r.status(), Status::MovedPermanently);
    let r = ResponseParser::parse(b"HTTP/1.0 999 Odd\r\n\r\n", &mut s);
    match r {
        Err(InvalidResponse::InvalidStatus(c)) => assert_eq!(c, b"999"),
        _ => panic!("expected an invalid status"),
    }
}

#[test]
fn response_finish_leaves_body_area() {
    let mut buf = [7u8; 32];
    let (head, rest) = ResponseBuilder::new(&mut buf, Status::OK).unwrap().finish();
    assert_eq!(head.len(), 19);
    assert_eq!(rest, &[7u8; 13][..]);
}
