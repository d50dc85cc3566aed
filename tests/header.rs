use mhttp::{HeadersParser, InvalidHeader};

#[test]
fn header_block_and_rest() {
    let mut s = [""; 4];
    let (h, rest) = HeadersParser::parse(b"A: 1\r\nBb:2\r\n\r\nbody", &mut s).unwrap();
    assert_eq!(h.get("a"), Some("1"));
    assert_eq!(h.get("BB"), Some("2"));
    assert_eq!(h.get("B"), None);
    assert_eq!(rest, b"body");
}

#[test]
fn first_of_duplicate_fields_wins() {
    let mut s = [""; 4];
    let (h, _) = HeadersParser::parse(b"X: first\r\nx: second\r\n\r\n", &mut s).unwrap();
    assert_eq!(h.get("X"), Some("first"));
}

#[test]
fn value_loses_leading_white_space_only() {
    let mut s = [""; 4];
    let (h, _) = HeadersParser::parse(b"K:  \t v a \r\nL:\r\n\r\n", &mut s).unwrap();
    assert_eq!(h.get("k"), Some("v a "));
    assert_eq!(h.get("l"), Some(""));
}

#[test]
fn name_longer_than_line_does_not_match() {
    let mut s = [""; 4];
    let (h, _) = HeadersParser::parse(b"a:b\r\n\r\n", &mut s).unwrap();
    assert_eq!(h.get("a:bc"), None);
    assert_eq!(h.get("a"), Some("b"));
}

#[test]
fn empty_header_block() {
    let mut s = [""; 1];
    let (h, rest) = HeadersParser::parse(b"\r\nrest", &mut s).unwrap();
    assert_eq!(h.get("a"), None);
    assert_eq!(rest, b"rest");
    let mut none: [&str; 0] = [];
    assert!(matches!(HeadersParser::parse(b"\r\n", &mut none), Err(InvalidHeader::Truncated)));
}

#[test]
fn header_block_errors() {
    let mut s = [""; 4];
    assert!(matches!(HeadersParser::parse(b"A: 1\r\n", &mut s), Err(InvalidHeader::Truncated)));
    assert!(matches!(HeadersParser::parse(b"A: 1", &mut s), Err(InvalidHeader::Truncated)));
    assert!(matches!(HeadersParser::parse(b"", &mut s), Err(InvalidHeader::Truncated)));
    assert!(matches!(HeadersParser::parse(b"A 1\r\n\r\n", &mut s), Err(InvalidHeader::NoValue)));
    assert!(matches!(
        HeadersParser::parse(b"A: \xe2\x82\r\n\r\n", &mut s),
        Err(InvalidHeader::InvalidUTF8)
    ));
}
