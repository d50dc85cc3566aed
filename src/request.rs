//! Requests: `METHOD SP PATH SP VERSION CRLF`, then the header block.
use vstd::prelude::*;
use vstd::slice::slice_subrange;
use vstd::string::StringSliceAdditionalSpecFns;
use vstd::utf8::{decode_utf8, valid_utf8};

use crate::header::{
    ascii, crlf, field_lines, join_lines, lemma_headers_round_trip, lemma_headers_storage_bound,
    lemma_headers_truncated, lemma_line_end, lemma_lookup_field, lemma_no_cr_no_crlf, lemma_no_crlf_join, lemma_plain_field_lines, no_crlf,
    plain_field, plain_start, same_name, crlf_bytes, find_crlf, line_end, lookup, parse_headers, str_from_utf8,
    HeadersBuilder, HeadersParser, InvalidHeader,
};
use crate::start_line::{
    check_version, http_1_1, is_version, lemma_split_first, lemma_version_plain, lemma_split_none, next_token, no_space,
    same_bytes, split_spaces, version_bytes,
};
use crate::Exhausted;

verus! {

/// All methods that may be used in requests.
#[derive(Clone, Copy, Debug, PartialEq, Eq, Structural, PartialOrd, Ord)]
pub enum Method {
    Get,
    Head,
    Post,
    Put,
    Delete,
    Connect,
    Options,
    Trace,
    Patch,
}

/// The token that names `m` on the wire.
pub open spec fn method_token(m: Method) -> Seq<u8> {
    match m {
        Method::Get => seq!['G' as u8, 'E' as u8, 'T' as u8],
        Method::Head => seq!['H' as u8, 'E' as u8, 'A' as u8, 'D' as u8],
        Method::Post => seq!['P' as u8, 'O' as u8, 'S' as u8, 'T' as u8],
        Method::Put => seq!['P' as u8, 'U' as u8, 'T' as u8],
        Method::Delete => seq!['D' as u8, 'E' as u8, 'L' as u8, 'E' as u8, 'T' as u8, 'E' as u8],
        Method::Connect => seq!['C' as u8, 'O' as u8, 'N' as u8, 'N' as u8, 'E' as u8, 'C' as u8, 'T' as u8],
        Method::Options => seq!['O' as u8, 'P' as u8, 'T' as u8, 'I' as u8, 'O' as u8, 'N' as u8, 'S' as u8],
        Method::Trace => seq!['T' as u8, 'R' as u8, 'A' as u8, 'C' as u8, 'E' as u8],
        Method::Patch => seq!['P' as u8, 'A' as u8, 'T' as u8, 'C' as u8, 'H' as u8],
    }
}

/// The method whose token is `t`.
pub open spec fn method_of(t: Seq<u8>) -> Option<Method> {
    if t == method_token(Method::Get) {
        Some(Method::Get)
    } else if t == method_token(Method::Head) {
        Some(Method::Head)
    } else if t == method_token(Method::Post) {
        Some(Method::Post)
    } else if t == method_token(Method::Put) {
        Some(Method::Put)
    } else if t == method_token(Method::Delete) {
        Some(Method::Delete)
    } else if t == method_token(Method::Connect) {
        Some(Method::Connect)
    } else if t == method_token(Method::Options) {
        Some(Method::Options)
    } else if t == method_token(Method::Trace) {
        Some(Method::Trace)
    } else if t == method_token(Method::Patch) {
        Some(Method::Patch)
    } else {
        None
    }
}

impl Method {
    /// The token that names this method on the wire.
    pub fn token(self) -> (r: &'static [u8])
        ensures
            r@ == method_token(self),
    {
        let r = match self {
            Method::Get => {
                proof {
                    reveal_strlit("GET");
                }
                ascii("GET")
            },
            Method::Head => {
                proof {
                    reveal_strlit("HEAD");
                }
                ascii("HEAD")
            },
            Method::Post => {
                proof {
                    reveal_strlit("POST");
                }
                ascii("POST")
            },
            Method::Put => {
                proof {
                    reveal_strlit("PUT");
                }
                ascii("PUT")
            },
            Method::Delete => {
                proof {
                    reveal_strlit("DELETE");
                }
                ascii("DELETE")
            },
            Method::Connect => {
                proof {
                    reveal_strlit("CONNECT");
                }
                ascii("CONNECT")
            },
            Method::Options => {
                proof {
                    reveal_strlit("OPTIONS");
                }
                ascii("OPTIONS")
            },
            Method::Trace => {
                proof {
                    reveal_strlit("TRACE");
                }
                ascii("TRACE")
            },
            Method::Patch => {
                proof {
                    reveal_strlit("PATCH");
                }
                ascii("PATCH")
            },
        };
        assert(r@ =~= method_token(self));
        r
    }

    /// The method named by the token `t`, if any.
    pub fn from_token(t: &[u8]) -> (r: Option<Method>)
        ensures
            r == method_of(t@),
    {
        if same_bytes(t, Method::Get.token()) {
            Some(Method::Get)
        } else if same_bytes(t, Method::Head.token()) {
            Some(Method::Head)
        } else if same_bytes(t, Method::Post.token()) {
            Some(Method::Post)
        } else if same_bytes(t, Method::Put.token()) {
            Some(Method::Put)
        } else if same_bytes(t, Method::Delete.token()) {
            Some(Method::Delete)
        } else if same_bytes(t, Method::Connect.token()) {
            Some(Method::Connect)
        } else if same_bytes(t, Method::Options.token()) {
            Some(Method::Options)
        } else if same_bytes(t, Method::Trace.token()) {
            Some(Method::Trace)
        } else if same_bytes(t, Method::Patch.token()) {
            Some(Method::Patch)
        } else {
            None
        }
    }
}

/// The request line for `method` and `path`, with its CR LF.
pub open spec fn request_line(method: Method, path: Seq<u8>) -> Seq<u8> {
    method_token(method) + seq![32u8] + path + seq![32u8] + http_1_1() + crlf()
}

/// Utility for creating HTTP requests.
pub struct RequestBuilder<'a>(HeadersBuilder<'a>);

impl<'a> RequestBuilder<'a> {
    /// The bytes written so far.
    pub closed spec fn written(&self) -> Seq<u8> {
        self.0.written()
    }

    /// The length of the whole buffer.
    pub closed spec fn capacity(&self) -> nat {
        self.0.capacity()
    }

    /// The bytes after the write position, not written yet.
    pub closed spec fn rest(&self) -> Seq<u8> {
        self.0.rest()
    }

    /// The room for the closing blank line is still free.
    pub closed spec fn wf(&self) -> bool {
        self.0.wf()
    }

    /// Begins a request by writing its request line into `buffer`.
    pub fn new(buffer: &'a mut [u8], path: &str, method: Method) -> (r: Result<Self, Exhausted>)
        ensures
            r is Err <==> old(buffer)@.len() < request_line(method, path.spec_bytes()).len() + 2,
            r is Err ==> final(buffer)@ == old(buffer)@,
            r matches Ok(b) ==> b.wf() && b.capacity() == old(buffer)@.len() && b.written()
                == request_line(method, path.spec_bytes()) && b.rest() == old(buffer)@.subrange(
                request_line(method, path.spec_bytes()).len() as int,
                old(buffer)@.len() as int,
            ),
    {
        let token = method.token();
        let p = path.as_bytes();
        let version = version_bytes();
        let end = crlf_bytes();
        let cap = buffer.len();
        if p.len() > cap || cap - p.len() < token.len() + 14 {
            return Err(Exhausted);
        }
        let b = HeadersBuilder::start(buffer);
        let b = b.push(token);
        let b = b.push_byte(32u8);
        let b = b.push(p);
        let b = b.push_byte(32u8);
        let b = b.push(version);
        let b = b.push(end);
        assert(b.written() =~= request_line(method, path.spec_bytes()));
        Ok(RequestBuilder(b))
    }

    /// Appends the header field `header: value`.
    pub fn add_header(self, header: &str, value: &str) -> (r: Result<Self, Exhausted>)
        requires
            self.wf(),
        ensures
            r is Err <==> self.capacity() - self.written().len()
                < header.spec_bytes().len() + value.spec_bytes().len() + 6,
            r matches Ok(b) ==> b.wf() && b.capacity() == self.capacity() && b.written()
                == self.written() + crate::header::header_line(header.spec_bytes(), value.spec_bytes())
                && b.rest() == self.rest().subrange(
                crate::header::header_line(header.spec_bytes(), value.spec_bytes()).len() as int,
                self.rest().len() as int,
            ),
    {
        match self.0.add_header(header, value) {
            Ok(b) => Ok(RequestBuilder(b)),
            Err(e) => Err(e),
        }
    }

    /// Ends the head with a blank line; returns the bytes of the request
    /// and the rest of the buffer.
    pub fn finish(self) -> (r: (&'a [u8], &'a mut [u8]))
        requires
            self.wf(),
        ensures
            r.0@ == self.written() + crlf(),
            r.1@.len() == self.capacity() - self.written().len() - 2,
            r.1@ == self.rest().subrange(2, self.rest().len() as int),
    {
        self.0.finish()
    }
}

/// A failed request parse as values: the kind of fault and, where there is
/// one, the token at fault.
pub enum RequestFault {
    InvalidMethod(Seq<u8>),
    InvalidPath(Seq<u8>),
    UnsupportedVersion(Seq<u8>),
    TrailingGarbage(Seq<u8>),
    Truncated,
    InvalidUTF8,
    NoValue,
}

/// The request fault that a header fault becomes.
pub open spec fn header_fault(e: InvalidHeader) -> RequestFault {
    match e {
        InvalidHeader::Truncated => RequestFault::Truncated,
        InvalidHeader::InvalidUTF8 => RequestFault::InvalidUTF8,
        InvalidHeader::NoValue => RequestFault::NoValue,
    }
}

/// A request head read from `data` with `slots` header slots: the method,
/// the path, the raw header lines and what follows the head.
pub open spec fn parse_request(data: Seq<u8>, slots: nat) -> Result<
    (Method, Seq<u8>, Seq<Seq<u8>>, Seq<u8>),
    RequestFault,
> {
    match line_end(data) {
        None => Err(RequestFault::Truncated),
        Some(i) => {
            let toks = split_spaces(data.subrange(0, i));
            if toks.len() < 3 {
                Err(RequestFault::Truncated)
            } else if toks.len() > 3 {
                Err(RequestFault::TrailingGarbage(toks[3]))
            } else if !is_version(toks[2]) {
                Err(RequestFault::UnsupportedVersion(toks[2]))
            } else {
                match method_of(toks[0]) {
                    None => Err(RequestFault::InvalidMethod(toks[0])),
                    Some(m) => if !valid_utf8(toks[1]) {
                        Err(RequestFault::InvalidPath(toks[1]))
                    } else {
                        match parse_headers(data.subrange(i + 2, data.len() as int), slots) {
                            Ok((lines, rest)) => Ok((m, toks[1], lines, rest)),
                            Err(e) => Err(header_fault(e)),
                        }
                    },
                }
            }
        },
    }
}

/// Utility for parsing HTTP requests.
#[derive(Debug)]
pub struct RequestParser<'a, 'b> {
    pub method: Method,
    pub path: &'a str,
    headers: HeadersParser<'a, 'b>,
}

impl<'a, 'b> View for RequestParser<'a, 'b> {
    /// The method, the bytes of the path and the raw header lines.
    type V = (Method, Seq<u8>, Seq<Seq<u8>>);

    closed spec fn view(&self) -> (Method, Seq<u8>, Seq<Seq<u8>>) {
        (self.method, self.path.spec_bytes(), self.headers.lines())
    }
}

impl<'a, 'b> RequestParser<'a, 'b> {
    /// The method of the request.
    pub fn method(&self) -> (r: Method)
        ensures
            r == self@.0,
    {
        self.method
    }

    /// The path of the request.
    pub fn path(&self) -> (r: &'a str)
        ensures
            r.spec_bytes() == self@.1,
    {
        self.path
    }

    /// Parses a request head at the start of `data`, keeping one header
    /// line per slot of `storage`; returns the request and what follows
    /// the head.
    pub fn parse(data: &'a [u8], storage: &'b mut [&'a str]) -> (r: Result<
        (Self, &'a [u8]),
        InvalidRequest<'a>,
    >)
        ensures
            match r {
                Ok((p, rest)) => parse_request(data@, old(storage)@.len()) == Ok::<_, RequestFault>(
                    (p@.0, p@.1, p@.2, rest@),
                ),
                Err(e) => parse_request(data@, old(storage)@.len()) == Err::<
                    (Method, Seq<u8>, Seq<Seq<u8>>, Seq<u8>),
                    _,
                >(e@),
            },
            final(storage)@.len() == old(storage)@.len(),
            r matches Ok((p, _)) ==> final(storage)@.subrange(0, p@.2.len() as int).map_values(
                |h: &str| h.spec_bytes(),
            ) == p@.2,
            r matches Ok((p, _)) ==> final(storage)@.subrange(p@.2.len() as int, old(storage)@.len() as int)
                == old(storage)@.subrange(p@.2.len() as int, old(storage)@.len() as int),
    {
        let i = match find_crlf(data) {
            None => {
                return Err(InvalidRequest::Truncated);
            },
            Some(i) => i,
        };
        let (h, d) = data.split_at(i);
        let (method, rest) = next_token(h);
        let rest = match rest {
            None => {
                return Err(InvalidRequest::Truncated);
            },
            Some(rest) => rest,
        };
        let (path, rest) = next_token(rest);
        let rest = match rest {
            None => {
                return Err(InvalidRequest::Truncated);
            },
            Some(rest) => rest,
        };
        let (version, rest) = next_token(rest);
        match rest {
            Some(g) => {
                let (garbage, _) = next_token(g);
                return Err(InvalidRequest::TrailingGarbage(garbage));
            },
            None => {},
        }
        if !check_version(version) {
            return Err(InvalidRequest::UnsupportedVersion(version));
        }
        let method = match Method::from_token(method) {
            None => {
                return Err(InvalidRequest::InvalidMethod(method));
            },
            Some(m) => m,
        };
        let path = match str_from_utf8(path) {
            None => {
                return Err(InvalidRequest::InvalidPath(path));
            },
            Some(p) => p,
        };
        let d = slice_subrange(d, 2, d.len());
        assert(d@ =~= data@.subrange(i + 2, data@.len() as int));
        match HeadersParser::parse(d, storage) {
            Ok((headers, rest)) => Ok((RequestParser { method, path, headers }, rest)),
            Err(e) => Err(InvalidRequest::from(e)),
        }
    }

    /// The value of the first header field named `header`, ignoring ASCII
    /// case, with leading white space removed.
    pub fn header(&self, header: &str) -> (r: Option<&'a str>)
        ensures
            match r {
                Some(v) => lookup(self@.2, header.spec_bytes()) == Some(v@),
                None => lookup(self@.2, header.spec_bytes()) is None,
            },
    {
        self.headers.get(header)
    }
}

/// Errors that may occur while parsing a request.
#[derive(Debug)]
pub enum InvalidRequest<'a> {
    InvalidMethod(&'a [u8]),
    InvalidPath(&'a [u8]),
    UnsupportedVersion(&'a [u8]),
    TrailingGarbage(&'a [u8]),
    Truncated,
    InvalidUTF8,
    NoValue,
}

impl<'a> View for InvalidRequest<'a> {
    type V = RequestFault;

    open spec fn view(&self) -> RequestFault {
        match self {
            InvalidRequest::InvalidMethod(b) => RequestFault::InvalidMethod(b@),
            InvalidRequest::InvalidPath(b) => RequestFault::InvalidPath(b@),
            InvalidRequest::UnsupportedVersion(b) => RequestFault::UnsupportedVersion(b@),
            InvalidRequest::TrailingGarbage(b) => RequestFault::TrailingGarbage(b@),
            InvalidRequest::Truncated => RequestFault::Truncated,
            InvalidRequest::InvalidUTF8 => RequestFault::InvalidUTF8,
            InvalidRequest::NoValue => RequestFault::NoValue,
        }
    }
}

impl<'a> From<InvalidHeader> for InvalidRequest<'a> {
    fn from(h: InvalidHeader) -> (r: Self)
        ensures
            r@ == header_fault(h),
    {
        match h {
            InvalidHeader::Truncated => InvalidRequest::Truncated,
            InvalidHeader::InvalidUTF8 => InvalidRequest::InvalidUTF8,
            InvalidHeader::NoValue => InvalidRequest::NoValue,
        }
    }
}

impl<'a> vstd::std_specs::convert::FromSpecImpl<InvalidHeader> for InvalidRequest<'a> {
    open spec fn obeys_from_spec() -> bool {
        true
    }

    open spec fn from_spec(h: InvalidHeader) -> Self {
        match h {
            InvalidHeader::Truncated => InvalidRequest::Truncated,
            InvalidHeader::InvalidUTF8 => InvalidRequest::InvalidUTF8,
            InvalidHeader::NoValue => InvalidRequest::NoValue,
        }
    }
}

/// A request head as the builder writes it: the request line, the header
/// fields in the order they were added, and the blank line.
pub open spec fn request_head(
    method: Method,
    path: Seq<u8>,
    fields: Seq<(Seq<u8>, Seq<u8>)>,
) -> Seq<u8> {
    request_line(method, path) + join_lines(field_lines(fields)) + crlf()
}

/// A method's token has no space or CR LF and names that method.
pub proof fn lemma_method_token(m: Method)
    ensures
        no_space(method_token(m)),
        no_crlf(method_token(m)),
        method_of(method_token(m)) == Some(m),
{
    let t = method_token(m);
    assert forall|i: int| 0 <= i < t.len() implies t[i] != 32u8 && t[i] != 13u8 by {
        match m {
            Method::Get => {},
            Method::Head => {},
            Method::Post => {},
            Method::Put => {},
            Method::Delete => {},
            Method::Connect => {},
            Method::Options => {},
            Method::Trace => {},
            Method::Patch => {},
        }
    }
    assert(!t.contains(32u8));
    lemma_no_cr_no_crlf(t);
}

/// A request line with a method token, a path and a version token that
/// this codec reads, none with spaces or CR LF: the parse reads the method
/// and the path and goes on with the header block that follows.
proof fn lemma_request_line_parts(
    token: Seq<u8>,
    path: Seq<u8>,
    version: Seq<u8>,
    tail: Seq<u8>,
    slots: nat,
)
    requires
        no_space(token),
        no_crlf(token),
        no_space(path),
        no_crlf(path),
        is_version(version),
    ensures
        parse_request(token + seq![32u8] + path + seq![32u8] + version + crlf() + tail, slots)
            == if !(method_of(token) is Some) {
            Err(RequestFault::InvalidMethod(token))
        } else if !valid_utf8(path) {
            Err(RequestFault::InvalidPath(path))
        } else {
            match parse_headers(tail, slots) {
                Ok((lines, rest)) => Ok((method_of(token)->Some_0, path, lines, rest)),
                Err(e) => Err(header_fault(e)),
            }
        },
{
    let v = version;
    lemma_version_plain(v);
    let sp = seq![32u8];
    let line = token + sp + path + sp + v;
    let data = token + sp + path + sp + v + crlf() + tail;
    assert(data =~= line + crlf() + tail);
    lemma_no_crlf_join(path, sp, v);
    lemma_no_crlf_join(token, sp, path + sp + v);
    assert(line =~= token + sp + (path + sp + v));
    lemma_line_end(line, tail);
    let n = line.len() as int;
    assert(data.subrange(0, n) =~= line);
    assert(data.subrange(n + 2, data.len() as int) =~= tail);
    lemma_split_first(token, path + sp + v);
    lemma_split_first(path, v);
    lemma_split_none(v);
    assert(split_spaces(line) =~= seq![token, path, v]);
}

/// Round trip: a request head as the builder writes it reads back as the
/// same method, path and header fields, and what follows it is the body.
/// Each field whose name and the names before it hold no colon, that no
/// earlier field names, and whose value does not start with white space,
/// is found by its name with its value.
pub proof fn lemma_request_round_trip(
    method: Method,
    path: Seq<u8>,
    fields: Seq<(Seq<u8>, Seq<u8>)>,
    body: Seq<u8>,
    slots: nat,
)
    requires
        valid_utf8(path),
        no_space(path),
        no_crlf(path),
        forall|k: int| 0 <= k < fields.len() ==> plain_field(#[trigger] fields[k].0, fields[k].1),
        slots > fields.len(),
    ensures
        parse_request(request_head(method, path, fields) + body, slots) == Ok::<_, RequestFault>(
            (method, path, field_lines(fields), body),
        ),
        forall|k: int|
            0 <= k < fields.len() && plain_start(decode_utf8(fields[k].1)) && (forall|j: int|
                0 <= j <= k ==> !(#[trigger] fields[j].0).contains(58u8)) && (forall|j: int|
                0 <= j < k ==> !same_name(#[trigger] fields[j].0, fields[k].0)) ==> lookup(
                field_lines(fields),
                #[trigger] fields[k].0,
            ) == Some(decode_utf8(fields[k].1)),
{
    let lines = field_lines(fields);
    let token = method_token(method);
    lemma_method_token(method);
    lemma_plain_field_lines(fields);
    let tail = join_lines(lines) + crlf() + body;
    assert(request_head(method, path, fields) + body =~= token + seq![32u8] + path + seq![32u8]
        + http_1_1() + crlf() + tail);
    lemma_request_line_parts(token, path, http_1_1(), tail, slots);
    lemma_headers_round_trip(lines, body, slots);
    assert forall|k: int|
        0 <= k < fields.len() && plain_start(decode_utf8(fields[k].1)) && (forall|j: int|
            0 <= j <= k ==> !(#[trigger] fields[j].0).contains(58u8)) && (forall|j: int|
            0 <= j < k ==> !same_name(#[trigger] fields[j].0, fields[k].0)) implies lookup(
        field_lines(fields),
        #[trigger] fields[k].0,
    ) == Some(decode_utf8(fields[k].1)) by {
        lemma_lookup_field(fields, k);
    }
}

/// Truncation: a request whose head lacks the closing blank line, ending
/// in a tail without CR LF, fails with `Truncated`.
pub proof fn lemma_request_truncated(
    method: Method,
    path: Seq<u8>,
    fields: Seq<(Seq<u8>, Seq<u8>)>,
    tail: Seq<u8>,
    slots: nat,
)
    requires
        valid_utf8(path),
        no_space(path),
        no_crlf(path),
        forall|k: int| 0 <= k < fields.len() ==> plain_field(#[trigger] fields[k].0, fields[k].1),
        no_crlf(tail),
    ensures
        parse_request(request_line(method, path) + join_lines(field_lines(fields)) + tail, slots)
            == Err::<(Method, Seq<u8>, Seq<Seq<u8>>, Seq<u8>), _>(RequestFault::Truncated),
{
    let lines = field_lines(fields);
    let token = method_token(method);
    lemma_method_token(method);
    lemma_plain_field_lines(fields);
    let rest = join_lines(lines) + tail;
    assert(request_line(method, path) + join_lines(lines) + tail =~= token + seq![32u8] + path
        + seq![32u8] + http_1_1() + crlf() + rest);
    lemma_request_line_parts(token, path, http_1_1(), rest, slots);
    lemma_headers_truncated(lines, tail, slots);
}

/// Storage bound: a request with at least as many header fields as slots
/// fails with `Truncated`.
pub proof fn lemma_request_storage_bound(
    method: Method,
    path: Seq<u8>,
    fields: Seq<(Seq<u8>, Seq<u8>)>,
    body: Seq<u8>,
    slots: nat,
)
    requires
        valid_utf8(path),
        no_space(path),
        no_crlf(path),
        forall|k: int| 0 <= k < fields.len() ==> plain_field(#[trigger] fields[k].0, fields[k].1),
        slots <= fields.len(),
    ensures
        parse_request(request_head(method, path, fields) + body, slots) == Err::<
            (Method, Seq<u8>, Seq<Seq<u8>>, Seq<u8>),
            _,
        >(RequestFault::Truncated),
{
    let lines = field_lines(fields);
    let token = method_token(method);
    lemma_method_token(method);
    lemma_plain_field_lines(fields);
    let tail = join_lines(lines) + (crlf() + body);
    assert(request_head(method, path, fields) + body =~= token + seq![32u8] + path + seq![32u8]
        + http_1_1() + crlf() + tail);
    lemma_request_line_parts(token, path, http_1_1(), tail, slots);
    lemma_headers_storage_bound(lines, crlf() + body, slots);
}

/// Unknown tokens: a request line whose first token names no method fails
/// with `InvalidMethod`, carrying that token.
pub proof fn lemma_unknown_method(
    token: Seq<u8>,
    path: Seq<u8>,
    version: Seq<u8>,
    rest: Seq<u8>,
    slots: nat,
)
    requires
        method_of(token) is None,
        no_space(token),
        no_crlf(token),
        no_space(path),
        no_crlf(path),
        is_version(version),
    ensures
        parse_request(token + seq![32u8] + path + seq![32u8] + version + crlf() + rest, slots)
            == Err::<(Method, Seq<u8>, Seq<Seq<u8>>, Seq<u8>), _>(RequestFault::InvalidMethod(token)),
{
    lemma_request_line_parts(token, path, version, rest, slots);
}

} // verus!
