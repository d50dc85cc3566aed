//! Responses: `VERSION SP CODE SP REASON CRLF`, then the header block.
use vstd::prelude::*;
use vstd::slice::slice_subrange;
use vstd::string::StringSliceAdditionalSpecFns;
use vstd::utf8::{decode_utf8, encode_utf8};

use crate::header::{
    crlf, crlf_bytes, field_lines, find_crlf, join_lines, lemma_headers_round_trip,
    lemma_headers_storage_bound, lemma_headers_truncated, lemma_line_end, lemma_lookup_field,
    lemma_no_cr_no_crlf, lemma_no_crlf_join, lemma_plain_field_lines, line_end, lookup, no_cr, no_crlf,
    parse_headers, plain_field, plain_start,
    same_name, HeadersBuilder, HeadersParser, InvalidHeader,
};
use crate::start_line::{
    check_version, http_1_1, is_version, lemma_split_first, lemma_version_plain, next_token, no_space, split_spaces,
    version_bytes,
};
use crate::Exhausted;

verus! {

/// All status codes that responses can return.
#[derive(Clone, Copy, Debug, PartialEq, Eq, Structural, PartialOrd, Ord)]
pub enum Status {
    // 1xx
    Continue,
    SwitchingProtocols,
    Processing,
    EarlyHints,
    // 2xx
    OK,
    Created,
    Accepted,
    NonAuthoritativeInformation,
    NoContent,
    ResetContent,
    PartialContent,
    MultiStatus,
    AlreadyReported,
    ImUsed,
    // 3xx
    MultipleChoice,
    MovedPermanently,
    Found,
    SeeOther,
    NotModified,
    UseProxy,
    Unused,
    TemporaryRedirect,
    PermanentRedirect,
    // 4xx
    BadRequest,
    Unauthorized,
    PaymentRequired,
    Forbidden,
    NotFound,
    MethodNotAllowed,
    NotAcceptable,
    ProxyAuthenticationRequired,
    RequestTimeout,
    Conflict,
    Gone,
    LengthRequired,
    PreconditionFailed,
    PayloadTooLarge,
    UriTooLong,
    UnsupportedMediaType,
    RangeNotSatisfiable,
    ExpectationFailed,
    ImATeapot,
    MisdirectedRequest,
    UnprocessableEntity,
    Locked,
    FailedDependency,
    TooEarly,
    UpgradeRequired,
    PreconditionRequired,
    TooManyRequests,
    RequestHeaderFieldsTooLarge,
    UnavailableForLegalReasons,
    // 5xx
    InternalServerError,
    NotImplemented,
    BadGateway,
    ServiceUnavailable,
    GatewayTimeout,
    HttpVersionNotSupported,
    VariantAlsoNegotiates,
    InsufficientStorage,
    LoopDetected,
    NotExtended,
    NetworkAuthenticationRequired,
}

/// The numeric code of `s`.
pub open spec fn code_of(s: Status) -> u16 {
    match s {
        Status::Continue => 100,
        Status::SwitchingProtocols => 101,
        Status::Processing => 102,
        Status::EarlyHints => 103,
        Status::OK => 200,
        Status::Created => 201,
        Status::Accepted => 202,
        Status::NonAuthoritativeInformation => 203,
        Status::NoContent => 204,
        Status::ResetContent => 205,
        Status::PartialContent => 206,
        Status::MultiStatus => 207,
        Status::AlreadyReported => 208,
        Status::ImUsed => 226,
        Status::MultipleChoice => 300,
        Status::MovedPermanently => 301,
        Status::Found => 302,
        Status::SeeOther => 303,
        Status::NotModified => 304,
        Status::UseProxy => 305,
        Status::Unused => 306,
        Status::TemporaryRedirect => 307,
        Status::PermanentRedirect => 308,
        Status::BadRequest => 400,
        Status::Unauthorized => 401,
        Status::PaymentRequired => 402,
        Status::Forbidden => 403,
        Status::NotFound => 404,
        Status::MethodNotAllowed => 405,
        Status::NotAcceptable => 406,
        Status::ProxyAuthenticationRequired => 407,
        Status::RequestTimeout => 408,
        Status::Conflict => 409,
        Status::Gone => 410,
        Status::LengthRequired => 411,
        Status::PreconditionFailed => 412,
        Status::PayloadTooLarge => 413,
        Status::UriTooLong => 414,
        Status::UnsupportedMediaType => 415,
        Status::RangeNotSatisfiable => 416,
        Status::ExpectationFailed => 417,
        Status::ImATeapot => 418,
        Status::MisdirectedRequest => 421,
        Status::UnprocessableEntity => 422,
        Status::Locked => 423,
        Status::FailedDependency => 424,
        Status::TooEarly => 425,
        Status::UpgradeRequired => 426,
        Status::PreconditionRequired => 428,
        Status::TooManyRequests => 429,
        Status::RequestHeaderFieldsTooLarge => 431,
        Status::UnavailableForLegalReasons => 451,
        Status::InternalServerError => 500,
        Status::NotImplemented => 501,
        Status::BadGateway => 502,
        Status::ServiceUnavailable => 503,
        Status::GatewayTimeout => 504,
        Status::HttpVersionNotSupported => 505,
        Status::VariantAlsoNegotiates => 506,
        Status::InsufficientStorage => 507,
        Status::LoopDetected => 508,
        Status::NotExtended => 510,
        Status::NetworkAuthenticationRequired => 511,
    }
}

/// The status whose numeric code is `c`.
pub open spec fn status_from_code(c: u16) -> Option<Status> {
    match c {
        100 => Some(Status::Continue),
        101 => Some(Status::SwitchingProtocols),
        102 => Some(Status::Processing),
        103 => Some(Status::EarlyHints),
        200 => Some(Status::OK),
        201 => Some(Status::Created),
        202 => Some(Status::Accepted),
        203 => Some(Status::NonAuthoritativeInformation),
        204 => Some(Status::NoContent),
        205 => Some(Status::ResetContent),
        206 => Some(Status::PartialContent),
        207 => Some(Status::MultiStatus),
        208 => Some(Status::AlreadyReported),
        226 => Some(Status::ImUsed),
        300 => Some(Status::MultipleChoice),
        301 => Some(Status::MovedPermanently),
        302 => Some(Status::Found),
        303 => Some(Status::SeeOther),
        304 => Some(Status::NotModified),
        305 => Some(Status::UseProxy),
        306 => Some(Status::Unused),
        307 => Some(Status::TemporaryRedirect),
        308 => Some(Status::PermanentRedirect),
        400 => Some(Status::BadRequest),
        401 => Some(Status::Unauthorized),
        402 => Some(Status::PaymentRequired),
        403 => Some(Status::Forbidden),
        404 => Some(Status::NotFound),
        405 => Some(Status::MethodNotAllowed),
        406 => Some(Status::NotAcceptable),
        407 => Some(Status::ProxyAuthenticationRequired),
        408 => Some(Status::RequestTimeout),
        409 => Some(Status::Conflict),
        410 => Some(Status::Gone),
        411 => Some(Status::LengthRequired),
        412 => Some(Status::PreconditionFailed),
        413 => Some(Status::PayloadTooLarge),
        414 => Some(Status::UriTooLong),
        415 => Some(Status::UnsupportedMediaType),
        416 => Some(Status::RangeNotSatisfiable),
        417 => Some(Status::ExpectationFailed),
        418 => Some(Status::ImATeapot),
        421 => Some(Status::MisdirectedRequest),
        422 => Some(Status::UnprocessableEntity),
        423 => Some(Status::Locked),
        424 => Some(Status::FailedDependency),
        425 => Some(Status::TooEarly),
        426 => Some(Status::UpgradeRequired),
        428 => Some(Status::PreconditionRequired),
        429 => Some(Status::TooManyRequests),
        431 => Some(Status::RequestHeaderFieldsTooLarge),
        451 => Some(Status::UnavailableForLegalReasons),
        500 => Some(Status::InternalServerError),
        501 => Some(Status::NotImplemented),
        502 => Some(Status::BadGateway),
        503 => Some(Status::ServiceUnavailable),
        504 => Some(Status::GatewayTimeout),
        505 => Some(Status::HttpVersionNotSupported),
        506 => Some(Status::VariantAlsoNegotiates),
        507 => Some(Status::InsufficientStorage),
        508 => Some(Status::LoopDetected),
        510 => Some(Status::NotExtended),
        511 => Some(Status::NetworkAuthenticationRequired),
        _ => None,
    }
}

/// The reason phrase of `s`.
pub open spec fn reason_of(s: Status) -> Seq<char> {
    match s {
        Status::Continue => "Continue"@,
        Status::SwitchingProtocols => "Switching Protocols"@,
        Status::Processing => "Processing"@,
        Status::EarlyHints => "Early Hints"@,
        Status::OK => "OK"@,
        Status::Created => "Created"@,
        Status::Accepted => "Accepted"@,
        Status::NonAuthoritativeInformation => "Non-Authoritative Information"@,
        Status::NoContent => "No Content"@,
        Status::ResetContent => "Reset Content"@,
        Status::PartialContent => "Partial Content"@,
        Status::MultiStatus => "Multi-Status"@,
        Status::AlreadyReported => "Already Reported"@,
        Status::ImUsed => "IM Used"@,
        Status::MultipleChoice => "Multiple Choices"@,
        Status::MovedPermanently => "Moved Permanently"@,
        Status::Found => "Found"@,
        Status::SeeOther => "See Other"@,
        Status::NotModified => "Not Modified"@,
        Status::UseProxy => "Use Proxy"@,
        Status::Unused => "(Unused)"@,
        Status::TemporaryRedirect => "Temporary Redirect"@,
        Status::PermanentRedirect => "Permanent Redirect"@,
        Status::BadRequest => "Bad Request"@,
        Status::Unauthorized => "Unauthorized"@,
        Status::PaymentRequired => "Payment Required"@,
        Status::Forbidden => "Forbidden"@,
        Status::NotFound => "Not Found"@,
        Status::MethodNotAllowed => "Method Not Allowed"@,
        Status::NotAcceptable => "Not Acceptable"@,
        Status::ProxyAuthenticationRequired => "Proxy Authentication Required"@,
        Status::RequestTimeout => "Request Timeout"@,
        Status::Conflict => "Conflict"@,
        Status::Gone => "Gone"@,
        Status::LengthRequired => "Length Required"@,
        Status::PreconditionFailed => "Precondition Failed"@,
        Status::PayloadTooLarge => "Payload Too Large"@,
        Status::UriTooLong => "URI Too Long"@,
        Status::UnsupportedMediaType => "Unsupported Media Type"@,
        Status::RangeNotSatisfiable => "Range Not Satisfiable"@,
        Status::ExpectationFailed => "Expectation Failed"@,
        Status::ImATeapot => "I'm a teapot"@,
        Status::MisdirectedRequest => "Misdirected Request"@,
        Status::UnprocessableEntity => "Unprocessable Entity"@,
        Status::Locked => "Locked"@,
        Status::FailedDependency => "Failed Dependency"@,
        Status::TooEarly => "Too Early"@,
        Status::UpgradeRequired => "Upgrade Required"@,
        Status::PreconditionRequired => "Precondition Required"@,
        Status::TooManyRequests => "Too Many Requests"@,
        Status::RequestHeaderFieldsTooLarge => "Request Header Fields Too Large"@,
        Status::UnavailableForLegalReasons => "Unavailable For Legal Reasons"@,
        Status::InternalServerError => "Internal Server Error"@,
        Status::NotImplemented => "Not Implemented"@,
        Status::BadGateway => "Bad Gateway"@,
        Status::ServiceUnavailable => "Service Unavailable"@,
        Status::GatewayTimeout => "Gateway Timeout"@,
        Status::HttpVersionNotSupported => "HTTP Version Not Supported"@,
        Status::VariantAlsoNegotiates => "Variant Also Negotiates"@,
        Status::InsufficientStorage => "Insufficient Storage"@,
        Status::LoopDetected => "Loop Detected"@,
        Status::NotExtended => "Not Extended"@,
        Status::NetworkAuthenticationRequired => "Network Authentication Required"@,
    }
}

/// The three decimal digits of the code `c`.
pub open spec fn code_digits(c: u16) -> Seq<u8> {
    seq![(48 + c / 100) as u8, (48 + c / 10 % 10) as u8, (48 + c % 10) as u8]
}

/// `b` is an ASCII decimal digit.
pub open spec fn is_digit(b: u8) -> bool {
    48 <= b && b <= 57
}

/// The status that the token `t` names: three decimal digits that form a
/// known code.
pub open spec fn status_of(t: Seq<u8>) -> Option<Status> {
    if t.len() == 3 && is_digit(t[0]) && is_digit(t[1]) && is_digit(t[2]) {
        status_from_code(((t[0] - 48) * 100 + (t[1] - 48) * 10 + (t[2] - 48)) as u16)
    } else {
        None
    }
}

/// The status line for `s`, with its CR LF.
pub open spec fn status_line(s: Status) -> Seq<u8> {
    http_1_1() + seq![32u8] + code_digits(code_of(s)) + seq![32u8] + encode_utf8(reason_of(s)) + crlf()
}

impl Status {
    /// The numeric code.
    pub fn code(self) -> (r: u16)
        ensures
            r == code_of(self),
            100 <= r <= 599,
    {
        match self {
            Status::Continue => 100,
            Status::SwitchingProtocols => 101,
            Status::Processing => 102,
            Status::EarlyHints => 103,
            Status::OK => 200,
            Status::Created => 201,
            Status::Accepted => 202,
            Status::NonAuthoritativeInformation => 203,
            Status::NoContent => 204,
            Status::ResetContent => 205,
            Status::PartialContent => 206,
            Status::MultiStatus => 207,
            Status::AlreadyReported => 208,
            Status::ImUsed => 226,
            Status::MultipleChoice => 300,
            Status::MovedPermanently => 301,
            Status::Found => 302,
            Status::SeeOther => 303,
            Status::NotModified => 304,
            Status::UseProxy => 305,
            Status::Unused => 306,
            Status::TemporaryRedirect => 307,
            Status::PermanentRedirect => 308,
            Status::BadRequest => 400,
            Status::Unauthorized => 401,
            Status::PaymentRequired => 402,
            Status::Forbidden => 403,
            Status::NotFound => 404,
            Status::MethodNotAllowed => 405,
            Status::NotAcceptable => 406,
            Status::ProxyAuthenticationRequired => 407,
            Status::RequestTimeout => 408,
            Status::Conflict => 409,
            Status::Gone => 410,
            Status::LengthRequired => 411,
            Status::PreconditionFailed => 412,
            Status::PayloadTooLarge => 413,
            Status::UriTooLong => 414,
            Status::UnsupportedMediaType => 415,
            Status::RangeNotSatisfiable => 416,
            Status::ExpectationFailed => 417,
            Status::ImATeapot => 418,
            Status::MisdirectedRequest => 421,
            Status::UnprocessableEntity => 422,
            Status::Locked => 423,
            Status::FailedDependency => 424,
            Status::TooEarly => 425,
            Status::UpgradeRequired => 426,
            Status::PreconditionRequired => 428,
            Status::TooManyRequests => 429,
            Status::RequestHeaderFieldsTooLarge => 431,
            Status::UnavailableForLegalReasons => 451,
            Status::InternalServerError => 500,
            Status::NotImplemented => 501,
            Status::BadGateway => 502,
            Status::ServiceUnavailable => 503,
            Status::GatewayTimeout => 504,
            Status::HttpVersionNotSupported => 505,
            Status::VariantAlsoNegotiates => 506,
            Status::InsufficientStorage => 507,
            Status::LoopDetected => 508,
            Status::NotExtended => 510,
            Status::NetworkAuthenticationRequired => 511,
        }
    }

    /// The status with the numeric code `c`, if there is one.
    pub fn from_code(c: u16) -> (r: Option<Status>)
        ensures
            r == status_from_code(c),
    {
        match c {
            100 => Some(Status::Continue),
            101 => Some(Status::SwitchingProtocols),
            102 => Some(Status::Processing),
            103 => Some(Status::EarlyHints),
            200 => Some(Status::OK),
            201 => Some(Status::Created),
            202 => Some(Status::Accepted),
            203 => Some(Status::NonAuthoritativeInformation),
            204 => Some(Status::NoContent),
            205 => Some(Status::ResetContent),
            206 => Some(Status::PartialContent),
            207 => Some(Status::MultiStatus),
            208 => Some(Status::AlreadyReported),
            226 => Some(Status::ImUsed),
            300 => Some(Status::MultipleChoice),
            301 => Some(Status::MovedPermanently),
            302 => Some(Status::Found),
            303 => Some(Status::SeeOther),
            304 => Some(Status::NotModified),
            305 => Some(Status::UseProxy),
            306 => Some(Status::Unused),
            307 => Some(Status::TemporaryRedirect),
            308 => Some(Status::PermanentRedirect),
            400 => Some(Status::BadRequest),
            401 => Some(Status::Unauthorized),
            402 => Some(Status::PaymentRequired),
            403 => Some(Status::Forbidden),
            404 => Some(Status::NotFound),
            405 => Some(Status::MethodNotAllowed),
            406 => Some(Status::NotAcceptable),
            407 => Some(Status::ProxyAuthenticationRequired),
            408 => Some(Status::RequestTimeout),
            409 => Some(Status::Conflict),
            410 => Some(Status::Gone),
            411 => Some(Status::LengthRequired),
            412 => Some(Status::PreconditionFailed),
            413 => Some(Status::PayloadTooLarge),
            414 => Some(Status::UriTooLong),
            415 => Some(Status::UnsupportedMediaType),
            416 => Some(Status::RangeNotSatisfiable),
            417 => Some(Status::ExpectationFailed),
            418 => Some(Status::ImATeapot),
            421 => Some(Status::MisdirectedRequest),
            422 => Some(Status::UnprocessableEntity),
            423 => Some(Status::Locked),
            424 => Some(Status::FailedDependency),
            425 => Some(Status::TooEarly),
            426 => Some(Status::UpgradeRequired),
            428 => Some(Status::PreconditionRequired),
            429 => Some(Status::TooManyRequests),
            431 => Some(Status::RequestHeaderFieldsTooLarge),
            451 => Some(Status::UnavailableForLegalReasons),
            500 => Some(Status::InternalServerError),
            501 => Some(Status::NotImplemented),
            502 => Some(Status::BadGateway),
            503 => Some(Status::ServiceUnavailable),
            504 => Some(Status::GatewayTimeout),
            505 => Some(Status::HttpVersionNotSupported),
            506 => Some(Status::VariantAlsoNegotiates),
            507 => Some(Status::InsufficientStorage),
            508 => Some(Status::LoopDetected),
            510 => Some(Status::NotExtended),
            511 => Some(Status::NetworkAuthenticationRequired),
            _ => None,
        }
    }

    /// The reason phrase.
    pub fn reason(self) -> (r: &'static str)
        ensures
            r@ == reason_of(self),
    {
        match self {
            Status::Continue => "Continue",
            Status::SwitchingProtocols => "Switching Protocols",
            Status::Processing => "Processing",
            Status::EarlyHints => "Early Hints",
            Status::OK => "OK",
            Status::Created => "Created",
            Status::Accepted => "Accepted",
            Status::NonAuthoritativeInformation => "Non-Authoritative Information",
            Status::NoContent => "No Content",
            Status::ResetContent => "Reset Content",
            Status::PartialContent => "Partial Content",
            Status::MultiStatus => "Multi-Status",
            Status::AlreadyReported => "Already Reported",
            Status::ImUsed => "IM Used",
            Status::MultipleChoice => "Multiple Choices",
            Status::MovedPermanently => "Moved Permanently",
            Status::Found => "Found",
            Status::SeeOther => "See Other",
            Status::NotModified => "Not Modified",
            Status::UseProxy => "Use Proxy",
            Status::Unused => "(Unused)",
            Status::TemporaryRedirect => "Temporary Redirect",
            Status::PermanentRedirect => "Permanent Redirect",
            Status::BadRequest => "Bad Request",
            Status::Unauthorized => "Unauthorized",
            Status::PaymentRequired => "Payment Required",
            Status::Forbidden => "Forbidden",
            Status::NotFound => "Not Found",
            Status::MethodNotAllowed => "Method Not Allowed",
            Status::NotAcceptable => "Not Acceptable",
            Status::ProxyAuthenticationRequired => "Proxy Authentication Required",
            Status::RequestTimeout => "Request Timeout",
            Status::Conflict => "Conflict",
            Status::Gone => "Gone",
            Status::LengthRequired => "Length Required",
            Status::PreconditionFailed => "Precondition Failed",
            Status::PayloadTooLarge => "Payload Too Large",
            Status::UriTooLong => "URI Too Long",
            Status::UnsupportedMediaType => "Unsupported Media Type",
            Status::RangeNotSatisfiable => "Range Not Satisfiable",
            Status::ExpectationFailed => "Expectation Failed",
            Status::ImATeapot => "I'm a teapot",
            Status::MisdirectedRequest => "Misdirected Request",
            Status::UnprocessableEntity => "Unprocessable Entity",
            Status::Locked => "Locked",
            Status::FailedDependency => "Failed Dependency",
            Status::TooEarly => "Too Early",
            Status::UpgradeRequired => "Upgrade Required",
            Status::PreconditionRequired => "Precondition Required",
            Status::TooManyRequests => "Too Many Requests",
            Status::RequestHeaderFieldsTooLarge => "Request Header Fields Too Large",
            Status::UnavailableForLegalReasons => "Unavailable For Legal Reasons",
            Status::InternalServerError => "Internal Server Error",
            Status::NotImplemented => "Not Implemented",
            Status::BadGateway => "Bad Gateway",
            Status::ServiceUnavailable => "Service Unavailable",
            Status::GatewayTimeout => "Gateway Timeout",
            Status::HttpVersionNotSupported => "HTTP Version Not Supported",
            Status::VariantAlsoNegotiates => "Variant Also Negotiates",
            Status::InsufficientStorage => "Insufficient Storage",
            Status::LoopDetected => "Loop Detected",
            Status::NotExtended => "Not Extended",
            Status::NetworkAuthenticationRequired => "Network Authentication Required",
        }
    }

    /// The status named by the code token `t`, if any.
    pub fn from_token(t: &[u8]) -> (r: Option<Status>)
        ensures
            r == status_of(t@),
    {
        if t.len() == 3 && 48u8 <= t[0] && t[0] <= 57u8 && 48u8 <= t[1] && t[1] <= 57u8
            && 48u8 <= t[2] && t[2] <= 57u8 {
            let c = (t[0] - 48u8) as u16 * 100 + (t[1] - 48u8) as u16 * 10 + (t[2] - 48u8) as u16;
            Status::from_code(c)
        } else {
            None
        }
    }
}

/// Utility for creating HTTP responses.
pub struct ResponseBuilder<'a>(HeadersBuilder<'a>);

impl<'a> ResponseBuilder<'a> {
    /// The bytes written so far.
    pub closed spec fn written(&self) -> Seq<u8> {
        self.0.written()
    }

    /// The length of the whole buffer.
    pub closed spec fn capacity(&self) -> nat {
        self.0.capacity()
    }

    /// The bytes after the write position, not written yet.
    pub closed spec fn rest(&self) -> Seq<u8> {
        self.0.rest()
    }

    /// The room for the closing blank line is still free.
    pub closed spec fn wf(&self) -> bool {
        self.0.wf()
    }

    /// Begins a response by writing its status line into `buffer`.
    pub fn new(buffer: &'a mut [u8], status: Status) -> (r: Result<Self, Exhausted>)
        ensures
            r is Err <==> old(buffer)@.len() < status_line(status).len() + 2,
            r is Err ==> final(buffer)@ == old(buffer)@,
            r matches Ok(b) ==> b.wf() && b.capacity() == old(buffer)@.len() && b.written()
                == status_line(status) && b.rest() == old(buffer)@.subrange(
                status_line(status).len() as int,
                old(buffer)@.len() as int,
            ),
    {
        let version = version_bytes();
        let code = status.code();
        let reason = status.reason().as_bytes();
        let end = crlf_bytes();
        let cap = buffer.len();
        if reason.len() > cap || cap - reason.len() < 17 {
            return Err(Exhausted);
        }
        let b = HeadersBuilder::start(buffer);
        let b = b.push(version);
        let b = b.push_byte(32u8);
        let b = b.push_byte((code / 100) as u8 + 48);
        let b = b.push_byte((code / 10 % 10) as u8 + 48);
        let b = b.push_byte((code % 10) as u8 + 48);
        let b = b.push_byte(32u8);
        let b = b.push(reason);
        let b = b.push(end);
        assert(b.written() =~= status_line(status));
        Ok(ResponseBuilder(b))
    }

    /// Appends the header field `header: value`.
    pub fn add_header(self, header: &str, value: &str) -> (r: Result<Self, Exhausted>)
        requires
            self.wf(),
        ensures
            r is Err <==> self.capacity() - self.written().len()
                < header.spec_bytes().len() + value.spec_bytes().len() + 6,
            r matches Ok(b) ==> b.wf() && b.capacity() == self.capacity() && b.written()
                == self.written() + crate::header::header_line(header.spec_bytes(), value.spec_bytes())
                && b.rest() == self.rest().subrange(
                crate::header::header_line(header.spec_bytes(), value.spec_bytes()).len() as int,
                self.rest().len() as int,
            ),
    {
        match self.0.add_header(header, value) {
            Ok(b) => Ok(ResponseBuilder(b)),
            Err(e) => Err(e),
        }
    }

    /// Ends the head with a blank line; returns the bytes of the response
    /// and the rest of the buffer.
    pub fn finish(self) -> (r: (&'a [u8], &'a mut [u8]))
        requires
            self.wf(),
        ensures
            r.0@ == self.written() + crlf(),
            r.1@.len() == self.capacity() - self.written().len() - 2,
            r.1@ == self.rest().subrange(2, self.rest().len() as int),
    {
        self.0.finish()
    }
}

/// A failed response parse as values: the kind of fault and, where there is
/// one, the token at fault.
pub enum ResponseFault {
    InvalidStatus(Seq<u8>),
    UnsupportedVersion(Seq<u8>),
    Truncated,
    InvalidUTF8,
    NoValue,
}

/// The response fault that a header fault becomes.
pub open spec fn header_fault(e: InvalidHeader) -> ResponseFault {
    match e {
        InvalidHeader::Truncated => ResponseFault::Truncated,
        InvalidHeader::InvalidUTF8 => ResponseFault::InvalidUTF8,
        InvalidHeader::NoValue => ResponseFault::NoValue,
    }
}

/// A response head read from `data` with `slots` header slots: the status,
/// the raw header lines and what follows the head. The reason phrase is
/// not read.
pub open spec fn parse_response(data: Seq<u8>, slots: nat) -> Result<
    (Status, Seq<Seq<u8>>, Seq<u8>),
    ResponseFault,
> {
    match line_end(data) {
        None => Err(ResponseFault::Truncated),
        Some(i) => {
            let toks = split_spaces(data.subrange(0, i));
            if toks.len() < 2 {
                Err(ResponseFault::Truncated)
            } else if !is_version(toks[0]) {
                Err(ResponseFault::UnsupportedVersion(toks[0]))
            } else {
                match status_of(toks[1]) {
                    None => Err(ResponseFault::InvalidStatus(toks[1])),
                    Some(s) => match parse_headers(data.subrange(i + 2, data.len() as int), slots) {
                        Ok((lines, rest)) => Ok((s, lines, rest)),
                        Err(e) => Err(header_fault(e)),
                    },
                }
            }
        },
    }
}

/// Utility for parsing HTTP responses.
#[derive(Debug)]
pub struct ResponseParser<'a, 'b> {
    pub status: Status,
    headers: HeadersParser<'a, 'b>,
}

impl<'a, 'b> View for ResponseParser<'a, 'b> {
    /// The status and the raw header lines.
    type V = (Status, Seq<Seq<u8>>);

    closed spec fn view(&self) -> (Status, Seq<Seq<u8>>) {
        (self.status, self.headers.lines())
    }
}

impl<'a, 'b> ResponseParser<'a, 'b> {
    /// The status of the response.
    pub fn status(&self) -> (r: Status)
        ensures
            r == self@.0,
    {
        self.status
    }

    /// Parses a response head at the start of `data`, keeping one header
    /// line per slot of `storage`; returns the response and what follows
    /// the head.
    pub fn parse(data: &'a [u8], storage: &'b mut [&'a str]) -> (r: Result<
        (Self, &'a [u8]),
        InvalidResponse<'a>,
    >)
        ensures
            match r {
                Ok((p, rest)) => parse_response(data@, old(storage)@.len()) == Ok::<_, ResponseFault>(
                    (p@.0, p@.1, rest@),
                ),
                Err(e) => parse_response(data@, old(storage)@.len()) == Err::<
                    (Status, Seq<Seq<u8>>, Seq<u8>),
                    _,
                >(e@),
            },
            final(storage)@.len() == old(storage)@.len(),
            r matches Ok((p, _)) ==> final(storage)@.subrange(0, p@.1.len() as int).map_values(
                |h: &str| h.spec_bytes(),
            ) == p@.1,
            r matches Ok((p, _)) ==> final(storage)@.subrange(p@.1.len() as int, old(storage)@.len() as int)
                == old(storage)@.subrange(p@.1.len() as int, old(storage)@.len() as int),
    {
        let i = match find_crlf(data) {
            None => {
                return Err(InvalidResponse::Truncated);
            },
            Some(i) => i,
        };
        let (h, d) = data.split_at(i);
        let (version, rest) = next_token(h);
        let rest = match rest {
            None => {
                return Err(InvalidResponse::Truncated);
            },
            Some(rest) => rest,
        };
        let (code, _) = next_token(rest);
        if !check_version(version) {
            return Err(InvalidResponse::UnsupportedVersion(version));
        }
        let status = match Status::from_token(code) {
            None => {
                return Err(InvalidResponse::InvalidStatus(code));
            },
            Some(s) => s,
        };
        let d = slice_subrange(d, 2, d.len());
        assert(d@ =~= data@.subrange(i + 2, data@.len() as int));
        match HeadersParser::parse(d, storage) {
            Ok((headers, rest)) => Ok((ResponseParser { status, headers }, rest)),
            Err(e) => Err(InvalidResponse::from(e)),
        }
    }

    /// The value of the first header field named `header`, ignoring ASCII
    /// case, with leading white space removed.
    pub fn header(&self, header: &str) -> (r: Option<&'a str>)
        ensures
            match r {
                Some(v) => lookup(self@.1, header.spec_bytes()) == Some(v@),
                None => lookup(self@.1, header.spec_bytes()) is None,
            },
    {
        self.headers.get(header)
    }
}

/// A response head as the builder writes it: the status line, the header
/// fields in the order they were added, and the blank line.
pub open spec fn response_head(status: Status, fields: Seq<(Seq<u8>, Seq<u8>)>) -> Seq<u8> {
    status_line(status) + join_lines(field_lines(fields)) + crlf()
}

/// A status's code reads back as that status.
pub proof fn lemma_code_digits(s: Status)
    ensures
        status_of(code_digits(code_of(s))) == Some(s),
        no_space(code_digits(code_of(s))),
        no_cr(code_digits(code_of(s))),
{
    match s {
        Status::Continue => {},
        Status::SwitchingProtocols => {},
        Status::Processing => {},
        Status::EarlyHints => {},
        Status::OK => {},
        Status::Created => {},
        Status::Accepted => {},
        Status::NonAuthoritativeInformation => {},
        Status::NoContent => {},
        Status::ResetContent => {},
        Status::PartialContent => {},
        Status::MultiStatus => {},
        Status::AlreadyReported => {},
        Status::ImUsed => {},
        Status::MultipleChoice => {},
        Status::MovedPermanently => {},
        Status::Found => {},
        Status::SeeOther => {},
        Status::NotModified => {},
        Status::UseProxy => {},
        Status::Unused => {},
        Status::TemporaryRedirect => {},
        Status::PermanentRedirect => {},
        Status::BadRequest => {},
        Status::Unauthorized => {},
        Status::PaymentRequired => {},
        Status::Forbidden => {},
        Status::NotFound => {},
        Status::MethodNotAllowed => {},
        Status::NotAcceptable => {},
        Status::ProxyAuthenticationRequired => {},
        Status::RequestTimeout => {},
        Status::Conflict => {},
        Status::Gone => {},
        Status::LengthRequired => {},
        Status::PreconditionFailed => {},
        Status::PayloadTooLarge => {},
        Status::UriTooLong => {},
        Status::UnsupportedMediaType => {},
        Status::RangeNotSatisfiable => {},
        Status::ExpectationFailed => {},
        Status::ImATeapot => {},
        Status::MisdirectedRequest => {},
        Status::UnprocessableEntity => {},
        Status::Locked => {},
        Status::FailedDependency => {},
        Status::TooEarly => {},
        Status::UpgradeRequired => {},
        Status::PreconditionRequired => {},
        Status::TooManyRequests => {},
        Status::RequestHeaderFieldsTooLarge => {},
        Status::UnavailableForLegalReasons => {},
        Status::InternalServerError => {},
        Status::NotImplemented => {},
        Status::BadGateway => {},
        Status::ServiceUnavailable => {},
        Status::GatewayTimeout => {},
        Status::HttpVersionNotSupported => {},
        Status::VariantAlsoNegotiates => {},
        Status::InsufficientStorage => {},
        Status::LoopDetected => {},
        Status::NotExtended => {},
        Status::NetworkAuthenticationRequired => {},
    }
    let d = code_digits(code_of(s));
    assert(!d.contains(32u8)) by {
        if d.contains(32u8) {
            let i = choose|i: int| 0 <= i < d.len() && d[i] == 32u8;
        }
    }
}

/// Reason phrases are ASCII without carriage returns.
pub proof fn lemma_reason_plain(s: Status)
    ensures
        no_cr(encode_utf8(reason_of(s))),
{
    match s {
        Status::Continue => {
            reveal_strlit("Continue");
        },
        Status::SwitchingProtocols => {
            reveal_strlit("Switching Protocols");
        },
        Status::Processing => {
            reveal_strlit("Processing");
        },
        Status::EarlyHints => {
            reveal_strlit("Early Hints");
        },
        Status::OK => {
            reveal_strlit("OK");
        },
        Status::Created => {
            reveal_strlit("Created");
        },
        Status::Accepted => {
            reveal_strlit("Accepted");
        },
        Status::NonAuthoritativeInformation => {
            reveal_strlit("Non-Authoritative Information");
        },
        Status::NoContent => {
            reveal_strlit("No Content");
        },
        Status::ResetContent => {
            reveal_strlit("Reset Content");
        },
        Status::PartialContent => {
            reveal_strlit("Partial Content");
        },
        Status::MultiStatus => {
            reveal_strlit("Multi-Status");
        },
        Status::AlreadyReported => {
            reveal_strlit("Already Reported");
        },
        Status::ImUsed => {
            reveal_strlit("IM Used");
        },
        Status::MultipleChoice => {
            reveal_strlit("Multiple Choices");
        },
        Status::MovedPermanently => {
            reveal_strlit("Moved Permanently");
        },
        Status::Found => {
            reveal_strlit("Found");
        },
        Status::SeeOther => {
            reveal_strlit("See Other");
        },
        Status::NotModified => {
            reveal_strlit("Not Modified");
        },
        Status::UseProxy => {
            reveal_strlit("Use Proxy");
        },
        Status::Unused => {
            reveal_strlit("(Unused)");
        },
        Status::TemporaryRedirect => {
            reveal_strlit("Temporary Redirect");
        },
        Status::PermanentRedirect => {
            reveal_strlit("Permanent Redirect");
        },
        Status::BadRequest => {
            reveal_strlit("Bad Request");
        },
        Status::Unauthorized => {
            reveal_strlit("Unauthorized");
        },
        Status::PaymentRequired => {
            reveal_strlit("Payment Required");
        },
        Status::Forbidden => {
            reveal_strlit("Forbidden");
        },
        Status::NotFound => {
            reveal_strlit("Not Found");
        },
        Status::MethodNotAllowed => {
            reveal_strlit("Method Not Allowed");
        },
        Status::NotAcceptable => {
            reveal_strlit("Not Acceptable");
        },
        Status::ProxyAuthenticationRequired => {
            reveal_strlit("Proxy Authentication Required");
        },
        Status::RequestTimeout => {
            reveal_strlit("Request Timeout");
        },
        Status::Conflict => {
            reveal_strlit("Conflict");
        },
        Status::Gone => {
            reveal_strlit("Gone");
        },
        Status::LengthRequired => {
            reveal_strlit("Length Required");
        },
        Status::PreconditionFailed => {
            reveal_strlit("Precondition Failed");
        },
        Status::PayloadTooLarge => {
            reveal_strlit("Payload Too Large");
        },
        Status::UriTooLong => {
            reveal_strlit("URI Too Long");
        },
        Status::UnsupportedMediaType => {
            reveal_strlit("Unsupported Media Type");
        },
        Status::RangeNotSatisfiable => {
            reveal_strlit("Range Not Satisfiable");
        },
        Status::ExpectationFailed => {
            reveal_strlit("Expectation Failed");
        },
        Status::ImATeapot => {
            reveal_strlit("I'm a teapot");
        },
        Status::MisdirectedRequest => {
            reveal_strlit("Misdirected Request");
        },
        Status::UnprocessableEntity => {
            reveal_strlit("Unprocessable Entity");
        },
        Status::Locked => {
            reveal_strlit("Locked");
        },
        Status::FailedDependency => {
            reveal_strlit("Failed Dependency");
        },
        Status::TooEarly => {
            reveal_strlit("Too Early");
        },
        Status::UpgradeRequired => {
            reveal_strlit("Upgrade Required");
        },
        Status::PreconditionRequired => {
            reveal_strlit("Precondition Required");
        },
        Status::TooManyRequests => {
            reveal_strlit("Too Many Requests");
        },
        Status::RequestHeaderFieldsTooLarge => {
            reveal_strlit("Request Header Fields Too Large");
        },
        Status::UnavailableForLegalReasons => {
            reveal_strlit("Unavailable For Legal Reasons");
        },
        Status::InternalServerError => {
            reveal_strlit("Internal Server Error");
        },
        Status::NotImplemented => {
            reveal_strlit("Not Implemented");
        },
        Status::BadGateway => {
            reveal_strlit("Bad Gateway");
        },
        Status::ServiceUnavailable => {
            reveal_strlit("Service Unavailable");
        },
        Status::GatewayTimeout => {
            reveal_strlit("Gateway Timeout");
        },
        Status::HttpVersionNotSupported => {
            reveal_strlit("HTTP Version Not Supported");
        },
        Status::VariantAlsoNegotiates => {
            reveal_strlit("Variant Also Negotiates");
        },
        Status::InsufficientStorage => {
            reveal_strlit("Insufficient Storage");
        },
        Status::LoopDetected => {
            reveal_strlit("Loop Detected");
        },
        Status::NotExtended => {
            reveal_strlit("Not Extended");
        },
        Status::NetworkAuthenticationRequired => {
            reveal_strlit("Network Authentication Required");
        },
    }
    let r = reason_of(s);
    assert(vstd::utf8::is_ascii_chars(r));
    vstd::utf8::is_ascii_chars_encode_utf8(r);
}

/// A status line with a version token that this codec reads, a code token
/// without spaces or CR LF, and a reason without CR LF: the parse reads the
/// code and goes on with the header block that follows.
proof fn lemma_status_line_parts(
    version: Seq<u8>,
    code: Seq<u8>,
    reason: Seq<u8>,
    tail: Seq<u8>,
    slots: nat,
)
    requires
        is_version(version),
        no_space(code),
        no_crlf(code),
        no_crlf(reason),
    ensures
        parse_response(version + seq![32u8] + code + seq![32u8] + reason + crlf() + tail, slots)
            == match status_of(code) {
            None => Err(ResponseFault::InvalidStatus(code)),
            Some(s) => match parse_headers(tail, slots) {
                Ok((lines, rest)) => Ok((s, lines, rest)),
                Err(e) => Err(header_fault(e)),
            },
        },
{
    let v = version;
    lemma_version_plain(v);
    let sp = seq![32u8];
    let line = v + sp + code + sp + reason;
    let data = v + sp + code + sp + reason + crlf() + tail;
    assert(data =~= line + crlf() + tail);
    lemma_no_crlf_join(code, sp, reason);
    lemma_no_crlf_join(v, sp, code + sp + reason);
    assert(line =~= v + sp + (code + sp + reason));
    lemma_line_end(line, tail);
    let n = line.len() as int;
    assert(data.subrange(0, n) =~= line);
    assert(data.subrange(n + 2, data.len() as int) =~= tail);
    lemma_split_first(v, code + sp + reason);
    lemma_split_first(code, reason);
    let toks = split_spaces(line);
    assert(toks =~= seq![v, code] + split_spaces(reason));
    assert(toks[0] == v && toks[1] == code);
}

/// Round trip: a response head as the builder writes it reads back as the
/// same status and header fields, and what follows it is the body. Each
/// field whose name and the names before it hold no colon, that no earlier
/// field names, and whose value does not start with white space, is found
/// by its name with its value.
pub proof fn lemma_response_round_trip(
    status: Status,
    fields: Seq<(Seq<u8>, Seq<u8>)>,
    body: Seq<u8>,
    slots: nat,
)
    requires
        forall|k: int| 0 <= k < fields.len() ==> plain_field(#[trigger] fields[k].0, fields[k].1),
        slots > fields.len(),
    ensures
        parse_response(response_head(status, fields) + body, slots) == Ok::<_, ResponseFault>(
            (status, field_lines(fields), body),
        ),
        forall|k: int|
            0 <= k < fields.len() && plain_start(decode_utf8(fields[k].1)) && (forall|j: int|
                0 <= j <= k ==> !(#[trigger] fields[j].0).contains(58u8)) && (forall|j: int|
                0 <= j < k ==> !same_name(#[trigger] fields[j].0, fields[k].0)) ==> lookup(
                field_lines(fields),
                #[trigger] fields[k].0,
            ) == Some(decode_utf8(fields[k].1)),
{
    let lines = field_lines(fields);
    let code = code_digits(code_of(status));
    let reason = encode_utf8(reason_of(status));
    lemma_code_digits(status);
    lemma_reason_plain(status);
    lemma_plain_field_lines(fields);
    let tail = join_lines(lines) + crlf() + body;
    assert(response_head(status, fields) + body =~= http_1_1() + seq![32u8] + code + seq![32u8]
        + reason + crlf() + tail);
    lemma_no_cr_no_crlf(code);
    lemma_no_cr_no_crlf(reason);
    lemma_status_line_parts(http_1_1(), code, reason, tail, slots);
    lemma_headers_round_trip(lines, body, slots);
    assert forall|k: int|
        0 <= k < fields.len() && plain_start(decode_utf8(fields[k].1)) && (forall|j: int|
            0 <= j <= k ==> !(#[trigger] fields[j].0).contains(58u8)) && (forall|j: int|
            0 <= j < k ==> !same_name(#[trigger] fields[j].0, fields[k].0)) implies lookup(
        field_lines(fields),
        #[trigger] fields[k].0,
    ) == Some(decode_utf8(fields[k].1)) by {
        lemma_lookup_field(fields, k);
    }
}

/// Truncation: a response whose head lacks the closing blank line, ending
/// in a tail without CR LF, fails with `Truncated`.
pub proof fn lemma_response_truncated(
    status: Status,
    fields: Seq<(Seq<u8>, Seq<u8>)>,
    tail: Seq<u8>,
    slots: nat,
)
    requires
        forall|k: int| 0 <= k < fields.len() ==> plain_field(#[trigger] fields[k].0, fields[k].1),
        no_crlf(tail),
    ensures
        parse_response(status_line(status) + join_lines(field_lines(fields)) + tail, slots) == Err::<
            (Status, Seq<Seq<u8>>, Seq<u8>),
            _,
        >(ResponseFault::Truncated),
{
    let lines = field_lines(fields);
    let code = code_digits(code_of(status));
    let reason = encode_utf8(reason_of(status));
    lemma_code_digits(status);
    lemma_reason_plain(status);
    lemma_plain_field_lines(fields);
    let rest = join_lines(lines) + tail;
    assert(status_line(status) + join_lines(lines) + tail =~= http_1_1() + seq![32u8] + code
        + seq![32u8] + reason + crlf() + rest);
    lemma_no_cr_no_crlf(code);
    lemma_no_cr_no_crlf(reason);
    lemma_status_line_parts(http_1_1(), code, reason, rest, slots);
    lemma_headers_truncated(lines, tail, slots);
}

/// Storage bound: a response with at least as many header fields as slots
/// fails with `Truncated`.
pub proof fn lemma_response_storage_bound(
    status: Status,
    fields: Seq<(Seq<u8>, Seq<u8>)>,
    body: Seq<u8>,
    slots: nat,
)
    requires
        forall|k: int| 0 <= k < fields.len() ==> plain_field(#[trigger] fields[k].0, fields[k].1),
        slots <= fields.len(),
    ensures
        parse_response(response_head(status, fields) + body, slots) == Err::<
            (Status, Seq<Seq<u8>>, Seq<u8>),
            _,
        >(ResponseFault::Truncated),
{
    let lines = field_lines(fields);
    let code = code_digits(code_of(status));
    let reason = encode_utf8(reason_of(status));
    lemma_code_digits(status);
    lemma_reason_plain(status);
    lemma_plain_field_lines(fields);
    let tail = join_lines(lines) + (crlf() + body);
    assert(response_head(status, fields) + body =~= http_1_1() + seq![32u8] + code + seq![32u8]
        + reason + crlf() + tail);
    lemma_no_cr_no_crlf(code);
    lemma_no_cr_no_crlf(reason);
    lemma_status_line_parts(http_1_1(), code, reason, tail, slots);
    lemma_headers_storage_bound(lines, crlf() + body, slots);
}

/// Unknown tokens: a status line whose code token names no status fails
/// with `InvalidStatus`, carrying that token.
pub proof fn lemma_unknown_status(
    version: Seq<u8>,
    code: Seq<u8>,
    reason: Seq<u8>,
    rest: Seq<u8>,
    slots: nat,
)
    requires
        status_of(code) is None,
        is_version(version),
        no_space(code),
        no_crlf(code),
        no_crlf(reason),
    ensures
        parse_response(version + seq![32u8] + code + seq![32u8] + reason + crlf() + rest, slots)
            == Err::<(Status, Seq<Seq<u8>>, Seq<u8>), _>(ResponseFault::InvalidStatus(code)),
{
    lemma_status_line_parts(version, code, reason, rest, slots);
}

/// Errors that may occur while parsing a response.
#[derive(Debug)]
pub enum InvalidResponse<'a> {
    InvalidStatus(&'a [u8]),
    UnsupportedVersion(&'a [u8]),
    Truncated,
    InvalidUTF8,
    NoValue,
}

impl<'a> View for InvalidResponse<'a> {
    type V = ResponseFault;

    open spec fn view(&self) -> ResponseFault {
        match self {
            InvalidResponse::InvalidStatus(b) => ResponseFault::InvalidStatus(b@),
            InvalidResponse::UnsupportedVersion(b) => ResponseFault::UnsupportedVersion(b@),
            InvalidResponse::Truncated => ResponseFault::Truncated,
            InvalidResponse::InvalidUTF8 => ResponseFault::InvalidUTF8,
            InvalidResponse::NoValue => ResponseFault::NoValue,
        }
    }
}

impl<'a> From<InvalidHeader> for InvalidResponse<'a> {
    fn from(h: InvalidHeader) -> (r: Self)
        ensures
            r@ == header_fault(h),
    {
        match h {
            InvalidHeader::Truncated => InvalidResponse::Truncated,
            InvalidHeader::InvalidUTF8 => InvalidResponse::InvalidUTF8,
            InvalidHeader::NoValue => InvalidResponse::NoValue,
        }
    }
}

impl<'a> vstd::std_specs::convert::FromSpecImpl<InvalidHeader> for InvalidResponse<'a> {
    open spec fn obeys_from_spec() -> bool {
        true
    }

    open spec fn from_spec(h: InvalidHeader) -> Self {
        match h {
            InvalidHeader::Truncated => InvalidResponse::Truncated,
            InvalidHeader::InvalidUTF8 => InvalidResponse::InvalidUTF8,
            InvalidHeader::NoValue => InvalidResponse::NoValue,
        }
    }
}

} // verus!
