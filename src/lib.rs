//! A small HTTP/1.1 codec that works in caller-supplied buffers.
//!
//! Builders write a request or status line and header fields into a byte
//! buffer; parsers read them back as views into the received bytes.
use vstd::prelude::*;

pub mod header;
pub mod request;
pub mod response;
pub mod start_line;

pub use header::{HeadersBuilder, HeadersParser, InvalidHeader};
pub use request::{InvalidRequest, Method, RequestBuilder, RequestParser};
pub use response::{InvalidResponse, ResponseBuilder, ResponseParser, Status};

verus! {

/// The buffer is too small for what was to be written.
#[derive(Debug)]
pub struct Exhausted;

} // verus!
