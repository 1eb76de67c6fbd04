//! A minimal HTTP/1.1 request/response codec: a request parser, a response
//! serializer, and a content-encoding pipeline, all stated over byte
//! sequences and verified.

use vstd::prelude::*;

mod encoding;
mod request;
mod response;
mod status;
pub mod text;

pub use encoding::Encoding;
pub use request::{headers_complete, Method, Request};
pub use response::Response;
pub use status::Status;


verus! {

/// Errors surfaced by the codec.
#[derive(Clone, Copy, Debug, PartialEq, Eq, Structural)]
pub enum HttpError {
    /// Malformed request line: wrong token count, unknown method, or
    /// unsupported protocol version.
    InvalidRequest,
    /// An encoding token outside the recognized set.
    UnsupportedEncoding,
}

} // verus!
