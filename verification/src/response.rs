//! The response builder and serializer: status, content type and an
//! optional body are accumulated, and at send time the encoding is
//! negotiated from the request, the body encoded, and the status line,
//! headers and body laid out as one byte sequence for the connection.

use vstd::prelude::*;

use crate::encoding::{negotiate_spec, Encoding};
use crate::request::{lookup, Request};
use crate::status::Status;
use crate::text::{dec_spec, push_bytes, push_dec_u64};

verus! {

/// The header name `"Accept-Encoding"`.
pub open spec fn lit_accept_encoding() -> Seq<u8> {
    seq![65u8, 99, 99, 101, 112, 116, 45, 69, 110, 99, 111, 100, 105, 110, 103]
}

/// The status-line prefix `"HTTP/1.1 "`.
pub open spec fn lit_status_prefix() -> Seq<u8> {
    seq![72u8, 84, 84, 80, 47, 49, 46, 49, 32]
}

/// The line terminator `"\r\n"`.
pub open spec fn lit_crlf() -> Seq<u8> {
    seq![13u8, 10]
}

/// The full header line `"Content-Encoding: gzip\r\n"`.
pub open spec fn lit_content_encoding_gzip() -> Seq<u8> {
    seq![67u8, 111, 110, 116, 101, 110, 116, 45, 69, 110, 99, 111, 100, 105, 110, 103, 58, 32, 103,
        122, 105, 112, 13, 10]
}

/// The header prefix `"Content-Length: "`.
pub open spec fn lit_content_length() -> Seq<u8> {
    seq![67u8, 111, 110, 116, 101, 110, 116, 45, 76, 101, 110, 103, 116, 104, 58, 32]
}

/// The header prefix `"Content-Type: "`.
pub open spec fn lit_content_type() -> Seq<u8> {
    seq![67u8, 111, 110, 116, 101, 110, 116, 45, 84, 121, 112, 101, 58, 32]
}

/// The default content type `"text/html"`.
pub open spec fn lit_text_html() -> Seq<u8> {
    seq![116u8, 101, 120, 116, 47, 104, 116, 109, 108]
}

/// A response under construction. The `content_length` field is advisory
/// only: at send time the length header is recomputed from the encoded
/// body and any caller-supplied value is overwritten.
pub struct Response {
    pub version: (u8, u8, u8),
    pub status: Status,
    pub content_type: Vec<u8>,
    pub content_length: u64,
    pub headers: Vec<(Vec<u8>, Vec<u8>)>,
    pub body: Option<Vec<u8>>,
}

impl Default for Response {
    /// A fresh response: version 1.1, status 404, content type
    /// `text/html`, no headers and no body.
    fn default() -> (r: Self)
        ensures
            r.version == (1u8, 1u8, 0u8),
            r.status == Status::NotFound,
            r.content_type@ == lit_text_html(),
            r.content_length == 0,
            r.headers@ == Seq::<(Vec<u8>, Vec<u8>)>::empty(),
            r.body is None,
    {
        let content_type: Vec<u8> = vec![116u8, 101, 120, 116, 47, 104, 116, 109, 108];
        proof {
            assert(content_type@ =~= lit_text_html());
        }
        let r = Response {
            version: (1u8, 1u8, 0u8),
            status: Status::NotFound,
            content_type,
            content_length: 0,
            headers: Vec::new(),
            body: Option::None,
        };
        proof {
            assert(r.headers@ =~= Seq::<(Vec<u8>, Vec<u8>)>::empty());
        }
        r
    }
}

/// The encoding a request's `Accept-Encoding` header selects; a missing
/// or all-unrecognized header falls back to the identity encoding.
pub open spec fn negotiated_spec(req: Request) -> Encoding {
    match lookup(req.headers_view(), lit_accept_encoding()) {
        Option::Some(v) => match negotiate_spec(v) {
            Option::Some(e) => e,
            Option::None => Encoding::Identity,
        },
        Option::None => Encoding::Identity,
    }
}

/// The encoded body: the body run through the codec, or nothing when no
/// body was set.
pub open spec fn body_encoded_spec(resp: Response, enc: Encoding) -> Seq<u8> {
    match resp.body {
        Option::Some(b) => enc.encoded_spec(b@),
        Option::None => Seq::empty(),
    }
}

/// The status line `"HTTP/1.1 <code> <reason>\r\n"`; for any version other
/// than 1.1 no status line is written.
pub open spec fn status_line_spec(resp: Response) -> Seq<u8> {
    if resp.version == (1u8, 1u8, 0u8) {
        lit_status_prefix() + resp.status.text_spec() + lit_crlf()
    } else {
        Seq::empty()
    }
}

/// The `Content-Encoding` header line: present exactly when the negotiated
/// encoding is gzip, never for the identity encoding.
pub open spec fn encoding_header_spec(enc: Encoding) -> Seq<u8> {
    match enc {
        Encoding::Gzip => lit_content_encoding_gzip(),
        Encoding::Identity => Seq::empty(),
    }
}

/// The `Content-Length` header line for a body of `n` bytes.
pub open spec fn content_length_line_spec(n: nat) -> Seq<u8> {
    lit_content_length() + dec_spec(n) + lit_crlf()
}

/// The `Content-Type` header line.
pub open spec fn content_type_line_spec(t: Seq<u8>) -> Seq<u8> {
    lit_content_type() + t + lit_crlf()
}

/// Everything `send_to` writes onto the connection: the status line, the
/// headers — `Content-Length` computed from the encoded body, never from
/// the advisory field — the blank line, and the encoded body.
pub open spec fn send_spec(resp: Response, req: Request) -> Seq<u8> {
    let enc = negotiated_spec(req);
    let body = body_encoded_spec(resp, enc);
    status_line_spec(resp) + encoding_header_spec(enc) + content_length_line_spec(body.len())
        + content_type_line_spec(resp.content_type@) + lit_crlf() + body
}

impl Response {
    /// Set the protocol version.
    pub fn version(self, version: (u8, u8, u8)) -> (r: Self)
        ensures
            r == (Response { version, ..self }),
    {
        Response { version, ..self }
    }

    /// Set the status.
    pub fn status(self, status: Status) -> (r: Self)
        ensures
            r == (Response { status, ..self }),
    {
        Response { status, ..self }
    }

    /// Set the content type.
    pub fn content_type(self, value: Vec<u8>) -> (r: Self)
        ensures
            r == (Response { content_type: value, ..self }),
    {
        Response { content_type: value, ..self }
    }

    /// Set the advisory content length. The value is never written out:
    /// `send_to` recomputes the length from the encoded body.
    pub fn content_length(self, length: u64) -> (r: Self)
        ensures
            r == (Response { content_length: length, ..self }),
    {
        Response { content_length: length, ..self }
    }

    /// Set the response headers.
    pub fn headers(self, header: Vec<(Vec<u8>, Vec<u8>)>) -> (r: Self)
        ensures
            r == (Response { headers: header, ..self }),
    {
        Response { headers: header, ..self }
    }

    /// Set the body source, replacing any prior one.
    pub fn body(self, body: Vec<u8>) -> (r: Self)
        ensures
            r == (Response { body: Option::Some(body), ..self }),
    {
        Response { body: Option::Some(body), ..self }
    }

    /// Serialize the whole exchange's reply: negotiate the encoding from
    /// the request's `Accept-Encoding` header, encode the body, and lay
    /// out status line, headers, blank line and body. Consumes both values;
    /// the caller writes the returned bytes onto the request's connection,
    /// which ends the exchange.
    #[verifier::rlimit(100)]
    pub fn send_to(self, req: Request) -> (r: Vec<u8>)
        ensures
            r@ == send_spec(self, req),
    {
        let ghost resp = self;
        let mut out: Vec<u8> = Vec::new();
        if self.version.0 == 1 && self.version.1 == 1 && self.version.2 == 0 {
            let prefix: Vec<u8> = vec![72u8, 84, 84, 80, 47, 49, 46, 49, 32];
            proof {
                assert(prefix@ =~= lit_status_prefix());
            }
            push_bytes(&mut out, prefix.as_slice());
            let st = self.status.text();
            push_bytes(&mut out, st.as_slice());
            let crlf: Vec<u8> = vec![13u8, 10];
            proof {
                assert(crlf@ =~= lit_crlf());
                assert(self.version == (1u8, 1u8, 0u8));
            }
            push_bytes(&mut out, crlf.as_slice());
            proof {
                assert(out@ =~= status_line_spec(resp));
            }
        } else {
            proof {
                assert(self.version != (1u8, 1u8, 0u8));
                assert(out@ =~= status_line_spec(resp));
            }
        }
        let accept_name: Vec<u8> = vec![65u8, 99, 99, 101, 112, 116, 45, 69, 110, 99, 111, 100,
            105, 110, 103];
        proof {
            assert(accept_name@ =~= lit_accept_encoding());
        }
        let enc = match req.get(accept_name.as_slice()) {
            Option::Some(v) => match Encoding::from_str(v.as_slice()) {
                Ok(e) => e,
                Err(_) => Encoding::default(),
            },
            Option::None => Encoding::default(),
        };
        proof {
            assert(enc == negotiated_spec(req));
        }
        let mut buf: Vec<u8> = Vec::new();
        match &self.body {
            Option::Some(b) => {
                enc.encode(&mut buf, b.as_slice());
                proof {
                    assert(buf@ =~= body_encoded_spec(resp, enc));
                }
            },
            Option::None => {
                proof {
                    assert(buf@ =~= body_encoded_spec(resp, enc));
                }
            },
        }
        match enc {
            Encoding::Gzip => {
                let h: Vec<u8> = vec![67u8, 111, 110, 116, 101, 110, 116, 45, 69, 110, 99, 111,
                    100, 105, 110, 103, 58, 32, 103, 122, 105, 112, 13, 10];
                proof {
                    assert(h@ =~= lit_content_encoding_gzip());
                }
                push_bytes(&mut out, h.as_slice());
            },
            Encoding::Identity => {},
        }
        proof {
            assert(out@ =~= status_line_spec(resp) + encoding_header_spec(enc));
        }
        let len_prefix: Vec<u8> = vec![67u8, 111, 110, 116, 101, 110, 116, 45, 76, 101, 110, 103,
            116, 104, 58, 32];
        proof {
            assert(len_prefix@ =~= lit_content_length());
        }
        push_bytes(&mut out, len_prefix.as_slice());
        push_dec_u64(&mut out, buf.len() as u64);
        let crlf: Vec<u8> = vec![13u8, 10];
        proof {
            assert(crlf@ =~= lit_crlf());
        }
        push_bytes(&mut out, crlf.as_slice());
        proof {
            assert(out@ =~= status_line_spec(resp) + encoding_header_spec(enc)
                + content_length_line_spec(buf@.len() as nat));
        }
        let type_prefix: Vec<u8> = vec![67u8, 111, 110, 116, 101, 110, 116, 45, 84, 121, 112, 101,
            58, 32];
        proof {
            assert(type_prefix@ =~= lit_content_type());
        }
        push_bytes(&mut out, type_prefix.as_slice());
        push_bytes(&mut out, self.content_type.as_slice());
        push_bytes(&mut out, crlf.as_slice());
        push_bytes(&mut out, crlf.as_slice());
        push_bytes(&mut out, buf.as_slice());
        proof {
            assert(out@ =~= send_spec(resp, req));
        }
        out
    }
}

/// `send_to` never reads the advisory `content_length` field nor the
/// response's own header list: two responses that agree on version, status,
/// content type and body serialize identically against any request, and the
/// emitted `Content-Length` is always the exact length of the encoded body.
pub proof fn lemma_content_length_exact(r1: Response, r2: Response, req: Request)
    requires
        r1.version == r2.version,
        r1.status == r2.status,
        r1.content_type@ == r2.content_type@,
        r1.body == r2.body,
    ensures
        send_spec(r1, req) == send_spec(r2, req),
        send_spec(r1, req) == status_line_spec(r1) + encoding_header_spec(negotiated_spec(req))
            + content_length_line_spec(
            body_encoded_spec(r1, negotiated_spec(req)).len(),
        ) + content_type_line_spec(r1.content_type@) + lit_crlf() + body_encoded_spec(
            r1,
            negotiated_spec(req),
        ),
{
}

} // verus!
