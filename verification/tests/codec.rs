use http_codec::{Encoding, HttpError, Method, Request, Response, Status};

use std::io::Read;

fn parse_ok(buf: &[u8]) -> Request {
    match Request::parse(buf) {
        Ok(r) => r,
        Err(e) => panic!("expected a parse, got {:?}", e),
    }
}

/// Split a serialized response into its head (up to and including the blank
/// line) and its body.
fn split_response(bytes: &[u8]) -> (Vec<u8>, Vec<u8>) {
    let mut at = None;
    for i in 0..bytes.len().saturating_sub(3) {
        if &bytes[i..i + 4] == b"\r\n\r\n" {
            at = Some(i);
            break;
        }
    }
    let i = at.expect("no blank line in response");
    (bytes[..i + 4].to_vec(), bytes[i + 4..].to_vec())
}

fn contains(haystack: &[u8], needle: &[u8]) -> bool {
    if needle.is_empty() {
        return true;
    }
    if haystack.len() < needle.len() {
        return false;
    }
    for i in 0..=haystack.len() - needle.len() {
        if &haystack[i..i + needle.len()] == needle {
            return true;
        }
    }
    false
}

fn zlib_decode(data: &[u8]) -> Vec<u8> {
    let mut out = Vec::new();
    flate2::read::ZlibDecoder::new(data)
        .read_to_end(&mut out)
        .expect("a valid zlib stream");
    out
}

#[test]
fn well_formed_request_lines_parse_for_every_method() {
    let cases: [(&[u8], Method); 9] = [
        (b"CONNECT", Method::Connect),
        (b"DELETE", Method::Delete),
        (b"GET", Method::Get),
        (b"HEAD", Method::Head),
        (b"OPTIONS", Method::Options),
        (b"PATCH", Method::Patch),
        (b"POST", Method::Post),
        (b"PUT", Method::Put),
        (b"TRACE", Method::Trace),
    ];
    for (tok, m) in cases {
        let mut buf = tok.to_vec();
        buf.extend_from_slice(b" /path HTTP/1.1\r\n\r\n");
        let req = parse_ok(&buf);
        assert_eq!(req.method, m);
        assert_eq!(req.target, b"/path".to_vec());
        assert_eq!(req.version, (1, 1, 0));
    }
}

#[test]
fn method_token_is_matched_case_insensitively() {
    let req = parse_ok(b"gEt /x HTTP/1.1\r\n\r\n");
    assert_eq!(req.method, Method::Get);
}

#[test]
fn unknown_method_is_rejected() {
    assert_eq!(
        Request::parse(b"BREW / HTTP/1.1\r\n\r\n"),
        Err(HttpError::InvalidRequest)
    );
}

#[test]
fn two_token_request_line_is_rejected() {
    assert_eq!(
        Request::parse(b"GET /path\r\n\r\n"),
        Err(HttpError::InvalidRequest)
    );
}

#[test]
fn four_token_request_line_is_rejected() {
    assert_eq!(
        Request::parse(b"GET /path HTTP/1.1 extra\r\n\r\n"),
        Err(HttpError::InvalidRequest)
    );
}

#[test]
fn http_1_0_is_rejected() {
    assert_eq!(
        Request::parse(b"GET /path HTTP/1.0\r\n\r\n"),
        Err(HttpError::InvalidRequest)
    );
}

#[test]
fn header_names_and_values_are_trimmed() {
    let req = parse_ok(b"GET / HTTP/1.1\r\nFoo:   bar  \r\n\r\n");
    assert_eq!(req.get(b"Foo"), Some(&b"bar".to_vec()));
}

#[test]
fn interior_whitespace_of_a_header_value_is_preserved() {
    let req = parse_ok(b"GET / HTTP/1.1\r\nFoo:  a  b \r\n\r\n");
    assert_eq!(req.get(b"Foo"), Some(&b"a  b".to_vec()));
}

#[test]
fn duplicate_header_names_keep_the_last_value() {
    let req = parse_ok(b"GET / HTTP/1.1\r\nFoo: one\r\nFoo: two\r\n\r\n");
    assert_eq!(req.get(b"Foo"), Some(&b"two".to_vec()));
}

#[test]
fn header_lookup_is_by_exact_name() {
    let req = parse_ok(b"GET / HTTP/1.1\r\nFoo: bar\r\n\r\n");
    assert_eq!(req.get(b"foo"), None);
    assert_eq!(req.get(b"Foo"), Some(&b"bar".to_vec()));
}

#[test]
fn lines_without_a_colon_are_skipped() {
    let req = parse_ok(b"GET / HTTP/1.1\r\nnonsense\r\nFoo: bar\r\n\r\n");
    assert_eq!(req.get(b"Foo"), Some(&b"bar".to_vec()));
    assert_eq!(req.get(b"nonsense"), None);
}

#[test]
fn headers_complete_detects_the_terminator() {
    let mut buf = b"GET / HTTP/1.1".to_vec();
    assert!(!http_codec::headers_complete(&buf));
    buf.extend_from_slice(b"\r\n\r\n");
    assert!(http_codec::headers_complete(&buf));
    assert!(!http_codec::headers_complete(b"\r\n\r"));
}

#[test]
fn encoding_negotiation_takes_the_first_recognized_token() {
    assert_eq!(Encoding::from_str(b"deflate, gzip"), Ok(Encoding::Gzip));
    assert_eq!(Encoding::from_str(b"gzip"), Ok(Encoding::Gzip));
    assert_eq!(Encoding::from_str(b"  gzip , br"), Ok(Encoding::Gzip));
}

#[test]
fn unrecognized_encodings_are_refused() {
    assert_eq!(
        Encoding::from_str(b"br"),
        Err(HttpError::UnsupportedEncoding)
    );
    assert_eq!(Encoding::from_str(b""), Err(HttpError::UnsupportedEncoding));
    assert_eq!(Encoding::default(), Encoding::Identity);
}

#[test]
fn identity_encoding_round_trips_at_every_length() {
    for n in [0usize, 1, 1023, 1024, 10000] {
        let data: Vec<u8> = (0..n).map(|i| (i % 251) as u8).collect();
        let mut sink = Vec::new();
        Encoding::Identity.encode(&mut sink, &data);
        assert_eq!(sink, data);
    }
}

#[test]
fn gzip_encoding_round_trips_through_a_standard_decoder() {
    for n in [0usize, 1, 1023, 1024, 10000] {
        let data: Vec<u8> = (0..n).map(|i| (i % 251) as u8).collect();
        let mut sink = Vec::new();
        Encoding::Gzip.encode(&mut sink, &data);
        assert_eq!(zlib_decode(&sink), data);
    }
}

#[test]
fn gzip_encoding_does_not_hand_its_input_back() {
    let data = b"abcabcabc".to_vec();
    let mut sink = Vec::new();
    Encoding::Gzip.encode(&mut sink, &data);
    assert_ne!(sink, data);
}

#[test]
fn status_lines_serialize_code_and_reason() {
    assert_eq!(Status::OK.text(), b"200 OK".to_vec());
    assert_eq!(Status::Created.text(), b"201 Created".to_vec());
    assert_eq!(Status::NotFound.text(), b"404 Not Found".to_vec());
    assert_eq!(Status::OK.code(), 200);
    assert_eq!(Status::NotFound.code(), 404);
}

#[test]
fn content_length_is_computed_from_the_encoded_body() {
    let req = parse_ok(b"GET /echo/abc HTTP/1.1\r\n\r\n");
    let resp = Response::default()
        .status(Status::OK)
        .content_type(b"text/plain".to_vec())
        .content_length(9999)
        .body(b"abc".to_vec());
    let out = resp.send_to(req);
    let (head, body) = split_response(&out);
    assert!(contains(&head, b"Content-Length: 3\r\n"));
    assert_eq!(body, b"abc".to_vec());
}

#[test]
fn advisory_content_length_never_changes_the_output() {
    let mk = |advisory: u64| {
        let req = parse_ok(b"GET / HTTP/1.1\r\nAccept-Encoding: gzip\r\n\r\n");
        Response::default()
            .status(Status::OK)
            .content_type(b"text/plain".to_vec())
            .content_length(advisory)
            .body(b"hello".to_vec())
            .send_to(req)
    };
    assert_eq!(mk(0), mk(123456));
}

#[test]
fn gzip_scenario_emits_encoding_header_and_exact_length() {
    let req = parse_ok(b"GET /echo/abc HTTP/1.1\r\nAccept-Encoding: gzip\r\n\r\n");
    let resp = Response::default()
        .status(Status::OK)
        .content_type(b"text/plain".to_vec())
        .body(b"abc".to_vec());
    let out = resp.send_to(req);
    let (head, body) = split_response(&out);
    assert!(contains(&head, b"HTTP/1.1 200 OK\r\n"));
    assert!(contains(&head, b"Content-Encoding: gzip\r\n"));
    let expected = format!("Content-Length: {}\r\n", body.len());
    assert!(contains(&head, expected.as_bytes()));
    assert_eq!(zlib_decode(&body), b"abc".to_vec());
}

#[test]
fn plain_scenario_sends_the_body_verbatim() {
    let req = parse_ok(b"GET /echo/abc HTTP/1.1\r\n\r\n");
    let resp = Response::default()
        .status(Status::OK)
        .content_type(b"text/plain".to_vec())
        .body(b"abc".to_vec());
    let out = resp.send_to(req);
    let (head, body) = split_response(&out);
    assert!(contains(&head, b"Content-Length: 3\r\n"));
    assert!(!contains(&head, b"Content-Encoding"));
    assert_eq!(body, b"abc".to_vec());
}

#[test]
fn unrecognized_accept_encoding_falls_back_to_identity() {
    let req = parse_ok(b"GET / HTTP/1.1\r\nAccept-Encoding: br\r\n\r\n");
    let resp = Response::default()
        .status(Status::OK)
        .content_type(b"text/plain".to_vec())
        .body(b"abc".to_vec());
    let out = resp.send_to(req);
    let (head, body) = split_response(&out);
    assert!(!contains(&head, b"Content-Encoding"));
    assert_eq!(body, b"abc".to_vec());
}

#[test]
fn a_bodyless_response_has_length_zero() {
    let req = parse_ok(b"GET /nowhere HTTP/1.1\r\n\r\n");
    let out = Response::default().send_to(req);
    let (head, body) = split_response(&out);
    assert!(contains(&head, b"HTTP/1.1 404 Not Found\r\n"));
    assert!(contains(&head, b"Content-Length: 0\r\n"));
    assert!(contains(&head, b"Content-Type: text/html\r\n"));
    assert!(body.is_empty());
}

#[test]
fn the_default_response_fields_match_the_contract() {
    let r = Response::default();
    assert_eq!(r.version, (1, 1, 0));
    assert_eq!(r.status, Status::NotFound);
    assert_eq!(r.content_type, b"text/html".to_vec());
    assert_eq!(r.content_length, 0);
    assert!(r.body.is_none());
}

#[test]
fn builders_replace_their_field() {
    let r = Response::default()
        .version((1, 1, 0))
        .status(Status::Created)
        .content_type(b"text/plain".to_vec())
        .content_length(7)
        .headers(vec![(b"X".to_vec(), b"y".to_vec())])
        .body(b"first".to_vec())
        .body(b"second".to_vec());
    assert_eq!(r.status, Status::Created);
    assert_eq!(r.content_length, 7);
    assert_eq!(r.body, Some(b"second".to_vec()));
}

#[test]
fn an_empty_buffer_is_rejected() {
    assert_eq!(Request::parse(b""), Err(HttpError::InvalidRequest));
}
