//! The request parser: the request line (method, target, version), the
//! header lines, and the header map with its last-write-wins lookup.

use vstd::prelude::*;

use crate::text::{
    bytes_eq, copy_range, find_byte, find_from, is_ws, lemma_lines_from_seg, lemma_tokens_from_seg,
    lines, lines_from, lower, lower_byte, split_lines, split_tokens, strip_cr, to_lower, tokens,
    tokens_from, trim, trim_bytes,
};
use crate::HttpError;

verus! {

/// The closed set of request methods.
#[derive(Clone, Copy, Debug, PartialEq, Eq, Structural)]
pub enum Method {
    Connect,
    Delete,
    Get,
    Head,
    Options,
    Patch,
    Post,
    Put,
    Trace,
}

/// The lowercase method tokens.
pub open spec fn lit_connect() -> Seq<u8> {
    seq![99u8, 111, 110, 110, 101, 99, 116]
}

pub open spec fn lit_delete() -> Seq<u8> {
    seq![100u8, 101, 108, 101, 116, 101]
}

pub open spec fn lit_get() -> Seq<u8> {
    seq![103u8, 101, 116]
}

pub open spec fn lit_head() -> Seq<u8> {
    seq![104u8, 101, 97, 100]
}

pub open spec fn lit_options() -> Seq<u8> {
    seq![111u8, 112, 116, 105, 111, 110, 115]
}

pub open spec fn lit_patch() -> Seq<u8> {
    seq![112u8, 97, 116, 99, 104]
}

pub open spec fn lit_post() -> Seq<u8> {
    seq![112u8, 111, 115, 116]
}

pub open spec fn lit_put() -> Seq<u8> {
    seq![112u8, 117, 116]
}

pub open spec fn lit_trace() -> Seq<u8> {
    seq![116u8, 114, 97, 99, 101]
}

/// The version token `"HTTP/1.1"`, the one supported protocol version.
pub open spec fn lit_http11() -> Seq<u8> {
    seq![72u8, 84, 84, 80, 47, 49, 46, 49]
}

fn http11_token() -> (r: Vec<u8>)
    ensures
        r@ == lit_http11(),
{
    let r: Vec<u8> = vec![72u8, 84, 84, 80, 47, 49, 46, 49];
    proof {
        assert(r@ =~= lit_http11());
    }
    r
}

/// The method a request-line token names, matched case-insensitively;
/// any other token is no method.
pub open spec fn method_of(tok: Seq<u8>) -> Option<Method> {
    let l = lower(tok);
    if l == lit_connect() {
        Option::Some(Method::Connect)
    } else if l == lit_delete() {
        Option::Some(Method::Delete)
    } else if l == lit_get() {
        Option::Some(Method::Get)
    } else if l == lit_head() {
        Option::Some(Method::Head)
    } else if l == lit_options() {
        Option::Some(Method::Options)
    } else if l == lit_patch() {
        Option::Some(Method::Patch)
    } else if l == lit_post() {
        Option::Some(Method::Post)
    } else if l == lit_put() {
        Option::Some(Method::Put)
    } else if l == lit_trace() {
        Option::Some(Method::Trace)
    } else {
        Option::None
    }
}

fn method_from_token(tok: &[u8]) -> (r: Option<Method>)
    ensures
        r == method_of(tok@),
{
    let l = to_lower(tok);
    let ls = l.as_slice();
    let pat: Vec<u8> = vec![99u8, 111, 110, 110, 101, 99, 116];
    proof {
        assert(pat@ =~= lit_connect());
    }
    if bytes_eq(ls, pat.as_slice()) {
        return Option::Some(Method::Connect);
    }
    let pat: Vec<u8> = vec![100u8, 101, 108, 101, 116, 101];
    proof {
        assert(pat@ =~= lit_delete());
    }
    if bytes_eq(ls, pat.as_slice()) {
        return Option::Some(Method::Delete);
    }
    let pat: Vec<u8> = vec![103u8, 101, 116];
    proof {
        assert(pat@ =~= lit_get());
    }
    if bytes_eq(ls, pat.as_slice()) {
        return Option::Some(Method::Get);
    }
    let pat: Vec<u8> = vec![104u8, 101, 97, 100];
    proof {
        assert(pat@ =~= lit_head());
    }
    if bytes_eq(ls, pat.as_slice()) {
        return Option::Some(Method::Head);
    }
    let pat: Vec<u8> = vec![111u8, 112, 116, 105, 111, 110, 115];
    proof {
        assert(pat@ =~= lit_options());
    }
    if bytes_eq(ls, pat.as_slice()) {
        return Option::Some(Method::Options);
    }
    let pat: Vec<u8> = vec![112u8, 97, 116, 99, 104];
    proof {
        assert(pat@ =~= lit_patch());
    }
    if bytes_eq(ls, pat.as_slice()) {
        return Option::Some(Method::Patch);
    }
    let pat: Vec<u8> = vec![112u8, 111, 115, 116];
    proof {
        assert(pat@ =~= lit_post());
    }
    if bytes_eq(ls, pat.as_slice()) {
        return Option::Some(Method::Post);
    }
    let pat: Vec<u8> = vec![112u8, 117, 116];
    proof {
        assert(pat@ =~= lit_put());
    }
    if bytes_eq(ls, pat.as_slice()) {
        return Option::Some(Method::Put);
    }
    let pat: Vec<u8> = vec![116u8, 114, 97, 99, 101];
    proof {
        assert(pat@ =~= lit_trace());
    }
    if bytes_eq(ls, pat.as_slice()) {
        return Option::Some(Method::Trace);
    }
    Option::None
}

/// The view of an owned header list as a sequence of name/value pairs.
pub open spec fn pairs_view(hs: Seq<(Vec<u8>, Vec<u8>)>) -> Seq<(Seq<u8>, Seq<u8>)> {
    Seq::new(hs.len(), |i: int| (hs[i].0@, hs[i].1@))
}

/// Last-write-wins lookup: the value of the latest pair whose name is
/// exactly `name`, as a map filled in order would hold it.
pub open spec fn lookup(hs: Seq<(Seq<u8>, Seq<u8>)>, name: Seq<u8>) -> Option<Seq<u8>>
    decreases hs.len(),
{
    if hs.len() == 0 {
        Option::None
    } else if hs.last().0 == name {
        Option::Some(hs.last().1)
    } else {
        lookup(hs.drop_last(), name)
    }
}

/// The header a line yields: split at the first colon, both sides trimmed
/// of surrounding whitespace; a line without a colon yields none.
pub open spec fn header_of_line(line: Seq<u8>) -> Option<(Seq<u8>, Seq<u8>)> {
    match find_from(line, 0, 58) {
        Option::Some(c) => Option::Some((trim(line.take(c)), trim(line.skip(c + 1)))),
        Option::None => Option::None,
    }
}

/// The headers the given lines yield, in order; lines without a colon are
/// silently skipped.
pub open spec fn headers_of(ls: Seq<Seq<u8>>) -> Seq<(Seq<u8>, Seq<u8>)>
    decreases ls.len(),
{
    if ls.len() == 0 {
        Seq::empty()
    } else {
        (match header_of_line(ls[0]) {
            Option::Some(kv) => seq![kv],
            Option::None => Seq::empty(),
        }) + headers_of(ls.skip(1))
    }
}

/// What parsing a received buffer yields: the method, the raw target, the
/// protocol version, and the header pairs in order of appearance — or the
/// error. A buffer with no line at all — a connection that closed having
/// sent nothing — has no request line and is rejected like any other
/// malformed request.
pub open spec fn parse_spec(s: Seq<u8>) -> Result<
    (Method, Seq<u8>, (u8, u8, u8), Seq<(Seq<u8>, Seq<u8>)>),
    HttpError,
> {
    let ls = lines(s);
    if ls.len() == 0 {
        Err(HttpError::InvalidRequest)
    } else {
        let tks = tokens(ls[0]);
        if tks.len() != 3 {
            Err(HttpError::InvalidRequest)
        } else {
            match method_of(tks[0]) {
                Option::Some(m) => {
                    if tks[2] != lit_http11() {
                        Err(HttpError::InvalidRequest)
                    } else {
                        Ok((m, tks[1], (1u8, 1u8, 0u8), headers_of(ls.skip(1))))
                    }
                },
                Option::None => Err(HttpError::InvalidRequest),
            }
        }
    }
}

/// Whether the buffer ends with the header terminator `"\r\n\r\n"`.
pub open spec fn has_header_end(s: Seq<u8>) -> bool {
    s.len() >= 4 && s[s.len() - 4] == 13 && s[s.len() - 3] == 10 && s[s.len() - 2] == 13 && s[s.len()
        - 1] == 10
}

/// Whether enough of a request has arrived: used by the read loop to stop
/// once the blank line after the headers is in the buffer.
pub fn headers_complete(s: &[u8]) -> (r: bool)
    ensures
        r == has_header_end(s@),
{
    let n = s.len();
    n >= 4 && s[n - 4] == 13 && s[n - 3] == 10 && s[n - 2] == 13 && s[n - 1] == 10
}

/// A parsed request: immutable after construction. The connection it was
/// read from stays with the caller, which reuses it to write the reply.
#[derive(Debug, PartialEq, Eq)]
pub struct Request {
    pub method: Method,
    pub target: Vec<u8>,
    pub version: (u8, u8, u8),
    pub headers: Vec<(Vec<u8>, Vec<u8>)>,
}

impl Request {
    /// The header pairs, in order of appearance.
    pub open spec fn headers_view(&self) -> Seq<(Seq<u8>, Seq<u8>)> {
        pairs_view(self.headers@)
    }

    /// Look a header up by its exact name; of duplicate names the last
    /// write wins.
    pub fn get(&self, name: &[u8]) -> (r: Option<&Vec<u8>>)
        ensures
            match r {
                Option::Some(v) => lookup(self.headers_view(), name@) == Option::Some(v@),
                Option::None => lookup(self.headers_view(), name@) is None,
            },
    {
        let ghost hv = self.headers_view();
        let mut j: usize = self.headers.len();
        proof {
            assert(hv.take(j as int) =~= hv);
        }
        while j > 0
            invariant
                j <= self.headers@.len(),
                hv == self.headers_view(),
                lookup(hv, name@) == lookup(hv.take(j as int), name@),
            decreases j,
        {
            let pair = &self.headers[j - 1];
            if bytes_eq(pair.0.as_slice(), name) {
                proof {
                    assert(hv.take(j as int).last() == hv[j - 1]);
                    assert(hv[j - 1] == (self.headers@[j - 1].0@, self.headers@[j - 1].1@));
                }
                return Option::Some(&pair.1);
            }
            proof {
                assert(hv.take(j as int).last() == hv[j - 1]);
                assert(hv[j - 1] == (self.headers@[j - 1].0@, self.headers@[j - 1].1@));
                assert(hv.take(j as int).drop_last() =~= hv.take(j - 1));
            }
            j = j - 1;
        }
        proof {
            assert(hv.take(0).len() == 0);
        }
        Option::None
    }

    /// Parse a received buffer: the first line is the request line — exactly
    /// three whitespace-separated tokens, a known method, version
    /// `HTTP/1.1` — and every further line with a colon becomes a header,
    /// name and value trimmed. A malformed request line is refused.
    pub fn parse(data: &[u8]) -> (r: Result<Request, HttpError>)
        ensures
            parse_spec(data@) is Ok ==> r is Ok && ({
                let t = parse_spec(data@)->Ok_0;
                let q = r->Ok_0;
                &&& q.method == t.0
                &&& q.target@ == t.1
                &&& q.version == t.2
                &&& q.headers_view() == t.3
            }),
            parse_spec(data@) is Err ==> r == Err::<Request, HttpError>(
                parse_spec(data@)->Err_0,
            ),
    {
        let ls = split_lines(data);
        let ghost lv = lines(data@);
        proof {
            assert(lv.len() == ls@.len());
        }
        if ls.len() == 0 {
            return Err(HttpError::InvalidRequest);
        }
        proof {
            assert(ls@[0].deep_view() =~= ls@[0]@);
            assert(lv[0] == ls@[0]@);
        }
        let tks = split_tokens(ls[0].as_slice());
        let ghost tv = tokens(lv[0]);
        proof {
            assert(tv.len() == tks@.len());
        }
        if tks.len() != 3 {
            return Err(HttpError::InvalidRequest);
        }
        proof {
            assert(tks@[0].deep_view() =~= tks@[0]@);
            assert(tks@[1].deep_view() =~= tks@[1]@);
            assert(tks@[2].deep_view() =~= tks@[2]@);
            assert(tv[0] == tks@[0]@);
            assert(tv[1] == tks@[1]@);
            assert(tv[2] == tks@[2]@);
        }
        let method = match method_from_token(tks[0].as_slice()) {
            Option::Some(m) => m,
            Option::None => {
                return Err(HttpError::InvalidRequest);
            },
        };
        let http11 = http11_token();
        if !bytes_eq(tks[2].as_slice(), http11.as_slice()) {
            return Err(HttpError::InvalidRequest);
        }
        let target = copy_range(tks[1].as_slice(), 0, tks[1].len());
        proof {
            assert(target@ =~= tv[1]);
        }
        let mut headers: Vec<(Vec<u8>, Vec<u8>)> = Vec::new();
        proof {
            assert(pairs_view(headers@) =~= Seq::<(Seq<u8>, Seq<u8>)>::empty());
        }
        let mut i: usize = 1;
        while i < ls.len()
            invariant
                1 <= i <= lv.len(),
                lv == ls.deep_view(),
                lv.len() == ls@.len(),
                headers_of(lv.skip(1)) == pairs_view(headers@) + headers_of(lv.skip(i as int)),
            decreases lv.len() - i,
        {
            let ghost prev = pairs_view(headers@);
            proof {
                assert(ls@[i as int].deep_view() =~= ls@[i as int]@);
                assert(lv[i as int] == ls@[i as int]@);
                assert(lv.skip(i as int)[0] == lv[i as int]);
                assert(lv.skip(i as int).skip(1) =~~= lv.skip(i as int + 1));
            }
            let line = &ls[i];
            match find_byte(line.as_slice(), 58) {
                Option::Some(c) => {
                    let n = line.len();
                    proof {
                        lemma_find_from_bounds(line@, 0, 58, c as int);
                        assert(c < n);
                    }
                    let before = copy_range(line.as_slice(), 0, c);
                    let name = trim_bytes(before.as_slice());
                    let after = copy_range(line.as_slice(), c + 1, n);
                    let value = trim_bytes(after.as_slice());
                    proof {
                        assert(line@.take(c as int) =~= line@.subrange(0, c as int));
                        assert(line@.skip(c + 1) =~= line@.subrange(c + 1, line@.len() as int));
                        assert(header_of_line(lv[i as int]) == Option::Some((name@, value@)));
                    }
                    headers.push((name, value));
                    proof {
                        assert(pairs_view(headers@) =~= prev.push(
                            header_of_line(lv[i as int])->0,
                        ));
                        assert(prev + (seq![header_of_line(lv[i as int])->0] + headers_of(
                            lv.skip(i as int + 1),
                        )) =~= prev.push(header_of_line(lv[i as int])->0) + headers_of(
                            lv.skip(i as int + 1),
                        ));
                    }
                },
                Option::None => {
                    proof {
                        assert(header_of_line(lv[i as int]) is None);
                        assert(Seq::<(Seq<u8>, Seq<u8>)>::empty() + headers_of(
                            lv.skip(i as int + 1),
                        ) =~= headers_of(lv.skip(i as int + 1)));
                    }
                },
            }
            i = i + 1;
        }
        proof {
            assert(lv.skip(i as int).len() == 0);
            assert(headers_of(lv.skip(i as int)) =~= Seq::<(Seq<u8>, Seq<u8>)>::empty());
            assert(pairs_view(headers@) + headers_of(lv.skip(i as int)) =~= pairs_view(headers@));
        }
        let req = Request { method, target, version: (1u8, 1u8, 0u8), headers };
        Ok(req)
    }
}

/// A found byte lies within the searched range and bears the sought value.
proof fn lemma_find_from_bounds(s: Seq<u8>, i: int, b: u8, j: int)
    requires
        0 <= i,
        find_from(s, i, b) == Option::Some(j),
    ensures
        i <= j < s.len(),
        s[j] == b,
    decreases s.len() - i,
{
    if i < s.len() && s[i] != b {
        lemma_find_from_bounds(s, i + 1, b, j);
    }
}

/// A token that names a method is nonempty and free of whitespace: its
/// lowercase form is one of the method words, which are, and lowercasing
/// moves no byte into or out of the whitespace class.
proof fn lemma_method_token_shape(tok: Seq<u8>)
    requires
        method_of(tok) is Some,
    ensures
        tok.len() > 0,
        forall|k: int| 0 <= k < tok.len() ==> !is_ws(tok[k]),
{
    let l = lower(tok);
    assert(l.len() == tok.len());
    assert forall|k: int| 0 <= k < tok.len() implies !is_ws(tok[k]) by {
        assert(l[k] == lower_byte(tok[k]));
        assert(!is_ws(l[k]));
        if is_ws(tok[k]) {
            assert(lower_byte(tok[k]) == tok[k]);
        }
    }
}

/// Every well-formed request line parses: a buffer holding a recognized
/// method token, a whitespace-free nonempty target and the version
/// `HTTP/1.1`, separated by single spaces and closed by the blank line,
/// yields exactly that method, that target, version 1.1 and no headers.
#[verifier::rlimit(100)]
pub proof fn lemma_well_formed_request_line(m: Method, tok: Seq<u8>, target: Seq<u8>)
    requires
        method_of(tok) == Option::Some(m),
        target.len() > 0,
        forall|k: int| 0 <= k < target.len() ==> !is_ws(target[k]),
    ensures
        parse_spec(tok + seq![32u8] + target + seq![32u8] + lit_http11() + seq![13u8, 10, 13, 10])
            == Ok::<(Method, Seq<u8>, (u8, u8, u8), Seq<(Seq<u8>, Seq<u8>)>), HttpError>(
            (m, target, (1u8, 1u8, 0u8), Seq::empty()),
        ),
{
    lemma_method_token_shape(tok);
    let line = tok + seq![32u8] + target + seq![32u8] + lit_http11();
    let s = line + seq![13u8, 10u8, 13u8, 10u8];
    let tl = tok.len() as int;
    let gl = target.len() as int;
    let ll = line.len() as int;
    assert(ll == tl + 1 + gl + 1 + 8);
    assert(s == tok + seq![32u8] + target + seq![32u8] + lit_http11() + seq![13u8, 10, 13, 10]);

    // Where each byte of the line comes from.
    assert forall|k: int| 0 <= k < tl implies line[k] == tok[k] by {}
    assert(line[tl] == 32);
    assert forall|k: int| tl + 1 <= k < tl + 1 + gl implies line[k] == target[k - tl - 1] by {}
    assert(line[tl + 1 + gl] == 32);
    assert forall|k: int| tl + 2 + gl <= k < ll implies line[k] == lit_http11()[k - tl - 2 - gl]
        by {}
    assert forall|k: int| 0 <= k < 8 implies !is_ws(lit_http11()[k]) && lit_http11()[k] != 58 by {}

    // No line feed anywhere in the line, so it is the first line of `s`.
    assert forall|k: int| 0 <= k < ll implies s[k] != 10 by {
        assert(s[k] == line[k]);
        if k < tl {
            assert(!is_ws(tok[k]));
        } else if tl + 1 <= k < tl + 1 + gl {
            assert(!is_ws(target[k - tl - 1]));
        } else if tl + 2 + gl <= k {
            assert(!is_ws(lit_http11()[k - tl - 2 - gl]));
        }
    }
    lemma_lines_from_seg(s, 0, ll, Seq::empty());
    assert(Seq::empty() + s.subrange(0, ll) =~= line);
    assert(s[ll] == 13 && s[ll + 1] == 10 && s[ll + 2] == 13 && s[ll + 3] == 10);
    assert(lines_from(s, ll, line) == lines_from(s, ll + 1, line.push(13)));
    assert(strip_cr(line.push(13)) =~= line);
    assert(lines_from(s, ll + 1, line.push(13)) == seq![line] + lines_from(
        s,
        ll + 2,
        Seq::empty(),
    ));
    assert(lines_from(s, ll + 2, Seq::empty()) == lines_from(s, ll + 3, Seq::empty().push(13)));
    assert(strip_cr(Seq::<u8>::empty().push(13)) =~= Seq::<u8>::empty());
    assert(lines_from(s, ll + 3, Seq::empty().push(13)) == seq![Seq::<u8>::empty()] + lines_from(
        s,
        ll + 4,
        Seq::empty(),
    ));
    assert(lines_from(s, ll + 4, Seq::empty()) == Seq::<Seq<u8>>::empty());
    let lv = lines(s);
    assert(lv =~~= seq![line, Seq::<u8>::empty()]);

    // The tokens of the line are the method token, the target, the version.
    lemma_tokens_from_seg(line, 0, tl, Seq::empty());
    assert(Seq::empty() + line.subrange(0, tl) =~= tok);
    assert(is_ws(line[tl]));
    assert(tokens_from(line, tl, tok) == seq![tok] + tokens_from(line, tl + 1, Seq::empty()));
    lemma_tokens_from_seg(line, tl + 1, tl + 1 + gl, Seq::empty());
    assert(Seq::empty() + line.subrange(tl + 1, tl + 1 + gl) =~= target);
    assert(is_ws(line[tl + 1 + gl]));
    assert(tokens_from(line, tl + 1 + gl, target) == seq![target] + tokens_from(
        line,
        tl + 2 + gl,
        Seq::empty(),
    ));
    lemma_tokens_from_seg(line, tl + 2 + gl, ll, Seq::empty());
    assert(Seq::empty() + line.subrange(tl + 2 + gl, ll) =~= lit_http11());
    assert(tokens_from(line, ll, lit_http11()) == seq![lit_http11()]);
    let tv = tokens(line);
    assert(tv =~~= seq![tok, target, lit_http11()]);

    // The single empty line after the request line yields no header.
    assert(find_from(Seq::<u8>::empty(), 0, 58) is None);
    assert(header_of_line(Seq::<u8>::empty()) is None);
    assert(lv.skip(1) =~~= seq![Seq::<u8>::empty()]);
    assert(seq![Seq::<u8>::empty()].skip(1) =~~= Seq::<Seq<u8>>::empty());
    assert(headers_of(seq![Seq::<u8>::empty()].skip(1)) == Seq::<(Seq<u8>, Seq<u8>)>::empty());
    assert(Seq::<(Seq<u8>, Seq<u8>)>::empty() + Seq::<(Seq<u8>, Seq<u8>)>::empty()
        =~= Seq::<(Seq<u8>, Seq<u8>)>::empty());
    assert(headers_of(seq![Seq::<u8>::empty()]) =~= Seq::<(Seq<u8>, Seq<u8>)>::empty());

    assert(lv[0] == line);
    assert(tv.len() == 3 && tv[0] == tok && tv[1] == target && tv[2] == lit_http11());
}

/// A request whose first line does not hold exactly three
/// whitespace-separated tokens is rejected as invalid.
pub proof fn lemma_wrong_token_count_rejected(s: Seq<u8>)
    requires
        lines(s).len() > 0,
        tokens(lines(s)[0]).len() != 3,
    ensures
        parse_spec(s) == Err::<(Method, Seq<u8>, (u8, u8, u8), Seq<(Seq<u8>, Seq<u8>)>), HttpError>(
            HttpError::InvalidRequest,
        ),
{
}

/// A request whose version token is anything but `"HTTP/1.1"` is rejected
/// as invalid, whatever the method and target.
pub proof fn lemma_wrong_version_rejected(s: Seq<u8>)
    requires
        lines(s).len() > 0,
        tokens(lines(s)[0]).len() == 3,
        tokens(lines(s)[0])[2] != lit_http11(),
    ensures
        parse_spec(s) == Err::<(Method, Seq<u8>, (u8, u8, u8), Seq<(Seq<u8>, Seq<u8>)>), HttpError>(
            HttpError::InvalidRequest,
        ),
{
}

} // verus!
