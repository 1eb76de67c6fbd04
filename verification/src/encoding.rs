//! The content-encoding codec: negotiation over a comma-separated list of
//! acceptable encoding tokens, and the encoding of a body into an in-memory
//! buffer, either verbatim or compressed.

use vstd::prelude::*;

use crate::text::{bytes_eq, push_bytes, trim, trim_bytes};
use crate::HttpError;

verus! {

/// The closed set of transfer encodings the codec can apply. `Identity`
/// passes bytes through unchanged.
#[derive(Clone, Copy, Debug, PartialEq, Eq, Structural)]
pub enum Encoding {
    Gzip,
    Identity,
}

impl Default for Encoding {
    /// The encoding used when none was negotiated.
    fn default() -> (r: Self)
        ensures
            r == Encoding::Identity,
    {
        Encoding::Identity
    }
}

/// The token `"gzip"`, the one recognized encoding name.
pub open spec fn lit_gzip() -> Seq<u8> {
    seq![103u8, 122, 105, 112]
}

fn gzip_token() -> (r: Vec<u8>)
    ensures
        r@ == lit_gzip(),
{
    let r: Vec<u8> = vec![103u8, 122, 105, 112];
    proof {
        assert(r@ =~= lit_gzip());
    }
    r
}

/// One step of splitting on commas: `cur` holds the field in progress.
/// Splitting always yields at least one field, as `str::split` does.
pub open spec fn fields_from(s: Seq<u8>, i: int, cur: Seq<u8>) -> Seq<Seq<u8>>
    decreases s.len() - i,
{
    if i < 0 || i >= s.len() {
        seq![cur]
    } else if s[i] == 44 {
        seq![cur] + fields_from(s, i + 1, Seq::empty())
    } else {
        fields_from(s, i + 1, cur.push(s[i]))
    }
}

/// The comma-separated fields of `s`.
pub open spec fn comma_fields(s: Seq<u8>) -> Seq<Seq<u8>> {
    fields_from(s, 0, Seq::empty())
}

/// The encoding a single field names, once trimmed; only `"gzip"` is
/// recognized.
pub open spec fn recognized(field: Seq<u8>) -> Option<Encoding> {
    if trim(field) == lit_gzip() {
        Option::Some(Encoding::Gzip)
    } else {
        Option::None
    }
}

/// The first recognized encoding among the fields, in declaration order.
pub open spec fn first_recognized(fields: Seq<Seq<u8>>) -> Option<Encoding>
    decreases fields.len(),
{
    if fields.len() == 0 {
        Option::None
    } else if recognized(fields[0]) is Some {
        recognized(fields[0])
    } else {
        first_recognized(fields.skip(1))
    }
}

/// The encoding negotiated from an `Accept-Encoding` value: the list is
/// trimmed, split on commas, each field trimmed, and the first recognized
/// token wins; unrecognized tokens are skipped.
pub open spec fn negotiate_spec(s: Seq<u8>) -> Option<Encoding> {
    first_recognized(comma_fields(trim(s)))
}

fn split_fields(s: &[u8]) -> (r: Vec<Vec<u8>>)
    ensures
        r.deep_view() == comma_fields(s@),
{
    let mut r: Vec<Vec<u8>> = Vec::new();
    let mut cur: Vec<u8> = Vec::new();
    let mut i: usize = 0;
    while i < s.len()
        invariant
            i <= s@.len(),
            comma_fields(s@) == r.deep_view() + fields_from(s@, i as int, cur@),
        decreases s@.len() - i,
    {
        let ghost prev_r = r.deep_view();
        let ghost prev_cur = cur@;
        if s[i] == 44 {
            r.push(cur);
            cur = Vec::new();
            proof {
                assert(cur@ =~= Seq::<u8>::empty());
                assert(r.deep_view() =~~= prev_r.push(prev_cur));
                assert(prev_r + (seq![prev_cur] + fields_from(s@, i + 1, Seq::empty()))
                    =~~= prev_r.push(prev_cur) + fields_from(s@, i + 1, Seq::empty()));
            }
        } else {
            cur.push(s[i]);
        }
        i = i + 1;
    }
    let ghost prev_r = r.deep_view();
    let ghost prev_cur = cur@;
    r.push(cur);
    proof {
        assert(r.deep_view() =~~= prev_r.push(prev_cur));
        assert(prev_r + seq![prev_cur] =~~= prev_r.push(prev_cur));
    }
    r
}

impl Encoding {
    /// Parse an `Accept-Encoding` value: the first recognized token wins;
    /// a list with no recognized token is refused.
    pub fn from_str(s: &[u8]) -> (r: Result<Encoding, HttpError>)
        ensures
            match negotiate_spec(s@) {
                Option::Some(e) => r == Ok::<Encoding, HttpError>(e),
                Option::None => r == Err::<Encoding, HttpError>(HttpError::UnsupportedEncoding),
            },
    {
        let t = trim_bytes(s);
        let fields = split_fields(t.as_slice());
        let gz = gzip_token();
        let ghost fv = fields.deep_view();
        proof {
            assert(fv.skip(0) =~~= fv);
        }
        let mut k: usize = 0;
        while k < fields.len()
            invariant
                k <= fv.len(),
                fv == fields.deep_view(),
                fv.len() == fields@.len(),
                gz@ == lit_gzip(),
                negotiate_spec(s@) == first_recognized(fv.skip(k as int)),
            decreases fv.len() - k,
        {
            let field = trim_bytes(fields[k].as_slice());
            proof {
                assert(fields@[k as int].deep_view() == fv[k as int]);
                assert(fv[k as int] =~= fields@[k as int]@);
                assert(fv.skip(k as int)[0] == fv[k as int]);
                assert(trim(fv[k as int]) == field@);
            }
            if bytes_eq(field.as_slice(), gz.as_slice()) {
                proof {
                    assert(recognized(fv.skip(k as int)[0]) == Option::Some(Encoding::Gzip));
                }
                return Ok(Encoding::Gzip);
            }
            proof {
                assert(recognized(fv.skip(k as int)[0]) is None);
                assert(fv.skip(k as int).skip(1) =~~= fv.skip(k as int + 1));
            }
            k = k + 1;
        }
        proof {
            assert(fv.skip(k as int).len() == 0);
        }
        Err(HttpError::UnsupportedEncoding)
    }

    /// What encoding a body: the compressed stream for `Gzip`, the bytes
    /// themselves for `Identity`.
    pub open spec fn encoded_spec(self, data: Seq<u8>) -> Seq<u8> {
        match self {
            Encoding::Gzip => zlib_of(data),
            Encoding::Identity => data,
        }
    }

    /// Run `data` through the codec, appending the encoded bytes to the
    /// in-memory sink `w`.
    pub fn encode(&self, w: &mut Vec<u8>, data: &[u8])
        ensures
            final(w)@ == old(w)@ + self.encoded_spec(data@),
    {
        match self {
            Encoding::Gzip => {
                let c = zlib_compress(data);
                push_bytes(w, c.as_slice());
            },
            Encoding::Identity => {
                push_bytes(w, data);
            },
        }
    }
}

/// The bytes that the zlib compressor at the default level produces for a
/// given input; a function of the input bytes alone.
pub uninterp spec fn zlib_of(data: Seq<u8>) -> Seq<u8>;

/// Relies on flate2's `write::ZlibEncoder` at `Compression::default()`:
/// the compressed stream depends on the input bytes alone, and write errors
/// can come only from the underlying writer, which for a `Vec` never fails.
#[verifier::external_body]
fn zlib_compress(data: &[u8]) -> (r: Vec<u8>)
    ensures
        r@ == zlib_of(data@),
{
    let mut enc = flate2::write::ZlibEncoder::new(Vec::new(), flate2::Compression::default());
    std::io::Write::write_all(&mut enc, data).expect("a Vec sink never fails");
    enc.finish().expect("a Vec sink never fails")
}

/// The identity encoding is lossless as it stands: encoding any body with
/// `Identity` yields the original bytes unchanged, at every length.
pub proof fn lemma_identity_round_trip(data: Seq<u8>)
    ensures
        Encoding::Identity.encoded_spec(data) == data,
{
}

} // verus!
