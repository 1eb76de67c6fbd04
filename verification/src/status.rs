//! The status registry: a closed set of status codes with fixed reason
//! phrases, serialized as `"<code> <reason>"`.

use vstd::prelude::*;

use crate::text::{dec_spec, push_bytes, push_dec_u64};

verus! {

#[derive(Clone, Copy, Debug, PartialEq, Eq, Structural)]
pub enum Status {
    OK,
    Created,
    NotFound,
}

impl Status {
    /// The numeric code of the status.
    pub open spec fn code_spec(self) -> u16 {
        match self {
            Status::OK => 200,
            Status::Created => 201,
            Status::NotFound => 404,
        }
    }

    /// The fixed reason phrase of the status.
    pub open spec fn reason_spec(self) -> Seq<u8> {
        match self {
            Status::OK => seq![79u8, 75],
            Status::Created => seq![67u8, 114, 101, 97, 116, 101, 100],
            Status::NotFound => seq![78u8, 111, 116, 32, 70, 111, 117, 110, 100],
        }
    }

    /// The wire form of the status: the decimal code, one space, the reason.
    pub open spec fn text_spec(self) -> Seq<u8> {
        dec_spec(self.code_spec() as nat) + seq![32u8] + self.reason_spec()
    }

    pub fn code(&self) -> (r: u16)
        ensures
            r == self.code_spec(),
    {
        match self {
            Status::OK => 200,
            Status::Created => 201,
            Status::NotFound => 404,
        }
    }

    fn reason(&self) -> (r: Vec<u8>)
        ensures
            r@ == self.reason_spec(),
    {
        let r: Vec<u8> = match self {
            Status::OK => vec![79u8, 75],
            Status::Created => vec![67u8, 114, 101, 97, 116, 101, 100],
            Status::NotFound => vec![78u8, 111, 116, 32, 70, 111, 117, 110, 100],
        };
        proof {
            assert(r@ =~= self.reason_spec());
        }
        r
    }

    /// Serialize the status as `"<code> <reason>"`.
    pub fn text(&self) -> (r: Vec<u8>)
        ensures
            r@ == self.text_spec(),
    {
        let mut out: Vec<u8> = Vec::new();
        push_dec_u64(&mut out, self.code() as u64);
        out.push(32);
        let reason = self.reason();
        push_bytes(&mut out, reason.as_slice());
        proof {
            assert(out@ =~= self.text_spec());
        }
        out
    }
}

} // verus!
