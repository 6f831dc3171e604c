//! Response framing: a response descriptor — status, optional content
//! type, optional body — serialized as an HTTP/1.1 status line, the
//! header lines that its optional parts call for, a blank line and the
//! body. The emitted content length is always the byte length of the
//! emitted body.
use vstd::prelude::*;

use crate::ascii::content_length_label;
use crate::ascii::content_length_label_vec;
use crate::ascii::content_type_label;
use crate::ascii::content_type_label_vec;
use crate::ascii::crlf;
use crate::ascii::crlf_vec;
use crate::ascii::http_version;
use crate::ascii::http_version_vec;
use crate::ascii::status_created;
use crate::ascii::status_created_vec;
use crate::ascii::status_not_found;
use crate::ascii::status_not_found_vec;
use crate::ascii::status_ok;
use crate::ascii::status_ok_vec;
use crate::scan::copy_bytes;

verus! {

/// The three statuses the server ever answers with.
#[derive(Clone, Copy, PartialEq, Eq, Structural, Debug)]
pub enum Status {
    /// `200 OK`: a successful lookup or echo.
    Success,
    /// `201 OK`: a successful file write.
    Created,
    /// `404 Not Found`: an unknown route or a failed file read or write.
    NotFound,
}

/// The status line bytes of each status.
pub open spec fn status_line(s: Status) -> Seq<u8> {
    match s {
        Status::Success => status_ok(),
        Status::Created => status_created(),
        Status::NotFound => status_not_found(),
    }
}

/// The status line bytes of `s`, as a vector.
pub fn status_line_vec(s: Status) -> (v: Vec<u8>)
    ensures
        v@ == status_line(s),
{
    match s {
        Status::Success => status_ok_vec(),
        Status::Created => status_created_vec(),
        Status::NotFound => status_not_found_vec(),
    }
}

/// One response descriptor: what a handler decided, before framing.
pub struct Response {
    pub status: Status,
    pub content_type: Option<Vec<u8>>,
    pub body: Option<Vec<u8>>,
}

/// The mathematical image of a response descriptor.
pub struct ResponseModel {
    pub status: Status,
    pub content_type: Option<Seq<u8>>,
    pub body: Option<Seq<u8>>,
}

impl ResponseModel {
    /// A body never comes without a content type.
    pub open spec fn wf(&self) -> bool {
        self.body is Some ==> self.content_type is Some
    }
}

impl View for Response {
    type V = ResponseModel;

    open spec fn view(&self) -> ResponseModel {
        ResponseModel {
            status: self.status,
            content_type: match self.content_type {
                Some(ct) => Some(ct@),
                None => None,
            },
            body: match self.body {
                Some(b) => Some(b@),
                None => None,
            },
        }
    }
}

/// The decimal digits of `n`, most significant first.
pub open spec fn dec_digits(n: nat) -> Seq<u8>
    decreases n,
{
    if n < 10 {
        seq![(48 + n) as u8]
    } else {
        dec_digits(n / 10).push((48 + n % 10) as u8)
    }
}

/// The number that a run of decimal digits denotes.
pub open spec fn dec_val(s: Seq<u8>) -> int
    decreases s.len(),
{
    if s.len() == 0 {
        0
    } else {
        dec_val(s.drop_last()) * 10 + s.last() - 48
    }
}

/// The digits of `n` read back as a number are `n`: rendering a length
/// loses nothing.
pub proof fn lemma_dec_digits_val(n: nat)
    ensures
        dec_val(dec_digits(n)) == n,
    decreases n,
{
    if n < 10 {
        assert(dec_digits(n).drop_last() =~= Seq::<u8>::empty());
        assert(dec_val(dec_digits(n).drop_last()) == 0);
        assert(dec_digits(n).last() == (48 + n) as u8);
        assert(dec_val(dec_digits(n)) == n);
    } else {
        lemma_dec_digits_val(n / 10);
        assert(dec_digits(n).drop_last() =~= dec_digits(n / 10));
        assert(dec_val(dec_digits(n)) == dec_val(dec_digits(n / 10)) * 10 + n % 10);
        vstd::arithmetic::div_mod::lemma_fundamental_div_mod(n as int, 10);
    }
}

/// The decimal digits of `n`, as bytes.
pub fn dec_bytes(n: usize) -> (v: Vec<u8>)
    ensures
        v@ == dec_digits(n as nat),
    decreases n,
{
    if n < 10 {
        let v: Vec<u8> = vec![48 + (n as u8)];
        proof {
            assert(v@ =~= dec_digits(n as nat));
        }
        v
    } else {
        let mut v = dec_bytes(n / 10);
        v.push(48 + ((n % 10) as u8));
        v
    }
}

/// The serialized bytes of a response: protocol tag and status line,
/// then a content-type line where a content type is present, then a
/// content-length line counting the body's bytes where a body is
/// present, then a blank line, then the body itself.
pub open spec fn spec_render(r: ResponseModel) -> Seq<u8> {
    http_version() + status_line(r.status) + crlf() + (match r.content_type {
        Some(ct) => content_type_label() + ct + crlf(),
        None => Seq::empty(),
    }) + (match r.body {
        Some(b) => content_length_label() + dec_digits(b.len()) + crlf(),
        None => Seq::empty(),
    }) + crlf() + (match r.body {
        Some(b) => b,
        None => Seq::empty(),
    })
}

/// Serializes a response descriptor into its wire bytes.
pub fn render_response(r: &Response) -> (out: Vec<u8>)
    ensures
        out@ == spec_render(r@),
{
    let mut out = http_version_vec();
    let mut piece = status_line_vec(r.status);
    out.append(&mut piece);
    let mut piece = crlf_vec();
    out.append(&mut piece);
    match &r.content_type {
        Some(ct) => {
            let mut piece = content_type_label_vec();
            out.append(&mut piece);
            let mut piece = copy_bytes(ct.as_slice());
            out.append(&mut piece);
            let mut piece = crlf_vec();
            out.append(&mut piece);
        },
        None => {},
    }
    match &r.body {
        Some(b) => {
            let mut piece = content_length_label_vec();
            out.append(&mut piece);
            let mut piece = dec_bytes(b.len());
            out.append(&mut piece);
            let mut piece = crlf_vec();
            out.append(&mut piece);
        },
        None => {},
    }
    let mut piece = crlf_vec();
    out.append(&mut piece);
    match &r.body {
        Some(b) => {
            let mut piece = copy_bytes(b.as_slice());
            out.append(&mut piece);
        },
        None => {},
    }
    proof {
        assert(out@ =~= spec_render(r@));
    }
    out
}

/// The emitted content length counts exactly the emitted body's bytes:
/// a response with a body renders as a head that ends with the
/// content-length digits, a line break and a blank line, followed by the
/// body itself — and those digits, read back, are the body's byte
/// length.
pub proof fn lemma_content_length_exact(r: ResponseModel)
    requires
        r.body is Some,
    ensures
        spec_render(r) == http_version() + status_line(r.status) + crlf() + (match r.content_type {
            Some(ct) => content_type_label() + ct + crlf(),
            None => Seq::empty(),
        }) + content_length_label() + dec_digits(r.body->0.len()) + crlf() + crlf() + r.body->0,
        dec_val(dec_digits(r.body->0.len())) == r.body->0.len(),
{
    lemma_dec_digits_val(r.body->0.len());
    assert(spec_render(r) =~= http_version() + status_line(r.status) + crlf() + (
    match r.content_type {
        Some(ct) => content_type_label() + ct + crlf(),
        None => Seq::empty(),
    }) + content_length_label() + dec_digits(r.body->0.len()) + crlf() + crlf() + r.body->0);
}

} // verus!
