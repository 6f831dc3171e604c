//! Request parsing: one bounded read's bytes are decoded as text, split
//! on CRLF into a request line and a run of fragments; the request line's
//! first two whitespace tokens are the method and the path, and the
//! fragments fill the header mapping.
use vstd::prelude::*;

use crate::headers::parse_fragments;
use crate::headers::payload_parser;
use crate::headers::HeaderMap;
use crate::scan::find2;
use crate::scan::find2_from;
use crate::scan::copy_range;
use crate::scan::first_two_tokens;
use crate::scan::lemma_find2_props;
use crate::scan::ws_tokens;

verus! {

/// What `String::from_utf8_lossy` makes of a byte run, re-encoded as
/// UTF-8 bytes: a function of those bytes alone.
pub uninterp spec fn lossy_of(bytes: Seq<u8>) -> Seq<u8>;

/// Relies on `String::from_utf8_lossy`: every invalid UTF-8 sequence is
/// replaced with the replacement character, and a run that is already
/// valid UTF-8 — in particular one of ASCII bytes alone — comes back
/// unchanged.
#[verifier::external_body]
fn decode_lossy(buffer: &[u8]) -> (text: Vec<u8>)
    ensures
        text@ == lossy_of(buffer@),
        (forall|i: int| 0 <= i < buffer@.len() ==> #[trigger] buffer@[i] < 128) ==> text@
            == buffer@,
{
    String::from_utf8_lossy(buffer).into_owned().into_bytes()
}

/// The runs between CRLF delimiters, in order; without any delimiter
/// the whole of `s` is the one part.
pub open spec fn split_crlf(s: Seq<u8>) -> Seq<Seq<u8>>
    decreases s.len(),
    via split_crlf_dec
{
    let k = find2(s, 13, 10);
    if k < 0 {
        seq![s]
    } else {
        seq![s.take(k)] + split_crlf(s.skip(k + 2))
    }
}

#[via_fn]
proof fn split_crlf_dec(s: Seq<u8>) {
    lemma_find2_props(s, 13, 10);
}

/// The lines of the decoded request text, split on CRLF.
pub open spec fn request_lines(buffer: Seq<u8>) -> Seq<Seq<u8>> {
    split_crlf(lossy_of(buffer))
}

/// The whitespace tokens of the request line.
pub open spec fn request_tokens(buffer: Seq<u8>) -> Seq<Seq<u8>> {
    ws_tokens(request_lines(buffer)[0])
}

/// A buffer parses iff its request line holds at least two tokens.
pub open spec fn parse_ok(buffer: Seq<u8>) -> bool {
    request_tokens(buffer).len() >= 2
}

/// The parsed method: the request line's first token.
pub open spec fn spec_method(buffer: Seq<u8>) -> Seq<u8> {
    request_tokens(buffer)[0]
}

/// The parsed path: the request line's second token.
pub open spec fn spec_path(buffer: Seq<u8>) -> Seq<u8> {
    request_tokens(buffer)[1]
}

/// The parsed header-and-body mapping: every line after the first,
/// folded left to right.
pub open spec fn spec_payload(buffer: Seq<u8>) -> Map<Seq<u8>, Seq<u8>> {
    parse_fragments(request_lines(buffer).drop_first())
}

/// Why a connection is dropped without a response.
#[derive(Clone, Copy, PartialEq, Eq, Structural, Debug)]
pub enum RequestError {
    /// The request line held fewer than two whitespace tokens.
    MalformedRequestLine,
    /// The header-echo route found no `User-Agent` header.
    MissingHeader,
    /// The file-write route found no body.
    MissingBody,
}

/// One parsed request: method, path and the header-and-body mapping.
pub struct Request {
    pub method: Vec<u8>,
    pub path: Vec<u8>,
    pub payload: HeaderMap,
}

impl Request {
    /// The header mapping is well formed.
    pub open spec fn wf(&self) -> bool {
        self.payload.wf()
    }
}

/// Splits `s` into the runs between CRLF delimiters, in order; without
/// any delimiter the whole of `s` is the one part.
pub fn split_crlf_bytes(s: &[u8]) -> (parts: Vec<Vec<u8>>)
    ensures
        parts@.map_values(|p: Vec<u8>| p@) == split_crlf(s@),
        parts@.len() >= 1,
{
    let mut parts: Vec<Vec<u8>> = Vec::new();
    let mut i: usize = 0;
    proof {
        assert(s@.skip(0) =~= s@);
        assert(parts@.map_values(|p: Vec<u8>| p@) + split_crlf(s@) =~= split_crlf(s@));
    }
    loop
        invariant
            0 <= i <= s@.len(),
            split_crlf(s@) == parts@.map_values(|p: Vec<u8>| p@) + split_crlf(s@.skip(i as int)),
        decreases s@.len() - i,
    {
        let ghost prev = parts@.map_values(|p: Vec<u8>| p@);
        let ghost t = s@.skip(i as int);
        let n = s.len();
        match find2_from(s, i, 13, 10) {
            Some(k) => {
                proof {
                    lemma_find2_props(t, 13, 10);
                    assert(k + 2 <= s@.len());
                    assert(t.take(k - i) =~= s@.subrange(i as int, k as int));
                    assert(t.skip(k - i + 2) =~= s@.skip(k + 2));
                }
                let part = copy_range(s, i, k);
                parts.push(part);
                proof {
                    assert(parts@.map_values(|p: Vec<u8>| p@) =~= prev + seq![part@]);
                    assert(split_crlf(s@) == parts@.map_values(|p: Vec<u8>| p@) + split_crlf(
                        s@.skip(k + 2),
                    ));
                }
                i = k + 2;
            },
            None => {
                proof {
                    assert(t.skip(0) =~= t);
                }
                let part = copy_range(s, i, n);
                proof {
                    assert(part@ =~= t);
                }
                parts.push(part);
                proof {
                    assert(split_crlf(t) =~= seq![t]);
                    assert(parts@.map_values(|p: Vec<u8>| p@) =~= prev + seq![t]);
                    assert(parts@.map_values(|p: Vec<u8>| p@) =~= split_crlf(s@));
                }
                return parts;
            },
        }
    }
}

/// Parses one request buffer. The request line must hold at least two
/// whitespace tokens — method and path — else the request is refused as
/// malformed; the remaining lines always parse into the mapping.
pub fn parse_request(buffer: &[u8]) -> (r: Result<Request, RequestError>)
    ensures
        r is Ok <==> parse_ok(buffer@),
        r matches Ok(req) ==> {
            &&& req.wf()
            &&& req.method@ == spec_method(buffer@)
            &&& req.path@ == spec_path(buffer@)
            &&& req.payload@ == spec_payload(buffer@)
        },
        r matches Err(e) ==> e == RequestError::MalformedRequestLine,
{
    let text = decode_lossy(buffer);
    let mut parts = split_crlf_bytes(text.as_slice());
    let ghost lines = request_lines(buffer@);
    let ghost orig = parts@;
    let first = parts.remove(0);
    proof {
        assert(first@ == orig.map_values(|p: Vec<u8>| p@)[0]);
        assert(first@ == lines[0]);
    }
    match first_two_tokens(first.as_slice()) {
        None => Err(RequestError::MalformedRequestLine),
        Some((method, path)) => {
            proof {
                assert forall|j: int| 0 <= j < parts@.len() implies (#[trigger] parts@[j])@
                    == lines.drop_first()[j] by {
                    assert(parts@[j] == orig[j + 1]);
                    assert(orig.map_values(|p: Vec<u8>| p@)[j + 1] == orig[j + 1]@);
                }
                assert(parts@.map_values(|p: Vec<u8>| p@) =~= lines.drop_first());
            }
            let payload = payload_parser(parts.as_slice());
            Ok(Request { method, path, payload })
        },
    }
}

} // verus!
