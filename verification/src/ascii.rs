//! The byte constants of the wire format: methods, route patterns,
//! header labels and status lines, each as a spec sequence beside the
//! executable vector that carries the same bytes.
use vstd::prelude::*;

verus! {

/// The request method of every read-only route.
pub open spec fn get_method() -> Seq<u8> {
    seq!['G' as u8, 'E' as u8, 'T' as u8]
}

/// The bytes of `get_method`, as a vector.
pub fn get_method_vec() -> (v: Vec<u8>)
    ensures
        v@ == get_method(),
{
    let v: Vec<u8> = vec!['G' as u8, 'E' as u8, 'T' as u8];
    proof {
        assert(v@ =~= get_method());
    }
    v
}

/// The request method of the file-write route.
pub open spec fn post_method() -> Seq<u8> {
    seq!['P' as u8, 'O' as u8, 'S' as u8, 'T' as u8]
}

/// The bytes of `post_method`, as a vector.
pub fn post_method_vec() -> (v: Vec<u8>)
    ensures
        v@ == post_method(),
{
    let v: Vec<u8> = vec!['P' as u8, 'O' as u8, 'S' as u8, 'T' as u8];
    proof {
        assert(v@ =~= post_method());
    }
    v
}

/// The exact path of the root probe route.
pub open spec fn root_path() -> Seq<u8> {
    seq!['/' as u8]
}

/// The bytes of `root_path`, as a vector.
pub fn root_path_vec() -> (v: Vec<u8>)
    ensures
        v@ == root_path(),
{
    let v: Vec<u8> = vec!['/' as u8];
    proof {
        assert(v@ =~= root_path());
    }
    v
}

/// The exact path of the header-echo route.
pub open spec fn user_agent_path() -> Seq<u8> {
    seq!['/' as u8, 'u' as u8, 's' as u8, 'e' as u8, 'r' as u8, '-' as u8, 'a' as u8, 'g' as u8, 'e' as u8, 'n' as u8, 't' as u8]
}

/// The bytes of `user_agent_path`, as a vector.
pub fn user_agent_path_vec() -> (v: Vec<u8>)
    ensures
        v@ == user_agent_path(),
{
    let v: Vec<u8> = vec!['/' as u8, 'u' as u8, 's' as u8, 'e' as u8, 'r' as u8, '-' as u8, 'a' as u8, 'g' as u8, 'e' as u8, 'n' as u8, 't' as u8];
    proof {
        assert(v@ =~= user_agent_path());
    }
    v
}

/// The prefix of the path-echo route.
pub open spec fn echo_prefix() -> Seq<u8> {
    seq!['/' as u8, 'e' as u8, 'c' as u8, 'h' as u8, 'o' as u8, '/' as u8]
}

/// The bytes of `echo_prefix`, as a vector.
pub fn echo_prefix_vec() -> (v: Vec<u8>)
    ensures
        v@ == echo_prefix(),
{
    let v: Vec<u8> = vec!['/' as u8, 'e' as u8, 'c' as u8, 'h' as u8, 'o' as u8, '/' as u8];
    proof {
        assert(v@ =~= echo_prefix());
    }
    v
}

/// The prefix of the two file routes.
pub open spec fn files_prefix() -> Seq<u8> {
    seq!['/' as u8, 'f' as u8, 'i' as u8, 'l' as u8, 'e' as u8, 's' as u8, '/' as u8]
}

/// The bytes of `files_prefix`, as a vector.
pub fn files_prefix_vec() -> (v: Vec<u8>)
    ensures
        v@ == files_prefix(),
{
    let v: Vec<u8> = vec!['/' as u8, 'f' as u8, 'i' as u8, 'l' as u8, 'e' as u8, 's' as u8, '/' as u8];
    proof {
        assert(v@ =~= files_prefix());
    }
    v
}

/// The header the header-echo route looks up.
pub open spec fn user_agent_key() -> Seq<u8> {
    seq!['U' as u8, 's' as u8, 'e' as u8, 'r' as u8, '-' as u8, 'A' as u8, 'g' as u8, 'e' as u8, 'n' as u8, 't' as u8]
}

/// The bytes of `user_agent_key`, as a vector.
pub fn user_agent_key_vec() -> (v: Vec<u8>)
    ensures
        v@ == user_agent_key(),
{
    let v: Vec<u8> = vec!['U' as u8, 's' as u8, 'e' as u8, 'r' as u8, '-' as u8, 'A' as u8, 'g' as u8, 'e' as u8, 'n' as u8, 't' as u8];
    proof {
        assert(v@ =~= user_agent_key());
    }
    v
}

/// The reserved key under which the parser stores a request body.
pub open spec fn post_payload_key() -> Seq<u8> {
    seq!['p' as u8, 'o' as u8, 's' as u8, 't' as u8, '_' as u8, 'p' as u8, 'a' as u8, 'y' as u8, 'l' as u8, 'o' as u8, 'a' as u8, 'd' as u8]
}

/// The bytes of `post_payload_key`, as a vector.
pub fn post_payload_key_vec() -> (v: Vec<u8>)
    ensures
        v@ == post_payload_key(),
{
    let v: Vec<u8> = vec!['p' as u8, 'o' as u8, 's' as u8, 't' as u8, '_' as u8, 'p' as u8, 'a' as u8, 'y' as u8, 'l' as u8, 'o' as u8, 'a' as u8, 'd' as u8];
    proof {
        assert(v@ =~= post_payload_key());
    }
    v
}

/// The protocol tag that opens every status line.
pub open spec fn http_version() -> Seq<u8> {
    seq!['H' as u8, 'T' as u8, 'T' as u8, 'P' as u8, '/' as u8, '1' as u8, '.' as u8, '1' as u8, ' ' as u8]
}

/// The bytes of `http_version`, as a vector.
pub fn http_version_vec() -> (v: Vec<u8>)
    ensures
        v@ == http_version(),
{
    let v: Vec<u8> = vec!['H' as u8, 'T' as u8, 'T' as u8, 'P' as u8, '/' as u8, '1' as u8, '.' as u8, '1' as u8, ' ' as u8];
    proof {
        assert(v@ =~= http_version());
    }
    v
}

/// The line delimiter of the wire format.
pub open spec fn crlf() -> Seq<u8> {
    seq!['\r' as u8, '\n' as u8]
}

/// The bytes of `crlf`, as a vector.
pub fn crlf_vec() -> (v: Vec<u8>)
    ensures
        v@ == crlf(),
{
    let v: Vec<u8> = vec!['\r' as u8, '\n' as u8];
    proof {
        assert(v@ =~= crlf());
    }
    v
}

/// The label of the content-type header line.
pub open spec fn content_type_label() -> Seq<u8> {
    seq!['C' as u8, 'o' as u8, 'n' as u8, 't' as u8, 'e' as u8, 'n' as u8, 't' as u8, '-' as u8, 'T' as u8, 'y' as u8, 'p' as u8, 'e' as u8, ':' as u8, ' ' as u8]
}

/// The bytes of `content_type_label`, as a vector.
pub fn content_type_label_vec() -> (v: Vec<u8>)
    ensures
        v@ == content_type_label(),
{
    let v: Vec<u8> = vec!['C' as u8, 'o' as u8, 'n' as u8, 't' as u8, 'e' as u8, 'n' as u8, 't' as u8, '-' as u8, 'T' as u8, 'y' as u8, 'p' as u8, 'e' as u8, ':' as u8, ' ' as u8];
    proof {
        assert(v@ =~= content_type_label());
    }
    v
}

/// The label of the content-length header line.
pub open spec fn content_length_label() -> Seq<u8> {
    seq!['C' as u8, 'o' as u8, 'n' as u8, 't' as u8, 'e' as u8, 'n' as u8, 't' as u8, '-' as u8, 'L' as u8, 'e' as u8, 'n' as u8, 'g' as u8, 't' as u8, 'h' as u8, ':' as u8, ' ' as u8]
}

/// The bytes of `content_length_label`, as a vector.
pub fn content_length_label_vec() -> (v: Vec<u8>)
    ensures
        v@ == content_length_label(),
{
    let v: Vec<u8> = vec!['C' as u8, 'o' as u8, 'n' as u8, 't' as u8, 'e' as u8, 'n' as u8, 't' as u8, '-' as u8, 'L' as u8, 'e' as u8, 'n' as u8, 'g' as u8, 't' as u8, 'h' as u8, ':' as u8, ' ' as u8];
    proof {
        assert(v@ =~= content_length_label());
    }
    v
}

/// The status line of a successful response.
pub open spec fn status_ok() -> Seq<u8> {
    seq!['2' as u8, '0' as u8, '0' as u8, ' ' as u8, 'O' as u8, 'K' as u8]
}

/// The bytes of `status_ok`, as a vector.
pub fn status_ok_vec() -> (v: Vec<u8>)
    ensures
        v@ == status_ok(),
{
    let v: Vec<u8> = vec!['2' as u8, '0' as u8, '0' as u8, ' ' as u8, 'O' as u8, 'K' as u8];
    proof {
        assert(v@ =~= status_ok());
    }
    v
}

/// The status line of a successful file write.
pub open spec fn status_created() -> Seq<u8> {
    seq!['2' as u8, '0' as u8, '1' as u8, ' ' as u8, 'O' as u8, 'K' as u8]
}

/// The bytes of `status_created`, as a vector.
pub fn status_created_vec() -> (v: Vec<u8>)
    ensures
        v@ == status_created(),
{
    let v: Vec<u8> = vec!['2' as u8, '0' as u8, '1' as u8, ' ' as u8, 'O' as u8, 'K' as u8];
    proof {
        assert(v@ =~= status_created());
    }
    v
}

/// The status line of every failed lookup.
pub open spec fn status_not_found() -> Seq<u8> {
    seq!['4' as u8, '0' as u8, '4' as u8, ' ' as u8, 'N' as u8, 'o' as u8, 't' as u8, ' ' as u8, 'F' as u8, 'o' as u8, 'u' as u8, 'n' as u8, 'd' as u8]
}

/// The bytes of `status_not_found`, as a vector.
pub fn status_not_found_vec() -> (v: Vec<u8>)
    ensures
        v@ == status_not_found(),
{
    let v: Vec<u8> = vec!['4' as u8, '0' as u8, '4' as u8, ' ' as u8, 'N' as u8, 'o' as u8, 't' as u8, ' ' as u8, 'F' as u8, 'o' as u8, 'u' as u8, 'n' as u8, 'd' as u8];
    proof {
        assert(v@ =~= status_not_found());
    }
    v
}

/// The content type of the echo responses.
pub open spec fn text_plain() -> Seq<u8> {
    seq!['t' as u8, 'e' as u8, 'x' as u8, 't' as u8, '/' as u8, 'p' as u8, 'l' as u8, 'a' as u8, 'i' as u8, 'n' as u8]
}

/// The bytes of `text_plain`, as a vector.
pub fn text_plain_vec() -> (v: Vec<u8>)
    ensures
        v@ == text_plain(),
{
    let v: Vec<u8> = vec!['t' as u8, 'e' as u8, 'x' as u8, 't' as u8, '/' as u8, 'p' as u8, 'l' as u8, 'a' as u8, 'i' as u8, 'n' as u8];
    proof {
        assert(v@ =~= text_plain());
    }
    v
}

/// The content type of a file-read response.
pub open spec fn octet_stream() -> Seq<u8> {
    seq!['a' as u8, 'p' as u8, 'p' as u8, 'l' as u8, 'i' as u8, 'c' as u8, 'a' as u8, 't' as u8, 'i' as u8, 'o' as u8, 'n' as u8, '/' as u8, 'o' as u8, 'c' as u8, 't' as u8, 'e' as u8, 't' as u8, '-' as u8, 's' as u8, 't' as u8, 'r' as u8, 'e' as u8, 'a' as u8, 'm' as u8]
}

/// The bytes of `octet_stream`, as a vector.
pub fn octet_stream_vec() -> (v: Vec<u8>)
    ensures
        v@ == octet_stream(),
{
    let v: Vec<u8> = vec!['a' as u8, 'p' as u8, 'p' as u8, 'l' as u8, 'i' as u8, 'c' as u8, 'a' as u8, 't' as u8, 'i' as u8, 'o' as u8, 'n' as u8, '/' as u8, 'o' as u8, 'c' as u8, 't' as u8, 'e' as u8, 't' as u8, '-' as u8, 's' as u8, 't' as u8, 'r' as u8, 'e' as u8, 'a' as u8, 'm' as u8];
    proof {
        assert(v@ =~= octet_stream());
    }
    v
}

} // verus!
