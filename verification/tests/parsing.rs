//! Checks of the request parser, the header mapping and the connection
//! faults that end a request without a response.
use minihttp::headers::payload_parser;
use minihttp::headers::HeaderMap;
use minihttp::request::parse_request;
use minihttp::request::RequestError;
use minihttp::route::plan_request;
use minihttp::route::Plan;

fn bytes(s: &str) -> Vec<u8> {
    s.as_bytes().to_vec()
}

#[test]
fn parse_request_splits_method_and_path() {
    let buf = bytes("GET /somewhere HTTP/1.1\r\nHost: h\r\n\r\n");
    let req = parse_request(&buf).expect("two tokens parse");
    assert_eq!(req.method, bytes("GET"));
    assert_eq!(req.path, bytes("/somewhere"));
    assert_eq!(req.payload.get(b"Host").map(|v| v.clone()), Some(bytes("h")));
}

#[test]
fn malformed_request_line() {
    let buf = bytes("GET\r\nHost: h\r\n\r\n");
    assert_eq!(
        parse_request(&buf).err(),
        Some(RequestError::MalformedRequestLine)
    );
    match plan_request(&buf) {
        Plan::Abort(e) => assert_eq!(e, RequestError::MalformedRequestLine),
        _ => panic!("a malformed request line must abort"),
    }
}

#[test]
fn missing_user_agent_aborts() {
    let buf = bytes("GET /user-agent HTTP/1.1\r\nHost: x\r\n\r\n");
    match plan_request(&buf) {
        Plan::Abort(e) => assert_eq!(e, RequestError::MissingHeader),
        _ => panic!("the header echo needs its header"),
    }
}

#[test]
fn missing_post_body_aborts() {
    let buf = bytes("POST /files/x.txt HTTP/1.1\r\nHost: a\r\n\r\n");
    match plan_request(&buf) {
        Plan::Abort(e) => assert_eq!(e, RequestError::MissingBody),
        _ => panic!("the file write needs a body"),
    }
}

#[test]
fn body_holding_colon_space_reads_as_header() {
    // A deliberate limit of the fragment grammar: a body whose bytes
    // hold ": " is taken for a header, so this write has no body.
    let buf = bytes("POST /files/x.txt HTTP/1.1\r\nHost: a\r\n\r\nkey: value");
    match plan_request(&buf) {
        Plan::Abort(e) => assert_eq!(e, RequestError::MissingBody),
        _ => panic!("the colon-space fragment must read as a header"),
    }
}

#[test]
fn payload_parser_splits_at_first_separator() {
    let frags = vec![bytes("X-Note: a: b")];
    let h = payload_parser(&frags);
    assert_eq!(h.get(b"X-Note").map(|v| v.clone()), Some(bytes("a: b")));
}

#[test]
fn payload_parser_last_write_wins() {
    let frags = vec![bytes("A: 1"), bytes("A: 2")];
    let h = payload_parser(&frags);
    assert_eq!(h.get(b"A").map(|v| v.clone()), Some(bytes("2")));
}

#[test]
fn payload_parser_trims_nul_padding() {
    let frags = vec![bytes("hello\0\0\0")];
    let h = payload_parser(&frags);
    assert_eq!(h.get(b"post_payload").map(|v| v.clone()), Some(bytes("hello")));
}

#[test]
fn payload_parser_all_nul_fragment_leaves_empty_body() {
    let frags = vec![bytes("\0\0\0")];
    let h = payload_parser(&frags);
    assert_eq!(h.get(b"post_payload").map(|v| v.clone()), Some(bytes("")));
}

#[test]
fn payload_parser_ignores_empty_fragments() {
    let frags = vec![bytes(""), bytes("")];
    let h = payload_parser(&frags);
    assert!(h.get(b"post_payload").is_none());
}

#[test]
fn payload_parser_keeps_last_body_fragment() {
    let frags = vec![bytes("first"), bytes("second")];
    let h = payload_parser(&frags);
    assert_eq!(h.get(b"post_payload").map(|v| v.clone()), Some(bytes("second")));
}

#[test]
fn header_map_insert_and_overwrite() {
    let mut h = HeaderMap::new();
    assert!(h.get(b"k").is_none());
    h.insert(bytes("k"), bytes("1"));
    assert_eq!(h.get(b"k").map(|v| v.clone()), Some(bytes("1")));
    h.insert(bytes("k"), bytes("2"));
    assert_eq!(h.get(b"k").map(|v| v.clone()), Some(bytes("2")));
    h.insert(bytes("other"), bytes("3"));
    assert_eq!(h.get(b"k").map(|v| v.clone()), Some(bytes("2")));
    assert_eq!(h.get(b"other").map(|v| v.clone()), Some(bytes("3")));
}
