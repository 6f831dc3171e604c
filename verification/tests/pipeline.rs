//! End-to-end checks of the request pipeline: bytes in, plan out, and
//! the rendered response bytes.
use minihttp::response::Status;
use minihttp::route::plan_request;
use minihttp::route::Plan;
use minihttp::route::{file_read_response, file_write_response};
use minihttp::response::render_response;

fn bytes(s: &str) -> Vec<u8> {
    s.as_bytes().to_vec()
}

#[test]
fn root_probe() {
    let buf = bytes("GET / HTTP/1.1\r\nHost: localhost\r\n\r\n");
    match plan_request(&buf) {
        Plan::Respond(r) => {
            assert_eq!(r.status, Status::Success);
            assert!(r.content_type.is_none());
            assert!(r.body.is_none());
            assert_eq!(render_response(&r), bytes("HTTP/1.1 200 OK\r\n\r\n"));
        },
        _ => panic!("root probe must answer directly"),
    }
}

#[test]
fn echo_path() {
    let buf = bytes("GET /echo/abc123 HTTP/1.1\r\nHost: localhost\r\n\r\n");
    match plan_request(&buf) {
        Plan::Respond(r) => {
            assert_eq!(r.status, Status::Success);
            assert_eq!(r.content_type.as_deref(), Some(bytes("text/plain").as_slice()));
            assert_eq!(r.body.as_deref(), Some(bytes("abc123").as_slice()));
            assert_eq!(
                render_response(&r),
                bytes("HTTP/1.1 200 OK\r\nContent-Type: text/plain\r\nContent-Length: 6\r\n\r\nabc123")
            );
        },
        _ => panic!("echo must answer directly"),
    }
}

#[test]
fn echo_empty_remainder() {
    let buf = bytes("GET /echo/ HTTP/1.1\r\n\r\n");
    match plan_request(&buf) {
        Plan::Respond(r) => {
            assert_eq!(r.body.as_deref(), Some(&[] as &[u8]));
            assert_eq!(
                render_response(&r),
                bytes("HTTP/1.1 200 OK\r\nContent-Type: text/plain\r\nContent-Length: 0\r\n\r\n")
            );
        },
        _ => panic!("echo must answer directly"),
    }
}

#[test]
fn user_agent_echo() {
    let buf = bytes("GET /user-agent HTTP/1.1\r\nHost: x\r\nUser-Agent: testclient/1.0\r\n\r\n");
    match plan_request(&buf) {
        Plan::Respond(r) => {
            assert_eq!(r.status, Status::Success);
            assert_eq!(r.body.as_deref(), Some(bytes("testclient/1.0").as_slice()));
            assert_eq!(r.content_type.as_deref(), Some(bytes("text/plain").as_slice()));
        },
        _ => panic!("user-agent echo must answer directly"),
    }
}

#[test]
fn file_round_trip() {
    let mut store: Vec<(Vec<u8>, Vec<u8>)> = Vec::new();

    let post = bytes("POST /files/note.txt HTTP/1.1\r\nHost: x\r\n\r\nhello");
    match plan_request(&post) {
        Plan::WriteFile(name, data) => {
            assert_eq!(name, bytes("note.txt"));
            assert_eq!(data, bytes("hello"));
            store.push((name, data));
            let r = file_write_response(true);
            assert_eq!(r.status, Status::Created);
            assert_eq!(render_response(&r), bytes("HTTP/1.1 201 OK\r\n\r\n"));
        },
        _ => panic!("file write must plan a store write"),
    }

    let get = bytes("GET /files/note.txt HTTP/1.1\r\nHost: x\r\n\r\n");
    match plan_request(&get) {
        Plan::ReadFile(name) => {
            assert_eq!(name, bytes("note.txt"));
            let found = store.iter().find(|e| e.0 == name).map(|e| e.1.clone());
            let r = file_read_response(found);
            assert_eq!(r.status, Status::Success);
            assert_eq!(
                r.content_type.as_deref(),
                Some(bytes("application/octet-stream").as_slice())
            );
            assert_eq!(r.body.as_deref(), Some(bytes("hello").as_slice()));
            assert_eq!(
                render_response(&r),
                bytes(
                    "HTTP/1.1 200 OK\r\nContent-Type: application/octet-stream\r\nContent-Length: 5\r\n\r\nhello"
                )
            );
        },
        _ => panic!("file read must plan a store read"),
    }
}

#[test]
fn file_read_miss() {
    let buf = bytes("GET /files/doesnotexist.txt HTTP/1.1\r\nHost: x\r\n\r\n");
    match plan_request(&buf) {
        Plan::ReadFile(name) => {
            assert_eq!(name, bytes("doesnotexist.txt"));
            let r = file_read_response(None);
            assert_eq!(r.status, Status::NotFound);
            assert!(r.body.is_none());
            assert_eq!(render_response(&r), bytes("HTTP/1.1 404 Not Found\r\n\r\n"));
        },
        _ => panic!("file read must plan a store read"),
    }
}

#[test]
fn file_write_failure_is_not_found() {
    let r = file_write_response(false);
    assert_eq!(r.status, Status::NotFound);
    assert_eq!(render_response(&r), bytes("HTTP/1.1 404 Not Found\r\n\r\n"));
}

#[test]
fn unknown_route() {
    let buf = bytes("GET /nonexistent HTTP/1.1\r\nHost: x\r\n\r\n");
    match plan_request(&buf) {
        Plan::Respond(r) => {
            assert_eq!(r.status, Status::NotFound);
            assert!(r.body.is_none());
            assert_eq!(render_response(&r), bytes("HTTP/1.1 404 Not Found\r\n\r\n"));
        },
        _ => panic!("an unknown route must answer directly"),
    }
}

#[test]
fn repeated_request_repeats_response() {
    let buf = bytes("GET /echo/x HTTP/1.1\r\nHost: x\r\n\r\n");
    let mut outputs: Vec<Vec<u8>> = Vec::new();
    for _ in 0..5 {
        match plan_request(&buf) {
            Plan::Respond(r) => outputs.push(render_response(&r)),
            _ => panic!("echo must answer directly"),
        }
    }
    for out in &outputs {
        assert_eq!(out, &outputs[0]);
    }
}

#[test]
fn content_length_counts_bytes_not_chars() {
    // The path remainder holds five characters in six UTF-8 bytes.
    let buf = bytes("GET /echo/h\u{e9}llo HTTP/1.1\r\n\r\n");
    match plan_request(&buf) {
        Plan::Respond(r) => {
            let body = r.body.clone().expect("echo carries a body");
            assert_eq!(body, "h\u{e9}llo".as_bytes().to_vec());
            assert_eq!(body.len(), 6);
            let rendered = render_response(&r);
            let expected = bytes("HTTP/1.1 200 OK\r\nContent-Type: text/plain\r\nContent-Length: 6\r\n\r\n");
            assert!(rendered.starts_with(&expected));
            assert_eq!(&rendered[expected.len()..], body.as_slice());
        },
        _ => panic!("echo must answer directly"),
    }
}

#[test]
fn two_digit_content_length() {
    let buf = bytes("GET /echo/twelve-bytes HTTP/1.1\r\n\r\n");
    match plan_request(&buf) {
        Plan::Respond(r) => {
            assert_eq!(
                render_response(&r),
                bytes(
                    "HTTP/1.1 200 OK\r\nContent-Type: text/plain\r\nContent-Length: 12\r\n\r\ntwelve-bytes"
                )
            );
        },
        _ => panic!("echo must answer directly"),
    }
}

#[test]
fn invalid_utf8_is_replaced_not_fatal() {
    // One invalid byte in the echo remainder becomes the three-byte
    // replacement character before routing.
    let mut buf = bytes("GET /echo/");
    buf.push(0xFF);
    buf.extend_from_slice(" HTTP/1.1\r\n\r\n".as_bytes());
    match plan_request(&buf) {
        Plan::Respond(r) => {
            assert_eq!(r.body.as_deref(), Some(&[0xEF_u8, 0xBF, 0xBD] as &[u8]));
            let rendered = render_response(&r);
            assert!(rendered.starts_with(
                "HTTP/1.1 200 OK\r\nContent-Type: text/plain\r\nContent-Length: 3\r\n\r\n".as_bytes()
            ));
        },
        _ => panic!("echo must answer directly"),
    }
}

#[test]
fn nul_padded_buffer_still_routes() {
    // A fixed 512-byte read buffer leaves NUL padding after the request.
    let mut buf = bytes("GET / HTTP/1.1\r\nHost: x\r\n\r\n");
    buf.resize(512, 0);
    match plan_request(&buf) {
        Plan::Respond(r) => {
            assert_eq!(r.status, Status::Success);
            assert!(r.body.is_none());
        },
        _ => panic!("root probe must answer directly"),
    }
}

#[test]
fn nul_padded_post_body_is_trimmed() {
    let mut buf = bytes("POST /files/a.txt HTTP/1.1\r\nHost: x\r\n\r\nhello");
    buf.resize(512, 0);
    match plan_request(&buf) {
        Plan::WriteFile(name, data) => {
            assert_eq!(name, bytes("a.txt"));
            assert_eq!(data, bytes("hello"));
        },
        _ => panic!("file write must plan a store write"),
    }
}
