//! A minimal HTTP/1.1 request pipeline: one request is read from a
//! connection as a bounded byte buffer, parsed into method, path and a
//! header mapping, routed to one of a fixed set of handlers, and answered
//! with a framed response. This crate holds the whole pipeline from raw
//! bytes to response bytes; the sockets and the file store around it hand
//! it plain byte values.
pub mod ascii;
pub mod headers;
pub mod request;
pub mod response;
pub mod route;
pub mod scan;
