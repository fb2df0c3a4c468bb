//! An HTTP/1.1 server engine whose protocol logic is verified: the framing
//! and parsing of requests, the response writer with its two body modes,
//! the routing table, and the life of a connection from request to
//! request. Sockets, files and threads live outside this crate; the
//! library works on bytes and plain values, and says at each step what is
//! to be done next.

pub mod chunked;
pub mod connection;
pub mod consume;
pub mod http_header;
pub mod http_request;
pub mod http_response;
pub mod http_server;
pub mod numeral;
pub mod request_parser;
pub mod text;
pub mod to_bytes;
