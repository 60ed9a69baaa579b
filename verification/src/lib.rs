//! A minimal HTTP/1.1 protocol engine: a verified wire codec that parses raw
//! bytes into typed requests, a fixed router, pure handlers, and a response
//! serializer. All I/O (sockets, filesystem, process arguments) lives outside
//! this crate; the engine works on plain byte vectors.

pub mod handler;
pub mod headers;
pub mod laws;
pub mod method;
pub mod request;
pub mod response;
pub mod router;
pub mod scan;
