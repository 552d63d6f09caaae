//! A minimal static-file HTTP server, as a library of verified decisions.
//!
//! The library never touches a socket or a file. It parses a request line,
//! confines the requested path to a document root, classifies the file's
//! content type, and produces the exact bytes of the response; whoever runs
//! the sockets and the file system feeds it plain values and writes what it
//! hands back.

pub mod chunked;
pub mod connection;
pub mod mime;
pub mod path;
pub mod request;
pub mod resolve;
pub mod response;
