//! A minimal HTTP/1.1 request-handling library.
//!
//! The library parses a raw request held in a byte buffer, routes it by
//! path, negotiates gzip content encoding, and builds the response bytes.
//! Reading from and writing to the connection, and the file store behind
//! the `/files/` routes, are left to the surrounding program: the handler
//! returns either a finished response or the file operation it needs, and
//! a second call turns the operation's outcome into the response.

pub mod bytes;
pub mod gzip;
pub mod handler;
pub mod request;
pub mod response;
