//! The core of a minimal HTTP/1.1 server: the wire parser, the router and
//! the response encoder, each with a proved contract.
//!
//! The library touches neither sockets nor files. A server hands it the
//! bytes that a connection delivered and carries out what it decides:
//!
//! - `framing::awaits_more` says whether to go on reading;
//! - `request::process_request` says what to do for the bytes received:
//!   send a response, read a file or write one;
//! - `request::after_read` and `request::after_write` give the response once
//!   the file was read or written;
//! - `response::Response::build` gives the bytes to send.
//!
//! `exchange` states what holds of whole exchanges, with storage modelled as
//! a map from file name to contents.

pub mod bytes;
pub mod decimal;
pub mod exchange;
pub mod framing;
pub mod headers;
pub mod message;
pub mod parser;
pub mod reading;
pub mod request;
pub mod response;
