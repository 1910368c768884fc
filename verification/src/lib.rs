//! Request parsing, header lookup, response framing and routing for a small HTTP/1.1 server.

pub mod text;
pub mod number;
pub mod wrappers;
pub mod query;
pub mod request;
pub mod response;
pub mod log;
pub mod server;
pub mod laws;
