//! A tiny verified web back end for a todo list.
//!
//! The crate covers the logic of a minimal single-connection HTTP server:
//! parsing a raw request buffer, decoding a form body, routing, an
//! in-memory store of items with filtered views, and rendering the
//! response bytes.  All I/O stays outside the library; `server::handle`
//! takes the raw bytes of one request and returns the bytes of the
//! response, if one is owed.

pub mod laws;
pub mod parse;
pub mod render;
pub mod router;
pub mod server;
pub mod store;
