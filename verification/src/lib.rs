//! An in-process HTTP request router and handler-composition core.
//!
//! The library maps a request's method and path to a registered handler,
//! extracts typed path parameters, and lets handlers be wrapped by
//! middleware to form a call chain.  Transport concerns (sockets, TLS,
//! wire framing, asynchronous body streams) are collaborators outside of
//! this crate: they hand the core a parsed method, path and body, and
//! take a response value back.

pub mod handler;
pub mod params;
pub mod pattern;
pub mod router;
pub mod server;
pub mod text;

pub use params::Params;
