//! The core of an embedded HTTP/1.1 server, with contracts that Verus checks.
//!
//! - `request`: the request codec, from bytes to a `Request`.
//! - `response`: the response codec, from a `Response` to bytes.
//! - `plugin`: the contract of a plugin, and the registry that asks the
//!   plugins in the order of their registration.
//! - `plugins`: the plugins that come with the server.
//! - `server`: the states of the server, what each connection is answered,
//!   and the handle of a running server.
//! - `round_trip`: a request that is written out parses back to itself.
//! - `headers`, `mime`, `status`, `path`, `text`, `logging`: what the others
//!   are built from.
//!
//! The library decides and computes; it opens no socket, reads no file and
//! prints nothing. An application does that, and asks the library what to
//! do with what it read.

pub mod headers;
pub mod logging;
pub mod mime;
pub mod path;
pub mod plugin;
pub mod plugins;
pub mod request;
pub mod response;
pub mod round_trip;
pub mod server;
pub mod status;
pub mod text;
