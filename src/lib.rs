//! A file-sharing HTTP/1.x server engine: request parsing, range and
//! response framing, streaming multipart uploads and the per-connection
//! state machine, each stated and proved with Verus.
//!
//! The library does no I/O. Its caller owns the sockets, files and the
//! readiness loop; it hands the library the bytes it read and the outcome
//! of what it did, and sends the bytes the library returns.
//!
//! - `text`: byte-string helpers (literals, trimming, case, decimals).
//! - `matcher`: substring search over raw bytes.
//! - `http_core`: methods, versions, statuses, the request head grammar,
//!   percent-decoding and the multipart boundary parameter.
//! - `range`: the `Range` header and the bytes a range selects.
//! - `response`: response heads on the wire and body bookkeeping.
//! - `post_buffer`: the streaming multipart/form-data parser.
//! - `rendering`: error pages and directory listings.
//! - `connection`: the per-connection state machine and dispatch rules.
//! - `engine`: the decisions of the readiness loop and path confinement.
//! - `history`: what the dashboard shows.
//! - `opts`: the server's configuration.
pub mod text;
pub mod matcher;
pub mod http_core;
pub mod range;
pub mod post_buffer;
pub mod response;
pub mod rendering;
pub mod connection;
pub mod history;
pub mod engine;
pub mod opts;
