//! Client-side support for Redis Streams.
//!
//! A stream is a named, append-only log of entries. An entry holds ordered
//! field/value pairs under an identifier that grows from entry to entry. A
//! consumer reads the entries that follow a cursor, the identifier of the last
//! entry it was handed, and moves the cursor on.
//!
//! This crate holds what a client decides and computes, and leaves the
//! connection to its user: a request is built here as a `redis::Cmd`, the user
//! sends it, and the outcome, a reply or an error of the transport, is handed
//! back here to be decoded and applied.
//!
//! - [`entry_id`]: identifiers, their order and their text.
//! - [`reply`]: what the server answers, as a tree of plain values.
//! - [`decode`]: entries and streams, and how a reply is read as them.
//! - [`command`]: the requests, built on `redis::Cmd`.
//! - [`cursor`]: the cursor table of a consumer.
//! - [`stream_server`]: the consumer of several streams at once.
//! - [`stream`]: one producer and one consumer of one stream.
//! - [`clock`]: the identifier that stands for "now".
//! - [`laws`]: what holds of cursors over several registrations and reads.
//! - [`handler`]: the interface of a consumer that is handed entries.
//! - [`error`]: what can go wrong.
//! - [`text`]: bytes and strings.

pub mod clock;
pub mod command;
pub mod cursor;
pub mod decode;
pub mod entry_id;
pub mod error;
pub mod handler;
pub mod laws;
pub mod reply;
pub mod stream;
pub mod stream_server;
pub mod text;

pub use command::{xadd, xadd_maxlen, Xadd};
pub use decode::{Entry, Stream};
pub use handler::HandleEntry;
