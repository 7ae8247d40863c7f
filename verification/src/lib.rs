//! An in-memory key-value store behind a length-prefixed, text-framed
//! request/reply protocol.
//!
//! - [`frame`] reads command frames from a buffer of bytes;
//! - [`reply`] writes replies in the wire format;
//! - [`store`] is the mapping from key to value, with deadlines;
//! - [`session`] is what a connection knows of itself;
//! - [`command`] says what each command means, and [`handler`] executes it;
//! - [`connection`] takes bytes as they arrive, in chunks of any size, and
//!   executes every command that is complete;
//! - [`laws`] states what holds of commands in sequence.
//!
//! Nothing here reads a socket or a clock: bytes and the time, in
//! milliseconds, are handed in, and replies and the deletions to schedule
//! are handed back.

pub mod ascii;
pub mod command;
pub mod connection;
pub mod frame;
pub mod handler;
pub mod laws;
pub mod number;
pub mod reply;
pub mod session;
pub mod store;
pub mod text;
