//! The ASCII bytes that the protocol gives a meaning to.

use vstd::prelude::*;

verus! {

/// Carriage return, the first byte of a line end.
pub const CR: u8 = 13;

/// Line feed, the second byte of a line end.
pub const LF: u8 = 10;

/// `*`, which opens a frame.
pub const STAR: u8 = 42;

/// `$`, which opens a bulk string.
pub const DOLLAR: u8 = 36;

/// `+`, which opens a status line.
pub const PLUS: u8 = 43;

/// `-`, which opens an error line, and the sign in the null bulk string's
/// length.
pub const MINUS: u8 = 45;

/// The digit `0`.
pub const DIGIT_0: u8 = 48;

/// The digit `1`.
pub const DIGIT_1: u8 = 49;

/// The digit `9`.
pub const DIGIT_9: u8 = 57;

} // verus!
