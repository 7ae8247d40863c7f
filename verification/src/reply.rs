//! The wire format of replies: status lines, error lines, bulk strings and
//! the null bulk string.

use crate::ascii::{CR, DIGIT_1, DOLLAR, LF, MINUS, PLUS};
use crate::number::{decimal_digits, number_to_ascii};
use vstd::prelude::*;
use vstd::string::StringExecFns;
use vstd::utf8::{encode_utf8, is_ascii_chars, is_ascii_chars_encode_utf8};

verus! {

/// The two bytes that end every line of the protocol: carriage return, line feed.
pub open spec fn crlf() -> Seq<u8> {
    seq![CR, LF]
}

/// A bulk string on the wire: `$`, the payload's length in decimal, a line
/// end, the payload as it is, and a line end.
pub open spec fn bulk_reply(payload: Seq<u8>) -> Seq<u8> {
    seq![DOLLAR] + decimal_digits(payload.len()) + crlf() + payload + crlf()
}

/// The null bulk string on the wire: `$-1` and a line end.
pub open spec fn null_reply() -> Seq<u8> {
    seq![DOLLAR, MINUS, DIGIT_1, CR, LF]
}

/// A status line: `+`, the text, and a line end.
pub open spec fn status_line(status: Seq<char>) -> Seq<char> {
    seq!['+'] + status + seq!['\r', '\n']
}

/// An error line: `-`, the text, and a line end.
pub open spec fn error_line(message: Seq<char>) -> Seq<char> {
    seq!['-'] + message + seq!['\r', '\n']
}

/// The bytes of an ASCII text: one byte for each character.
pub open spec fn ascii_bytes(text: Seq<char>) -> Seq<u8> {
    Seq::new(text.len(), |i: int| text[i] as u8)
}

/// On the wire, a status line with an ASCII text is `+`, the text byte for
/// character, and a line end; an error line is the same behind `-`.
pub proof fn lemma_lines_on_the_wire(text: Seq<char>)
    requires
        is_ascii_chars(text),
    ensures
        encode_utf8(status_line(text)) == seq![PLUS] + ascii_bytes(text) + crlf(),
        encode_utf8(error_line(text)) == seq![MINUS] + ascii_bytes(text) + crlf(),
{
    let status = status_line(text);
    let error = error_line(text);
    assert forall|i: int| 0 <= i < status.len() implies '\0' <= #[trigger] status[i] <= '\u{7f}' by {
        if 1 <= i <= text.len() {
            assert(status[i] == text[i - 1]);
        }
    }
    assert forall|i: int| 0 <= i < error.len() implies '\0' <= #[trigger] error[i] <= '\u{7f}' by {
        if 1 <= i <= text.len() {
            assert(error[i] == text[i - 1]);
        }
    }
    is_ascii_chars_encode_utf8(status);
    is_ascii_chars_encode_utf8(error);
    let status_bytes = seq![PLUS] + ascii_bytes(text) + crlf();
    let error_bytes = seq![MINUS] + ascii_bytes(text) + crlf();
    assert forall|i: int| 0 <= i < status.len() implies encode_utf8(status)[i]
        == status_bytes[i] by {
        assert(status[i] as u8 == encode_utf8(status)[i]);
        if 1 <= i <= text.len() {
            assert(status[i] == text[i - 1]);
        }
    }
    assert forall|i: int| 0 <= i < error.len() implies encode_utf8(error)[i] == error_bytes[i] by {
        assert(error[i] as u8 == encode_utf8(error)[i]);
        if 1 <= i <= text.len() {
            assert(error[i] == text[i - 1]);
        }
    }
    assert(encode_utf8(status) =~= status_bytes);
    assert(encode_utf8(error) =~= error_bytes);
}

/// Encodes a bulk string reply, or the null bulk string for `None`.
pub fn encode_response_string(response: Option<&[u8]>) -> (reply: Vec<u8>)
    ensures
        reply@ == match response {
            Some(payload) => bulk_reply(payload@),
            None => null_reply(),
        },
{
    let mut reply: Vec<u8> = Vec::new();
    reply.push(DOLLAR);
    match response {
        Some(payload) => {
            let mut digits: Vec<u8> = number_to_ascii(payload.len());
            reply.append(&mut digits);
            reply.push(CR);
            reply.push(LF);
            reply.extend_from_slice(payload);
            reply.push(CR);
            reply.push(LF);
            proof {
                assert(reply@ =~= bulk_reply(payload@));
            }
        },
        None => {
            reply.push(MINUS);
            reply.push(DIGIT_1);
            reply.push(CR);
            reply.push(LF);
            proof {
                assert(reply@ =~= null_reply());
            }
        },
    }
    reply
}

/// Encodes a status reply such as `OK` or `PONG`.
pub fn encode_status_string(status: &str) -> (line: String)
    ensures
        line@ == status_line(status@),
{
    let line: String = String::from_str("+").concat(status).concat("\r\n");
    proof {
        reveal_strlit("+");
        reveal_strlit("\r\n");
        assert(line@ =~= status_line(status@));
    }
    line
}

/// Encodes an error reply with the given text.
pub fn encode_error_string(message: &str) -> (line: String)
    ensures
        line@ == error_line(message@),
{
    let line: String = String::from_str("-").concat(message).concat("\r\n");
    proof {
        reveal_strlit("-");
        reveal_strlit("\r\n");
        assert(line@ =~= error_line(message@));
    }
    line
}

} // verus!
