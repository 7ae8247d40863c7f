//! Arguments that are read as text: UTF-8 decoding and the case-insensitive
//! matching of verbs and modifiers.

use vstd::prelude::*;
use vstd::utf8::{
    decode_utf8, encode_utf8, is_ascii_chars, is_ascii_chars_encode_utf8, is_leading_byte_width_1,
    partial_valid_utf8, partial_valid_utf8_extend_ascii_block, valid_utf8,
};

verus! {

/// The upper-case letter `A`.
pub const UPPER_A: u8 = 65;

/// The upper-case letter `Z`.
pub const UPPER_Z: u8 = 90;

/// The distance from an upper-case ASCII letter to its lower-case form.
pub const CASE_GAP: u8 = 32;

/// The lower-case form of an ASCII letter; every other byte is left as it is.
pub open spec fn lower(byte: u8) -> u8 {
    if UPPER_A <= byte <= UPPER_Z {
        (byte + CASE_GAP) as u8
    } else {
        byte
    }
}

/// Whether `arg` spells `word` when the case of ASCII letters is ignored.
/// `word` is a lower-case ASCII word such as `ping`.
pub open spec fn is_word(arg: Seq<u8>, word: Seq<char>) -> bool {
    &&& is_ascii_chars(word)
    &&& arg.len() == word.len()
    &&& forall|i: int| 0 <= i < arg.len() ==> lower(#[trigger] arg[i]) == word[i] as u8
}

/// What an argument says when it is read as text: the characters that its
/// bytes encode, or `None` where the bytes are not UTF-8.
pub open spec fn text_of(bytes: Seq<u8>) -> Option<Seq<char>> {
    if valid_utf8(bytes) {
        Some(decode_utf8(bytes))
    } else {
        None
    }
}

/// An argument that spells a word is text: it holds ASCII bytes only.
pub proof fn lemma_word_is_text(arg: Seq<u8>, word: Seq<char>)
    requires
        is_word(arg, word),
    ensures
        text_of(arg) is Some,
{
    assert forall|i: int| 0 <= i < arg.len() implies #[trigger] is_leading_byte_width_1(arg[i]) by {
        assert(lower(arg[i]) == word[i] as u8);
        assert(word[i] as u32 <= 0x7f);
    }
    assert(arg.subrange(0, 0) =~= Seq::<u8>::empty());
    assert(partial_valid_utf8(arg, 0));
    partial_valid_utf8_extend_ascii_block(arg, 0, arg.len() as int);
    assert(arg.subrange(0, arg.len() as int) =~= arg);
}

/// Calls `core::str::from_utf8`. The contract claims what the standard
/// library documents: the call succeeds exactly on well-formed UTF-8, and the
/// string slice it gives is made of the very bytes that were handed in.
#[verifier::external_body]
fn from_utf8(bytes: &[u8]) -> (text: Option<&str>)
    ensures
        text is Some <==> valid_utf8(bytes@),
        text matches Some(s) ==> encode_utf8(s@) == bytes@,
{
    core::str::from_utf8(bytes).ok()
}

/// Reads an argument as text.
pub fn read_text(bytes: &[u8]) -> (text: Option<&str>)
    ensures
        match text {
            Some(s) => text_of(bytes@) == Some(s@),
            None => text_of(bytes@) is None,
        },
{
    broadcast use vstd::utf8::encode_utf8_decode_utf8;

    from_utf8(bytes)
}

/// Compares an argument with a lower-case ASCII word, ignoring the case of
/// the argument's ASCII letters.
pub fn matches_word(arg: &[u8], word: &str) -> (matches: bool)
    ensures
        matches == is_word(arg@, word@),
{
    if !word.is_ascii() {
        return false;
    }
    let letters: &[u8] = word.as_bytes();
    proof {
        is_ascii_chars_encode_utf8(word@);
    }
    let len: usize = arg.len();
    if len != letters.len() {
        return false;
    }
    let mut index: usize = 0;
    while index < len
        invariant
            len == arg@.len(),
            len == word@.len(),
            index <= len,
            is_ascii_chars(word@),
            letters@.len() == len,
            forall|i: int| 0 <= i < len ==> word@[i] as u8 == #[trigger] letters@[i],
            forall|i: int| 0 <= i < index ==> lower(#[trigger] arg@[i]) == word@[i] as u8,
        decreases len - index,
    {
        let byte: u8 = arg[index];
        let folded: u8 = if UPPER_A <= byte && byte <= UPPER_Z {
            byte + CASE_GAP
        } else {
            byte
        };
        if folded != letters[index] {
            return false;
        }
        index += 1;
    }
    true
}

} // verus!
