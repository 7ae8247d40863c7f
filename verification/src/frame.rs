//! The frame parser. A frame is `*`, the number of bulk strings and a line
//! end, followed by that many bulk strings; a bulk string is `$`, the length
//! of its payload and a line end, followed by the payload and a line end.
//! Lengths are authoritative: a payload may hold any byte.

use crate::ascii::{CR, DIGIT_0, DIGIT_9, DOLLAR, LF, STAR};
use crate::command::command_view;
use crate::number::{
    all_digits, ascii_to_number, decimal_digits, digits_value, is_digit,
    lemma_decimal_digits_shape, lemma_decimal_round_trip, lemma_digits_value_prefix,
};
use crate::reply::{bulk_reply, crlf};
use vstd::prelude::*;

verus! {

/// Why no command could be read from a buffer.
#[derive(Clone, Copy, Debug, PartialEq, Eq)]
pub enum FrameError {
    /// The buffer ends before the frame does. More bytes may complete it.
    Truncated,
    /// A frame does not start with `*`, or a bulk string not with `$`.
    BadSentinel,
    /// A count or a length is empty, holds a byte that is no digit, or is
    /// too large.
    BadNumber,
    /// A line end is expected and something else is found.
    BadTerminator,
    /// The frame announces no bulk string at all.
    EmptyFrame,
}

/// The bytes of `input` from `start` on; nothing where `start` lies beyond
/// the end.
pub open spec fn tail(input: Seq<u8>, start: int) -> Seq<u8> {
    if 0 <= start <= input.len() {
        input.skip(start)
    } else {
        Seq::empty()
    }
}

/// How many digits `bytes` begins with.
pub open spec fn digit_run(bytes: Seq<u8>) -> nat
    decreases bytes.len(),
{
    if bytes.len() > 0 && is_digit(bytes[0]) {
        1 + digit_run(bytes.skip(1))
    } else {
        0
    }
}

/// Reads a decimal number and the line end after it from the start of
/// `bytes`: the number, and how many bytes it takes with its line end.
///
/// The number is the run of digits that `bytes` begins with. It is a bad
/// number if it is beyond `usize::MAX`, if it is empty, or if anything but a
/// carriage return follows it; the line end is bad if no line feed follows
/// the carriage return. Where `bytes` ends before any of this is settled,
/// the number is truncated.
pub open spec fn parse_number(bytes: Seq<u8>) -> Result<(usize, nat), FrameError> {
    let run = digit_run(bytes) as int;
    let value = digits_value(bytes.take(run));
    if value > usize::MAX {
        Err(FrameError::BadNumber)
    } else if run == bytes.len() {
        Err(FrameError::Truncated)
    } else if run == 0 || bytes[run] != CR {
        Err(FrameError::BadNumber)
    } else if run + 1 == bytes.len() {
        Err(FrameError::Truncated)
    } else if bytes[run + 1] != LF {
        Err(FrameError::BadTerminator)
    } else {
        Ok((value as usize, (run + 2) as nat))
    }
}

/// Reads the head of a frame from the start of `bytes`: the number of bulk
/// strings that the frame announces, and how many bytes the head takes.
pub open spec fn parse_head(bytes: Seq<u8>) -> Result<(usize, nat), FrameError> {
    if bytes.len() == 0 {
        Err(FrameError::Truncated)
    } else if bytes[0] != STAR {
        Err(FrameError::BadSentinel)
    } else {
        match parse_number(bytes.skip(1)) {
            Err(error) => Err(error),
            Ok((count, used)) => Ok((count, used + 1)),
        }
    }
}

/// Reads one bulk string from the start of `bytes`: its payload, and how
/// many bytes the bulk string takes in all.
///
/// The payload is as long as the length says, whatever bytes it holds. A
/// line end must follow it; where `bytes` ends before the payload or its
/// line end does, the bulk string is truncated.
pub open spec fn parse_item(bytes: Seq<u8>) -> Result<(Seq<u8>, nat), FrameError> {
    if bytes.len() == 0 {
        Err(FrameError::Truncated)
    } else if bytes[0] != DOLLAR {
        Err(FrameError::BadSentinel)
    } else {
        match parse_number(bytes.skip(1)) {
            Err(error) => Err(error),
            Ok((length, used)) => {
                let first = (1 + used) as int;
                let end = first + length;
                if bytes.len() <= end {
                    Err(FrameError::Truncated)
                } else if bytes[end] != CR {
                    Err(FrameError::BadTerminator)
                } else if bytes.len() == end + 1 {
                    Err(FrameError::Truncated)
                } else if bytes[end + 1] != LF {
                    Err(FrameError::BadTerminator)
                } else {
                    Ok((bytes.subrange(first, end), (end + 2) as nat))
                }
            },
        }
    }
}

/// Reads `count` bulk strings, one after the other, from the start of
/// `bytes`: their payloads in order, and how many bytes they take together.
pub open spec fn parse_items(bytes: Seq<u8>, count: nat) -> Result<(Seq<Seq<u8>>, nat), FrameError>
    decreases count,
{
    if count == 0 {
        Ok((Seq::empty(), 0))
    } else {
        match parse_items(bytes, (count - 1) as nat) {
            Err(error) => Err(error),
            Ok((items, used)) => match parse_item(tail(bytes, used as int)) {
                Err(error) => Err(error),
                Ok((item, more)) => Ok((items.push(item), used + more)),
            },
        }
    }
}

/// Reads one frame from the start of `bytes`: the command that it holds, and
/// how many bytes the frame takes. A frame holds at least one bulk string.
pub open spec fn parse_frame(bytes: Seq<u8>) -> Result<(Seq<Seq<u8>>, nat), FrameError> {
    match parse_head(bytes) {
        Err(error) => Err(error),
        Ok((count, used)) => {
            if count == 0 {
                Err(FrameError::EmptyFrame)
            } else {
                match parse_items(tail(bytes, used as int), count as nat) {
                    Err(error) => Err(error),
                    Ok((items, more)) => Ok((items, used + more)),
                }
            }
        },
    }
}

/// The digits that `bytes` begins with are digits, and what follows them is
/// none.
pub proof fn lemma_digit_run(bytes: Seq<u8>)
    ensures
        digit_run(bytes) <= bytes.len(),
        all_digits(bytes.take(digit_run(bytes) as int)),
        digit_run(bytes) < bytes.len() ==> !is_digit(bytes[digit_run(bytes) as int]),
    decreases bytes.len(),
{
    if bytes.len() > 0 && is_digit(bytes[0]) {
        let rest = bytes.skip(1);
        lemma_digit_run(rest);
        let run = digit_run(bytes) as int;
        assert forall|i: int| 0 <= i < run implies is_digit(#[trigger] bytes.take(run)[i]) by {
            if i > 0 {
                assert(bytes.take(run)[i] == rest.take(run - 1)[i - 1]);
            }
        }
    }
}

/// The number of leading digits is settled by where the first byte stands
/// that is no digit.
pub proof fn lemma_digit_run_is(bytes: Seq<u8>, run: int)
    requires
        0 <= run <= bytes.len(),
        forall|i: int| 0 <= i < run ==> is_digit(#[trigger] bytes[i]),
        run < bytes.len() ==> !is_digit(bytes[run]),
    ensures
        digit_run(bytes) == run,
    decreases bytes.len(),
{
    if run > 0 {
        let rest = bytes.skip(1);
        assert(is_digit(bytes[0]));
        assert forall|i: int| 0 <= i < run - 1 implies is_digit(#[trigger] rest[i]) by {
            assert(rest[i] == bytes[i + 1]);
        }
        lemma_digit_run_is(rest, run - 1);
    }
}

/// Reads a decimal number and the line end after it at `start_index`.
/// Returns the number and how many bytes it takes with its line end.
pub fn read_number(input: &[u8], start_index: usize) -> (result: Result<(usize, usize), FrameError>)
    ensures
        match result {
            Ok((number, used)) => {
                &&& parse_number(tail(input@, start_index as int)) == Ok::<_, FrameError>(
                    (number, used as nat),
                )
                &&& start_index + used <= input@.len()
            },
            Err(error) => parse_number(tail(input@, start_index as int)) == Err::<
                (usize, nat),
                _,
            >(error),
        },
{
    let len: usize = input.len();
    let ghost bytes = tail(input@, start_index as int);
    if start_index >= len {
        proof {
            assert(bytes.len() == 0);
            assert(bytes.take(0).len() == 0);
        }
        return Err(FrameError::Truncated);
    }
    let mut index: usize = start_index;
    while index < len && DIGIT_0 <= input[index] && input[index] <= DIGIT_9
        invariant
            len == input@.len(),
            start_index <= index <= len,
            forall|i: int| start_index <= i < index ==> is_digit(#[trigger] input@[i]),
        decreases len - index,
    {
        index += 1;
    }
    let ghost run = index - start_index;
    proof {
        assert forall|i: int| 0 <= i < run implies is_digit(#[trigger] bytes[i]) by {
            assert(bytes[i] == input@[start_index + i]);
        }
        if run < bytes.len() {
            assert(bytes[run] == input@[index as int]);
        }
        lemma_digit_run_is(bytes, run);
        assert(bytes.take(run) =~= input@.subrange(start_index as int, index as int));
        lemma_digit_run(bytes);
    }
    let mut number: usize = 0;
    if index > start_index {
        match ascii_to_number(vstd::slice::slice_subrange(input, start_index, index)) {
            None => {
                return Err(FrameError::BadNumber);
            },
            Some(value) => {
                number = value;
            },
        }
    } else {
        proof {
            assert(bytes.take(0).len() == 0);
        }
    }
    if index == len {
        return Err(FrameError::Truncated);
    }
    if index == start_index || input[index] != CR {
        return Err(FrameError::BadNumber);
    }
    if index + 1 == len {
        return Err(FrameError::Truncated);
    }
    proof {
        assert(bytes[run + 1] == input@[index + 1]);
    }
    if input[index + 1] != LF {
        return Err(FrameError::BadTerminator);
    }
    Ok((number, index + 2 - start_index))
}

/// Reads the head of a frame at `start_index`. Returns the number of bulk
/// strings that the frame announces and how many bytes the head takes.
pub fn read_head(input: &[u8], start_index: usize) -> (result: Result<(usize, usize), FrameError>)
    ensures
        match result {
            Ok((count, used)) => {
                &&& parse_head(tail(input@, start_index as int)) == Ok::<_, FrameError>(
                    (count, used as nat),
                )
                &&& start_index + used <= input@.len()
            },
            Err(error) => parse_head(tail(input@, start_index as int)) == Err::<(usize, nat), _>(
                error,
            ),
        },
{
    if start_index >= input.len() {
        return Err(FrameError::Truncated);
    }
    if input[start_index] != STAR {
        return Err(FrameError::BadSentinel);
    }
    proof {
        assert(tail(input@, start_index as int).skip(1) =~= tail(input@, start_index + 1));
    }
    match read_number(input, start_index + 1) {
        Err(error) => Err(error),
        Ok((count, used)) => Ok((count, used + 1)),
    }
}

/// Reads one bulk string at `start_index`. Returns its payload, borrowed
/// from `input`, and how many bytes the bulk string takes in all.
pub fn read_item<'a>(input: &'a [u8], start_index: usize) -> (result: Result<
    (&'a [u8], usize),
    FrameError,
>)
    ensures
        match result {
            Ok((item, used)) => {
                &&& parse_item(tail(input@, start_index as int)) == Ok::<_, FrameError>(
                    (item@, used as nat),
                )
                &&& start_index + used <= input@.len()
            },
            Err(error) => parse_item(tail(input@, start_index as int)) == Err::<(Seq<u8>, nat), _>(
                error,
            ),
        },
{
    let len: usize = input.len();
    if start_index >= len {
        return Err(FrameError::Truncated);
    }
    if input[start_index] != DOLLAR {
        return Err(FrameError::BadSentinel);
    }
    let ghost bytes = tail(input@, start_index as int);
    proof {
        assert(bytes.skip(1) =~= tail(input@, start_index + 1));
    }
    let (byte_len, used): (usize, usize) = match read_number(input, start_index + 1) {
        Err(error) => {
            return Err(error);
        },
        Ok(found) => found,
    };
    let byte_start: usize = start_index + 1 + used;
    if byte_len >= len - byte_start {
        return Err(FrameError::Truncated);
    }
    let byte_end: usize = byte_start + byte_len;
    proof {
        assert(bytes[byte_end - start_index] == input@[byte_end as int]);
    }
    if input[byte_end] != CR {
        return Err(FrameError::BadTerminator);
    }
    if byte_end + 1 == len {
        return Err(FrameError::Truncated);
    }
    proof {
        assert(bytes[byte_end + 1 - start_index] == input@[byte_end + 1]);
    }
    if input[byte_end + 1] != LF {
        return Err(FrameError::BadTerminator);
    }
    proof {
        assert(bytes.subrange(1 + used, 1 + used + byte_len) =~= input@.subrange(
            byte_start as int,
            byte_end as int,
        ));
    }
    Ok((vstd::slice::slice_subrange(input, byte_start, byte_end), byte_end + 2 - start_index))
}

/// Once a bulk string cannot be read, reading more of them fails the same way.
pub proof fn lemma_parse_items_fails(bytes: Seq<u8>, count: nat, more: nat)
    requires
        parse_items(bytes, count) is Err,
        count <= more,
    ensures
        parse_items(bytes, more) == parse_items(bytes, count),
    decreases more - count,
{
    if count < more {
        lemma_parse_items_fails(bytes, count, (more - 1) as nat);
    }
}

/// Reads one frame at `start_index`. Returns the command that it holds, each
/// argument borrowed from `input`, and how many bytes the frame takes: the
/// next frame, if there is one, starts right after them.
pub fn read_one_command<'a>(input: &'a [u8], start_index: usize) -> (result: Result<
    (Vec<&'a [u8]>, usize),
    FrameError,
>)
    ensures
        match result {
            Ok((command, used)) => {
                &&& parse_frame(tail(input@, start_index as int)) == Ok::<_, FrameError>(
                    (command_view(command@), used as nat),
                )
                &&& start_index + used <= input@.len()
            },
            Err(error) => parse_frame(tail(input@, start_index as int)) == Err::<
                (Seq<Seq<u8>>, nat),
                _,
            >(error),
        },
{
    let len: usize = input.len();
    let (part_num, head): (usize, usize) = match read_head(input, start_index) {
        Err(error) => {
            return Err(error);
        },
        Ok(found) => found,
    };
    if part_num == 0 {
        return Err(FrameError::EmptyFrame);
    }
    let ghost items = tail(tail(input@, start_index as int), head as int);
    let mut current_command: Vec<&'a [u8]> = Vec::new();
    let mut index: usize = start_index + head;
    let mut parsed: usize = 0;
    proof {
        assert(command_view(current_command@) =~= Seq::<Seq<u8>>::empty());
        assert(items =~= tail(input@, start_index + head));
    }
    while parsed < part_num
        invariant
            len == input@.len(),
            0 < part_num,
            parsed <= part_num,
            start_index + head <= index <= len,
            parse_head(tail(input@, start_index as int)) == Ok::<_, FrameError>(
                (part_num, head as nat),
            ),
            items == tail(tail(input@, start_index as int), head as int),
            items == tail(input@, start_index + head),
            parse_items(items, parsed as nat) == Ok::<_, FrameError>(
                (command_view(current_command@), (index - start_index - head) as nat),
            ),
        decreases part_num - parsed,
    {
        proof {
            assert(tail(items, index - start_index - head) =~= tail(input@, index as int));
        }
        match read_item(input, index) {
            Err(error) => {
                proof {
                    lemma_parse_items_fails(items, (parsed + 1) as nat, part_num as nat);
                }
                return Err(error);
            },
            Ok((item, used)) => {
                proof {
                    assert(command_view(current_command@.push(item)) =~= command_view(
                        current_command@,
                    ).push(item@));
                }
                current_command.push(item);
                index += used;
                parsed += 1;
            },
        }
    }
    Ok((current_command, index - start_index))
}

/// A number that was read, or refused for a reason other than a missing
/// end, reads the same whatever bytes arrive after it.
pub proof fn lemma_parse_number_stable(bytes: Seq<u8>, more: Seq<u8>)
    requires
        parse_number(bytes) != Err::<(usize, nat), _>(FrameError::Truncated),
    ensures
        parse_number(bytes + more) == parse_number(bytes),
{
    let run = digit_run(bytes) as int;
    let longer = bytes + more;
    lemma_digit_run(bytes);
    lemma_digit_run(longer);
    if run < bytes.len() {
        assert forall|i: int| 0 <= i < run implies is_digit(#[trigger] longer[i]) by {
            assert(longer[i] == bytes.take(run)[i]);
        }
        assert(longer[run] == bytes[run]);
        lemma_digit_run_is(longer, run);
        assert(longer.take(run) =~= bytes.take(run));
        if run + 1 < bytes.len() {
            assert(longer[run + 1] == bytes[run + 1]);
        }
    } else {
        let long_run = digit_run(longer) as int;
        assert(bytes.take(run) =~= bytes);
        if long_run < bytes.len() {
            assert(longer[long_run] == bytes[long_run]);
            assert(is_digit(bytes[long_run]));
        }
        assert(longer.take(long_run).take(run) =~= bytes);
        lemma_digits_value_prefix(longer.take(long_run), run);
    }
}

/// A number that was read ends within the bytes it was read from.
pub proof fn lemma_parse_number_bounds(bytes: Seq<u8>)
    ensures
        parse_number(bytes) matches Ok((_, used)) ==> 2 < used <= bytes.len(),
{
    lemma_digit_run(bytes);
}

/// A bulk string that was read, or refused for a reason other than a
/// missing end, reads the same whatever bytes arrive after it.
pub proof fn lemma_parse_item_stable(bytes: Seq<u8>, more: Seq<u8>)
    requires
        parse_item(bytes) != Err::<(Seq<u8>, nat), _>(FrameError::Truncated),
    ensures
        parse_item(bytes + more) == parse_item(bytes),
{
    let longer = bytes + more;
    assert(longer[0] == bytes[0]);
    if bytes[0] == DOLLAR {
        assert(longer.skip(1) =~= bytes.skip(1) + more);
        lemma_parse_number_stable(bytes.skip(1), more);
        match parse_number(bytes.skip(1)) {
            Err(_) => {},
            Ok((length, used)) => {
                let first = (1 + used) as int;
                let end = first + length;
                assert(longer[end] == bytes[end]);
                if end + 1 < bytes.len() {
                    assert(longer[end + 1] == bytes[end + 1]);
                    assert(longer.subrange(first, end) =~= bytes.subrange(first, end));
                }
            },
        }
    }
}

/// A bulk string that was read takes at least its sentinel, its length and
/// two line ends, and ends within the bytes it was read from.
pub proof fn lemma_parse_item_bounds(bytes: Seq<u8>)
    ensures
        parse_item(bytes) matches Ok((_, used)) ==> 5 < used <= bytes.len(),
{
    if bytes.len() > 0 {
        lemma_parse_number_bounds(bytes.skip(1));
    }
}

/// Bulk strings that were read end within the bytes they were read from.
pub proof fn lemma_parse_items_bounds(bytes: Seq<u8>, count: nat)
    ensures
        parse_items(bytes, count) matches Ok((items, used)) ==> used <= bytes.len() && items.len()
            == count,
    decreases count,
{
    if count > 0 {
        lemma_parse_items_bounds(bytes, (count - 1) as nat);
        match parse_items(bytes, (count - 1) as nat) {
            Err(_) => {},
            Ok((_, used)) => {
                lemma_parse_item_bounds(tail(bytes, used as int));
            },
        }
    }
}

/// Bulk strings that were read, or refused for a reason other than a
/// missing end, read the same whatever bytes arrive after them.
pub proof fn lemma_parse_items_stable(bytes: Seq<u8>, more: Seq<u8>, count: nat)
    requires
        parse_items(bytes, count) != Err::<(Seq<Seq<u8>>, nat), _>(FrameError::Truncated),
    ensures
        parse_items(bytes + more, count) == parse_items(bytes, count),
    decreases count,
{
    if count > 0 {
        let fewer = (count - 1) as nat;
        lemma_parse_items_stable(bytes, more, fewer);
        lemma_parse_items_bounds(bytes, fewer);
        match parse_items(bytes, fewer) {
            Err(_) => {},
            Ok((_, used)) => {
                assert(tail(bytes + more, used as int) =~= tail(bytes, used as int) + more);
                lemma_parse_item_stable(tail(bytes, used as int), more);
            },
        }
    }
}

/// A frame that was read is not empty and ends within the bytes it was read
/// from, and the command in it has at least a verb.
pub proof fn lemma_parse_frame_bounds(bytes: Seq<u8>)
    ensures
        parse_frame(bytes) matches Ok((command, used)) ==> 0 < used <= bytes.len() && command.len()
            > 0,
{
    if bytes.len() > 0 {
        lemma_parse_number_bounds(bytes.skip(1));
        match parse_head(bytes) {
            Err(_) => {},
            Ok((count, used)) => {
                lemma_parse_items_bounds(tail(bytes, used as int), count as nat);
            },
        }
    }
}

/// A frame that was read, or refused for a reason other than a missing end,
/// reads the same whatever bytes arrive after it: a complete frame is never
/// changed by what follows it, and a malformed one is never mended.
pub proof fn lemma_parse_frame_stable(bytes: Seq<u8>, more: Seq<u8>)
    requires
        parse_frame(bytes) != Err::<(Seq<Seq<u8>>, nat), _>(FrameError::Truncated),
    ensures
        parse_frame(bytes + more) == parse_frame(bytes),
{
    let longer = bytes + more;
    assert(longer[0] == bytes[0]);
    if bytes[0] == STAR {
        assert(longer.skip(1) =~= bytes.skip(1) + more);
        lemma_parse_number_stable(bytes.skip(1), more);
        lemma_parse_number_bounds(bytes.skip(1));
        match parse_head(bytes) {
            Err(_) => {},
            Ok((count, used)) => {
                if count > 0 {
                    assert(tail(longer, used as int) =~= tail(bytes, used as int) + more);
                    lemma_parse_items_stable(tail(bytes, used as int), more, count as nat);
                }
            },
        }
    }
}

/// A frame that is cut anywhere before its end is truncated, never
/// malformed: the reader waits for the rest.
pub proof fn lemma_cut_frame_is_truncated(frame: Seq<u8>, cut: int)
    requires
        parse_frame(frame) matches Ok((_, used)) && used == frame.len(),
        0 <= cut < frame.len(),
    ensures
        parse_frame(frame.take(cut)) == Err::<(Seq<Seq<u8>>, nat), _>(FrameError::Truncated),
{
    let first = frame.take(cut);
    assert(first + frame.skip(cut) =~= frame);
    if parse_frame(first) != Err::<(Seq<Seq<u8>>, nat), _>(FrameError::Truncated) {
        lemma_parse_frame_stable(first, frame.skip(cut));
        lemma_parse_frame_bounds(first);
    }
}

/// The bytes of `items` as bulk strings, one after the other.
pub open spec fn items_bytes(items: Seq<Seq<u8>>) -> Seq<u8>
    decreases items.len(),
{
    if items.len() == 0 {
        Seq::empty()
    } else {
        items_bytes(items.drop_last()) + bulk_reply(items.last())
    }
}

/// The frame that holds `command`, with every number written in its
/// shortest form.
pub open spec fn frame_bytes(command: Seq<Seq<u8>>) -> Seq<u8> {
    seq![STAR] + decimal_digits(command.len()) + crlf() + items_bytes(command)
}

/// A number in its shortest form, followed by a line end, is read as
/// itself, whatever comes after it.
pub proof fn lemma_parse_number_of_decimal(number: usize, more: Seq<u8>)
    ensures
        parse_number(decimal_digits(number as nat) + crlf() + more) == Ok::<_, FrameError>(
            (number, decimal_digits(number as nat).len() + 2),
        ),
{
    let digits = decimal_digits(number as nat);
    let bytes = digits + crlf() + more;
    let run = digits.len() as int;
    lemma_decimal_digits_shape(number as nat);
    lemma_decimal_round_trip(number as nat);
    assert forall|i: int| 0 <= i < run implies is_digit(#[trigger] bytes[i]) by {
        assert(bytes[i] == digits[i]);
    }
    assert(bytes[run] == CR);
    assert(bytes[run + 1] == LF);
    lemma_digit_run_is(bytes, run);
    assert(bytes.take(run) =~= digits);
}

/// A bulk string is read as its payload, whatever comes after it.
pub proof fn lemma_parse_item_of_bulk(payload: Seq<u8>, more: Seq<u8>)
    requires
        payload.len() <= usize::MAX,
    ensures
        parse_item(bulk_reply(payload) + more) == Ok::<_, FrameError>(
            (payload, bulk_reply(payload).len()),
        ),
{
    let digits = decimal_digits(payload.len());
    let bytes = bulk_reply(payload) + more;
    let after = payload + crlf() + more;
    assert(bytes[0] == DOLLAR);
    assert(bytes.skip(1) =~= digits + crlf() + after);
    lemma_parse_number_of_decimal(payload.len() as usize, after);
    let first = (1 + digits.len() + 2) as int;
    let end = first + payload.len();
    assert(bytes[end] == CR);
    assert(bytes[end + 1] == LF);
    assert(bytes.subrange(first, end) =~= payload);
}

/// Bulk strings, one after the other, are read as their payloads, whatever
/// comes after them.
pub proof fn lemma_parse_items_of_bulks(items: Seq<Seq<u8>>, more: Seq<u8>)
    requires
        forall|i: int| 0 <= i < items.len() ==> (#[trigger] items[i]).len() <= usize::MAX,
    ensures
        parse_items(items_bytes(items) + more, items.len()) == Ok::<_, FrameError>(
            (items, items_bytes(items).len()),
        ),
    decreases items.len(),
{
    if items.len() == 0 {
        assert(items =~= Seq::<Seq<u8>>::empty());
    } else {
        let earlier = items.drop_last();
        let last = bulk_reply(items.last());
        let bytes = items_bytes(items) + more;
        assert(bytes =~= items_bytes(earlier) + (last + more));
        lemma_parse_items_of_bulks(earlier, last + more);
        assert(tail(bytes, items_bytes(earlier).len() as int) =~= last + more);
        lemma_parse_item_of_bulk(items.last(), more);
        assert(earlier.push(items.last()) =~= items);
    }
}

/// Every command with at least a verb, written as a frame, is read back as
/// itself, and the frame is reported to end where it ends, whatever comes
/// after it.
pub proof fn lemma_parse_frame_of_command(command: Seq<Seq<u8>>, more: Seq<u8>)
    requires
        0 < command.len() <= usize::MAX,
        forall|i: int| 0 <= i < command.len() ==> (#[trigger] command[i]).len() <= usize::MAX,
    ensures
        parse_frame(frame_bytes(command) + more) == Ok::<_, FrameError>(
            (command, frame_bytes(command).len()),
        ),
{
    let digits = decimal_digits(command.len());
    let bytes = frame_bytes(command) + more;
    let after = items_bytes(command) + more;
    assert(bytes[0] == STAR);
    assert(bytes.skip(1) =~= digits + crlf() + after);
    lemma_parse_number_of_decimal(command.len() as usize, after);
    assert(tail(bytes, (1 + digits.len() + 2) as int) =~= after);
    lemma_parse_items_of_bulks(command, more);
}

} // verus!
