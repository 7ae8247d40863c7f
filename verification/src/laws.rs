//! What holds of commands in sequence, whatever the store and the sessions
//! were before: a value that was written is read back, a deadline is kept,
//! a stale deletion harms nothing, and connections do not see each other's
//! sessions.

use crate::command::{
    answer, execute, status_reply, ExpiryView, OutcomeView, Step,
};
use crate::number::number_of;
use crate::reply::{bulk_reply, null_reply};
use crate::session::{info_line, SessionView};
use crate::store::{after_expire, after_get, after_set, lookup, Entries};
use crate::text::{is_word, lemma_word_is_text, text_of};
use vstd::prelude::*;

verus! {

/// Whether `command` is `SET key value`, in any spelling of the verb.
pub open spec fn is_set(command: Seq<Seq<u8>>, key: Seq<char>, value: Seq<u8>) -> bool {
    &&& command.len() == 3
    &&& is_word(command[0], "set"@)
    &&& text_of(command[1]) == Some(key)
    &&& command[2] == value
}

/// Whether `command` is `SET key value PX delay`, in any spelling of the
/// verb and of the modifier.
pub open spec fn is_set_px(
    command: Seq<Seq<u8>>,
    key: Seq<char>,
    value: Seq<u8>,
    delay: usize,
) -> bool {
    &&& command.len() == 5
    &&& is_word(command[0], "set"@)
    &&& text_of(command[1]) == Some(key)
    &&& command[2] == value
    &&& is_word(command[3], "px"@)
    &&& number_of(command[4]) == Some(delay)
}

/// Whether `command` is `GET key`, in any spelling of the verb.
pub open spec fn is_get(command: Seq<Seq<u8>>, key: Seq<char>) -> bool {
    &&& command.len() == 2
    &&& is_word(command[0], "get"@)
    &&& text_of(command[1]) == Some(key)
}

/// Whether `command` is `PING`, in any spelling.
pub open spec fn is_ping(command: Seq<Seq<u8>>) -> bool {
    &&& command.len() == 1
    &&& is_word(command[0], "ping"@)
}

/// Whether `command` is `CLIENT INFO`, in any spelling.
pub open spec fn is_client_info(command: Seq<Seq<u8>>) -> bool {
    &&& command.len() == 2
    &&& is_word(command[0], "client"@)
    &&& is_word(command[1], "info"@)
}

/// No argument spells two of the verbs.
pub proof fn lemma_verbs_differ(arg: Seq<u8>)
    ensures
        is_word(arg, "ping"@) ==> !is_word(arg, "echo"@),
        is_word(arg, "set"@) ==> !is_word(arg, "ping"@) && !is_word(arg, "echo"@),
        is_word(arg, "get"@) ==> !is_word(arg, "ping"@) && !is_word(arg, "echo"@) && !is_word(
            arg,
            "set"@,
        ),
        is_word(arg, "client"@) ==> !is_word(arg, "ping"@) && !is_word(arg, "echo"@) && !is_word(
            arg,
            "set"@,
        ) && !is_word(arg, "get"@),
{
    reveal_strlit("ping");
    reveal_strlit("echo");
    reveal_strlit("set");
    reveal_strlit("get");
    reveal_strlit("client");
    if arg.len() > 0 {
        let first = arg[0];
    }
}

/// `PING` is answered with `PONG` and changes nothing.
pub proof fn lemma_ping(store: Entries, session: SessionView, command: Seq<Seq<u8>>, now: u64)
    requires
        is_ping(command),
    ensures
        execute(store, session, command, now) == answer(store, session, status_reply("PONG"@)),
{
    reveal(execute);
    lemma_word_is_text(command[0], "ping"@);
}

/// `SET key value` writes the value under the key, without deadline, and is
/// answered with `OK`.
pub proof fn lemma_set(
    store: Entries,
    session: SessionView,
    command: Seq<Seq<u8>>,
    key: Seq<char>,
    value: Seq<u8>,
    now: u64,
)
    requires
        is_set(command, key, value),
    ensures
        execute(store, session, command, now) == answer(
            after_set(store, key, value, None),
            session,
            status_reply("OK"@),
        ),
{
    reveal(execute);
    lemma_word_is_text(command[0], "set"@);
    lemma_verbs_differ(command[0]);
}

/// `SET key value PX delay` writes the value under the key with the
/// deadline `now + delay`, asks for the deletion at that deadline and is
/// answered with `OK`.
pub proof fn lemma_set_px(
    store: Entries,
    session: SessionView,
    command: Seq<Seq<u8>>,
    key: Seq<char>,
    value: Seq<u8>,
    delay: usize,
    now: u64,
)
    requires
        is_set_px(command, key, value, delay),
        now + delay <= u64::MAX,
    ensures
        execute(store, session, command, now) == (Step {
            store: after_set(store, key, value, Some((now + delay) as u64)),
            session,
            outcome: OutcomeView {
                reply: status_reply("OK"@),
                expiry: Some(
                    ExpiryView { key, deadline: (now + delay) as u64, delay: delay as u64 },
                ),
                close: false,
            },
        }),
{
    reveal(execute);
    lemma_word_is_text(command[0], "set"@);
    lemma_word_is_text(command[3], "px"@);
    lemma_verbs_differ(command[0]);
}

/// `GET key` is answered with the live value under the key, or with the
/// null bulk string; it drops the entry if it is past its deadline.
pub proof fn lemma_get(
    store: Entries,
    session: SessionView,
    command: Seq<Seq<u8>>,
    key: Seq<char>,
    now: u64,
)
    requires
        is_get(command, key),
    ensures
        execute(store, session, command, now) == answer(
            after_get(store, key, now),
            session,
            match lookup(store, key, now) {
                Some(value) => bulk_reply(value),
                None => null_reply(),
            },
        ),
{
    reveal(execute);
    lemma_word_is_text(command[0], "get"@);
    lemma_verbs_differ(command[0]);
}

/// `CLIENT INFO` is answered with the line that describes the session of
/// the connection that asks, and changes nothing.
pub proof fn lemma_client_info(
    store: Entries,
    session: SessionView,
    command: Seq<Seq<u8>>,
    now: u64,
)
    requires
        is_client_info(command),
    ensures
        execute(store, session, command, now) == answer(
            store,
            session,
            bulk_reply(info_line(session)),
        ),
{
    reveal(execute);
    lemma_word_is_text(command[0], "client"@);
    lemma_word_is_text(command[1], "info"@);
    lemma_verbs_differ(command[0]);
}

/// A value that was written is read back: after `SET key value`, at any
/// time and from any connection, `GET key` is answered with the value. This
/// holds whatever was under the key before, so a second `SET` overwrites the
/// first.
pub proof fn lemma_get_after_set(
    store: Entries,
    writer: SessionView,
    reader: SessionView,
    set: Seq<Seq<u8>>,
    get: Seq<Seq<u8>>,
    key: Seq<char>,
    value: Seq<u8>,
    written_at: u64,
    read_at: u64,
)
    requires
        is_set(set, key, value),
        is_get(get, key),
    ensures
        execute(execute(store, writer, set, written_at).store, reader, get, read_at).outcome.reply
            == bulk_reply(value),
{
    lemma_set(store, writer, set, key, value, written_at);
    lemma_get(after_set(store, key, value, None), reader, get, key, read_at);
}

/// A key that the store does not hold reads as the null bulk string.
pub proof fn lemma_get_missing(
    store: Entries,
    session: SessionView,
    get: Seq<Seq<u8>>,
    key: Seq<char>,
    now: u64,
)
    requires
        is_get(get, key),
        !store.contains_key(key),
    ensures
        execute(store, session, get, now).outcome.reply == null_reply(),
{
    lemma_get(store, session, get, key, now);
}

/// A value written with `PX delay` is read back before its deadline, and
/// from the deadline on the key reads as the null bulk string.
pub proof fn lemma_get_after_set_px(
    store: Entries,
    writer: SessionView,
    reader: SessionView,
    set: Seq<Seq<u8>>,
    get: Seq<Seq<u8>>,
    key: Seq<char>,
    value: Seq<u8>,
    delay: usize,
    written_at: u64,
    read_at: u64,
)
    requires
        is_set_px(set, key, value, delay),
        is_get(get, key),
        written_at + delay <= u64::MAX,
    ensures
        execute(execute(store, writer, set, written_at).store, reader, get, read_at).outcome.reply
            == (if read_at < written_at + delay {
            bulk_reply(value)
        } else {
            null_reply()
        }),
{
    lemma_set_px(store, writer, set, key, value, delay, written_at);
    let deadline = (written_at + delay) as u64;
    lemma_get(after_set(store, key, value, Some(deadline)), reader, get, key, read_at);
}

/// The deletion that a `SET ... PX` asked for does not take away what a
/// later `SET` without `PX` wrote under the same key: whenever the deletion
/// runs, the key still reads as the later value.
pub proof fn lemma_stale_deletion_spares_overwrite(
    store: Entries,
    session: SessionView,
    first: Seq<Seq<u8>>,
    second: Seq<Seq<u8>>,
    get: Seq<Seq<u8>>,
    key: Seq<char>,
    old_value: Seq<u8>,
    new_value: Seq<u8>,
    delay: usize,
    first_at: u64,
    second_at: u64,
    deleted_at: u64,
    read_at: u64,
)
    requires
        is_set_px(first, key, old_value, delay),
        is_set(second, key, new_value),
        is_get(get, key),
        first_at + delay <= u64::MAX,
    ensures
        ({
            let written = execute(store, session, first, first_at);
            let overwritten = execute(written.store, session, second, second_at);
            let deleted = after_expire(
                overwritten.store,
                written.outcome.expiry->0.key,
                written.outcome.expiry->0.deadline,
                deleted_at,
            );
            execute(deleted, session, get, read_at).outcome.reply == bulk_reply(new_value)
        }),
{
    lemma_set_px(store, session, first, key, old_value, delay, first_at);
    let deadline = (first_at + delay) as u64;
    let written = after_set(store, key, old_value, Some(deadline));
    lemma_set(written, session, second, key, new_value, second_at);
    let overwritten = after_set(written, key, new_value, None);
    lemma_get(after_expire(overwritten, key, deadline, deleted_at), session, get, key, read_at);
}

/// What a `CLIENT` command answers, and what it does to the session of its
/// connection, depends on that session alone: nothing that another
/// connection did has any part in it, since all that connections share is
/// the store, and a `CLIENT` command neither reads nor changes the store.
pub proof fn lemma_client_commands_see_their_session_only(
    store: Entries,
    other_store: Entries,
    session: SessionView,
    command: Seq<Seq<u8>>,
    now: u64,
    other_now: u64,
)
    requires
        command.len() > 0,
        is_word(command[0], "client"@),
    ensures
        execute(store, session, command, now).outcome == execute(
            other_store,
            session,
            command,
            other_now,
        ).outcome,
        execute(store, session, command, now).session == execute(
            other_store,
            session,
            command,
            other_now,
        ).session,
        execute(store, session, command, now).store == store,
{
    reveal(execute);
    lemma_word_is_text(command[0], "client"@);
    lemma_verbs_differ(command[0]);
}

/// Sessions are isolated: whatever command one connection executes, and
/// whatever it thereby does to its own session and to the store, `CLIENT
/// INFO` on another connection is answered with the line that describes
/// that other connection's session, as if nothing had happened.
pub proof fn lemma_sessions_are_isolated(
    store: Entries,
    one: SessionView,
    other: SessionView,
    command: Seq<Seq<u8>>,
    info: Seq<Seq<u8>>,
    now: u64,
    later: u64,
)
    requires
        is_client_info(info),
    ensures
        execute(execute(store, one, command, now).store, other, info, later).outcome == execute(
            store,
            other,
            info,
            later,
        ).outcome,
        execute(execute(store, one, command, now).store, other, info, later).outcome.reply
            == bulk_reply(info_line(other)),
{
    lemma_client_info(store, other, info, later);
    lemma_client_info(execute(store, one, command, now).store, other, info, later);
}

} // verus!
